//! The registry of known environments, looked up by name.
//!
//! Each Atari ROM file `<stem>.<ext>` found by the caller is registered under two
//! names, `atari-<stem>-ram` and `atari-<stem>-rgb` (with every `_` of the stem
//! turned into `-`), one for each kind of observation. What the registry hands
//! back for a name is the recipe of the environment: the ROM's path and the kind
//! of observation.

use vstd::prelude::*;

verus! {

/// What an environment lets the agent observe.
#[derive(Clone, Copy, Debug, PartialEq, Eq, Structural)]
pub enum Observation {
    /// The 128 bytes of the console's RAM.
    Ram,
    /// The screen, as RGB pixels.
    Rgb,
}

/// How to build a registered environment: which ROM to load and what to observe.
#[derive(Debug, PartialEq, Eq)]
pub struct EnvEntry {
    pub rom_path: String,
    pub observation: Observation,
}

impl View for EnvEntry {
    type V = (Seq<char>, Observation);

    open spec fn view(&self) -> (Seq<char>, Observation) {
        (self.rom_path@, self.observation)
    }
}

/// A ROM file: the file name without its extension, and its path.
#[derive(Debug)]
pub struct RomFile {
    pub stem: String,
    pub path: String,
}

impl View for RomFile {
    type V = (Seq<char>, Seq<char>);

    open spec fn view(&self) -> (Seq<char>, Seq<char>) {
        (self.stem@, self.path@)
    }
}

/// Appends `c` to `s`, through `String::push`.
#[verifier::external_body]
fn string_push(s: &mut String, c: char)
    ensures
        final(s)@ == old(s)@.push(c),
{
    s.push(c);
}

/// `s` with every `_` replaced by `-`.
pub open spec fn dashed(s: Seq<char>) -> Seq<char> {
    s.map_values(|c: char| if c == '_' { '-' } else { c })
}

/// The suffix of an environment's name that tells its kind of observation.
pub open spec fn observation_suffix(observation: Observation) -> Seq<char> {
    match observation {
        Observation::Ram => "-ram"@,
        Observation::Rgb => "-rgb"@,
    }
}

/// The name under which the ROM with file stem `stem` is registered for `observation`.
pub open spec fn atari_name(stem: Seq<char>, observation: Observation) -> Seq<char> {
    "atari-"@ + dashed(stem) + observation_suffix(observation)
}

/// `s` with every `_` replaced by `-`.
fn dash_underscores(s: &str) -> (r: String)
    ensures
        r@ == dashed(s@),
{
    let len = s.unicode_len();
    let mut r = String::new();
    let mut i: usize = 0;
    while i < len
        invariant
            len == s@.len(),
            i <= len,
            r@ == dashed(s@.take(i as int)),
        decreases len - i,
    {
        let c = s.get_char(i);
        let d = if c == '_' {
            '-'
        } else {
            c
        };
        string_push(&mut r, d);
        assert(s@.take(i + 1) =~= s@.take(i as int).push(c));
        assert(dashed(s@.take(i + 1)) =~= dashed(s@.take(i as int)).push(d));
        i = i + 1;
    }
    assert(s@.take(len as int) =~= s@);
    r
}

/// The name under which the ROM with file stem `stem` is registered for `observation`.
pub fn atari_env_name(stem: &str, observation: Observation) -> (name: String)
    ensures
        name@ == atari_name(stem@, observation),
{
    let mut name = String::from_str("atari-");
    let middle = dash_underscores(stem);
    name.append(middle.as_str());
    match observation {
        Observation::Ram => name.append("-ram"),
        Observation::Rgb => name.append("-rgb"),
    }
    name
}

/// A table of environments by name, each name at most once.
pub struct EnvTable {
    entries: Vec<(String, EnvEntry)>,
}

/// In a sequence without duplicates, the index of an element is the one where it stands.
proof fn lemma_index_of_unique(s: Seq<Seq<char>>, i: int)
    requires
        s.no_duplicates(),
        0 <= i < s.len(),
    ensures
        s.index_of(s[i]) == i,
{
    assert(s.contains(s[i]));
    let j = s.index_of(s[i]);
    assert(0 <= j < s.len() && s[j] == s[i]);
}

impl EnvTable {
    /// The names, in the order in which they were first registered.
    pub closed spec fn name_seq(&self) -> Seq<Seq<char>> {
        self.entries@.map_values(|e: (String, EnvEntry)| e.0@)
    }

    #[verifier::type_invariant]
    spec fn inv(&self) -> bool {
        self.name_seq().no_duplicates()
    }

    /// An empty table.
    pub fn new() -> (t: Self)
        ensures
            t@ == Map::<Seq<char>, (Seq<char>, Observation)>::empty(),
            t.name_seq() == Seq::<Seq<char>>::empty(),
    {
        let t = EnvTable { entries: Vec::new() };
        assert(t.name_seq() =~= Seq::<Seq<char>>::empty());
        assert(t@ =~= Map::<Seq<char>, (Seq<char>, Observation)>::empty());
        t
    }

    /// Where `name` stands in the table, if it does.
    fn find(&self, name: &String) -> (r: Option<usize>)
        ensures
            match r {
                Some(i) => i < self.name_seq().len() && self.name_seq()[i as int] == name@,
                None => !self.name_seq().contains(name@),
            },
    {
        let mut i: usize = 0;
        while i < self.entries.len()
            invariant
                i <= self.entries@.len(),
                forall|j: int| 0 <= j < i ==> self.name_seq()[j] != name@,
            decreases self.entries@.len() - i,
        {
            if self.entries[i].0 == *name {
                return Some(i);
            }
            i = i + 1;
        }
        None
    }

    /// Registers `entry` under `name`, in place of what `name` stood for before.
    pub fn insert(&mut self, name: String, entry: EnvEntry)
        ensures
            final(self)@ == old(self)@.insert(name@, entry@),
            old(self).name_seq().contains(name@) ==> final(self).name_seq() == old(self).name_seq(),
            !old(self).name_seq().contains(name@) ==> final(self).name_seq() == old(self).name_seq().push(name@),
    {
        proof {
            use_type_invariant(&*self);
        }
        let ghost before = *self;
        let ghost key = name@;
        let ghost value = entry@;
        let found = self.find(&name);
        let mut entries: Vec<(String, EnvEntry)> = Vec::new();
        std::mem::swap(&mut entries, &mut self.entries);
        match found {
            Some(i) => {
                entries.set(i, (name, entry));
                assert(entries@.map_values(|e: (String, EnvEntry)| e.0@) =~= before.name_seq());
                self.entries = entries;
                proof {
                    assert(self.name_seq() =~= before.name_seq());
                    assert forall|k: Seq<char>| #[trigger] self@.contains_key(k) implies self@[k]
                        == before@.insert(key, value)[k] by {
                        let j = self.name_seq().index_of(k);
                        assert(0 <= j < self.name_seq().len() && self.name_seq()[j] == k);
                        lemma_index_of_unique(self.name_seq(), j);
                        if k == key {
                            lemma_index_of_unique(self.name_seq(), i as int);
                        }
                    }
                    assert(self@ =~= before@.insert(key, value));
                }
            },
            None => {
                entries.push((name, entry));
                assert(entries@.map_values(|e: (String, EnvEntry)| e.0@) =~= before.name_seq().push(
                    key,
                ));
                self.entries = entries;
                proof {
                    let n = before.name_seq().len() as int;
                    assert(self.name_seq() =~= before.name_seq().push(key));
                    assert forall|k: Seq<char>|
                        self@.contains_key(k) <==> #[trigger] before@.insert(key, value).contains_key(
                            k,
                        ) by {
                        if self.name_seq().contains(k) {
                            let j = choose|j: int| 0 <= j < self.name_seq().len() && self.name_seq()[j] == k;
                            if j < n {
                                assert(before.name_seq()[j] == k);
                            }
                        }
                        if before.name_seq().contains(k) {
                            let j = choose|j: int| 0 <= j < n && before.name_seq()[j] == k;
                            assert(self.name_seq()[j] == k);
                        }
                        if k == key {
                            assert(self.name_seq()[n] == k);
                        }
                    }
                    assert forall|k: Seq<char>| #[trigger] self@.contains_key(k) implies self@[k]
                        == before@.insert(key, value)[k] by {
                        let j = self.name_seq().index_of(k);
                        assert(0 <= j < self.name_seq().len() && self.name_seq()[j] == k);
                        lemma_index_of_unique(self.name_seq(), j);
                        if k != key {
                            assert(j < n);
                            assert(before.name_seq()[j] == k);
                            lemma_index_of_unique(before.name_seq(), j);
                        } else {
                            lemma_index_of_unique(self.name_seq(), n);
                        }
                    }
                    assert(self@ =~= before@.insert(key, value));
                }
            },
        }
    }

    /// What `name` stands for, if it is in the table.
    pub fn get(&self, name: &str) -> (r: Option<EnvEntry>)
        ensures
            match r {
                Some(e) => self@.contains_key(name@) && e@ == self@[name@],
                None => !self@.contains_key(name@),
            },
    {
        proof {
            use_type_invariant(self);
        }
        let key = String::from_str(name);
        match self.find(&key) {
            Some(i) => {
                proof {
                    lemma_index_of_unique(self.name_seq(), i as int);
                }
                let e = &self.entries[i].1;
                Some(EnvEntry { rom_path: e.rom_path.clone(), observation: e.observation })
            },
            None => None,
        }
    }

    /// The names in the table, in the order in which they were first registered.
    pub fn names(&self) -> (r: Vec<String>)
        ensures
            r@.map_values(|s: String| s@) == self.name_seq(),
            self.name_seq().no_duplicates(),
            self.name_seq().to_set() == self@.dom(),
    {
        proof {
            use_type_invariant(self);
        }
        let mut r: Vec<String> = Vec::new();
        let mut i: usize = 0;
        while i < self.entries.len()
            invariant
                i <= self.entries@.len(),
                r@.map_values(|s: String| s@) == self.name_seq().take(i as int),
            decreases self.entries@.len() - i,
        {
            let ghost prev = r@;
            let name = self.entries[i].0.clone();
            r.push(name);
            assert(r@ == prev.push(name));
            assert(r@.map_values(|s: String| s@) =~= prev.map_values(|s: String| s@).push(name@));
            assert(self.name_seq()[i as int] == name@);
            assert(self.name_seq().take(i + 1) =~= self.name_seq().take(i as int).push(name@));
            i = i + 1;
        }
        assert(self.name_seq().take(i as int) =~= self.name_seq());
        assert(self.name_seq().to_set() =~= self@.dom());
        r
    }
}

impl View for EnvTable {
    type V = Map<Seq<char>, (Seq<char>, Observation)>;

    closed spec fn view(&self) -> Map<Seq<char>, (Seq<char>, Observation)> {
        Map::new(
            |k: Seq<char>| self.name_seq().contains(k),
            |k: Seq<char>| self.entries@[self.name_seq().index_of(k)].1@,
        )
    }
}


/// The table that registering `roms` in order yields: each ROM under its two
/// names, a later ROM taking over a name that an earlier one had.
pub open spec fn atari_registry(roms: Seq<(Seq<char>, Seq<char>)>) -> Map<Seq<char>, (Seq<char>, Observation)>
    decreases roms.len(),
{
    if roms.len() == 0 {
        Map::empty()
    } else {
        let stem = roms.last().0;
        let path = roms.last().1;
        atari_registry(roms.drop_last()).insert(
            atari_name(stem, Observation::Ram),
            (path, Observation::Ram),
        ).insert(atari_name(stem, Observation::Rgb), (path, Observation::Rgb))
    }
}

/// The collection of known environments: continuous-action ones and
/// discrete-action ones, each by name.
pub struct Gym {
    continuous_envs: EnvTable,
    discrete_envs: EnvTable,
}

impl Gym {
    /// The continuous-action environments by name.
    pub closed spec fn continuous(&self) -> Map<Seq<char>, (Seq<char>, Observation)> {
        self.continuous_envs@
    }

    /// The discrete-action environments by name.
    pub closed spec fn discrete(&self) -> Map<Seq<char>, (Seq<char>, Observation)> {
        self.discrete_envs@
    }

    /// The collection that holds, as discrete-action environments, the Atari
    /// games of `roms`, each under its `-ram` and its `-rgb` name.
    pub fn new(roms: &Vec<RomFile>) -> (gym: Gym)
        ensures
            gym.continuous() == Map::<Seq<char>, (Seq<char>, Observation)>::empty(),
            gym.discrete() == atari_registry(roms@.map_values(|r: RomFile| r@)),
    {
        let ghost views = roms@.map_values(|r: RomFile| r@);
        let mut discrete = EnvTable::new();
        let mut i: usize = 0;
        while i < roms.len()
            invariant
                i <= roms@.len(),
                views == roms@.map_values(|r: RomFile| r@),
                discrete@ == atari_registry(views.take(i as int)),
            decreases roms@.len() - i,
        {
            let rom = &roms[i];
            let ram = EnvEntry { rom_path: rom.path.clone(), observation: Observation::Ram };
            discrete.insert(atari_env_name(rom.stem.as_str(), Observation::Ram), ram);
            let rgb = EnvEntry { rom_path: rom.path.clone(), observation: Observation::Rgb };
            discrete.insert(atari_env_name(rom.stem.as_str(), Observation::Rgb), rgb);
            assert(views.take(i + 1).drop_last() =~= views.take(i as int));
            i = i + 1;
        }
        assert(views.take(roms@.len() as int) =~= views);
        Gym { continuous_envs: EnvTable::new(), discrete_envs: discrete }
    }

    /// The names of the continuous-action environments, each once.
    pub fn continuous_envs(&self) -> (names: Vec<String>)
        ensures
            names@.map_values(|s: String| s@).no_duplicates(),
            names@.map_values(|s: String| s@).to_set() == self.continuous().dom(),
    {
        self.continuous_envs.names()
    }

    /// The names of the discrete-action environments, each once.
    pub fn discrete_envs(&self) -> (names: Vec<String>)
        ensures
            names@.map_values(|s: String| s@).no_duplicates(),
            names@.map_values(|s: String| s@).to_set() == self.discrete().dom(),
    {
        self.discrete_envs.names()
    }

    /// The continuous-action environment registered under `name`, if any.
    pub fn continuous_env(&self, name: &str) -> (env: Option<EnvEntry>)
        ensures
            match env {
                Some(e) => self.continuous().contains_key(name@) && e@ == self.continuous()[name@],
                None => !self.continuous().contains_key(name@),
            },
    {
        self.continuous_envs.get(name)
    }

    /// The discrete-action environment registered under `name`, if any.
    pub fn discrete_env(&self, name: &str) -> (env: Option<EnvEntry>)
        ensures
            match env {
                Some(e) => self.discrete().contains_key(name@) && e@ == self.discrete()[name@],
                None => !self.discrete().contains_key(name@),
            },
    {
        self.discrete_envs.get(name)
    }
}

/// Two registered names are equal exactly when they come from stems that are
/// equal once `_` is read as `-`, for the same kind of observation.
pub proof fn atari_name_injective(s1: Seq<char>, o1: Observation, s2: Seq<char>, o2: Observation)
    ensures
        atari_name(s1, o1) == atari_name(s2, o2) <==> (dashed(s1) == dashed(s2) && o1 == o2),
{
    reveal_strlit("atari-");
    reveal_strlit("-ram");
    reveal_strlit("-rgb");
    let a = atari_name(s1, o1);
    let b = atari_name(s2, o2);
    let d1 = dashed(s1);
    let d2 = dashed(s2);
    assert("atari-"@.len() == 6);
    assert(observation_suffix(o1).len() == 4);
    assert(observation_suffix(o2).len() == 4);
    assert(a.len() == 10 + d1.len());
    assert(b.len() == 10 + d2.len());
    if a == b {
        assert(d1.len() == d2.len());
        assert(d1 =~= a.subrange(6, 6 + d1.len() as int));
        assert(d2 =~= b.subrange(6, 6 + d2.len() as int));
        assert(observation_suffix(o1) =~= a.subrange(6 + d1.len() as int, a.len() as int));
        assert(observation_suffix(o2) =~= b.subrange(6 + d2.len() as int, b.len() as int));
        if o1 != o2 {
            assert(observation_suffix(o1)[2] != observation_suffix(o2)[2]);
        }
    }
}

/// A registered name spells out the stem: `atari-`, then every character of the
/// stem in order with each `_` written as `-`, then `-ram` or `-rgb` after the
/// kind of observation. Nothing of the stem is dropped or added.
pub proof fn atari_name_spells_out_stem(stem: Seq<char>, observation: Observation)
    ensures
        atari_name(stem, observation).len() == stem.len() + 10,
        atari_name(stem, observation).subrange(0, 6) == "atari-"@,
        forall|i: int|
            0 <= i < stem.len() ==> atari_name(stem, observation)[6 + i] == (if #[trigger] stem[i]
                == '_' {
                '-'
            } else {
                stem[i]
            }),
        observation == Observation::Ram ==> atari_name(stem, observation).subrange(
            6 + stem.len() as int,
            10 + stem.len() as int,
        ) == "-ram"@,
        observation == Observation::Rgb ==> atari_name(stem, observation).subrange(
            6 + stem.len() as int,
            10 + stem.len() as int,
        ) == "-rgb"@,
{
    reveal_strlit("atari-");
    reveal_strlit("-ram");
    reveal_strlit("-rgb");
    let name = atari_name(stem, observation);
    assert(dashed(stem).len() == stem.len());
    assert(name.subrange(0, 6) =~= "atari-"@);
    assert(name.subrange(6 + stem.len() as int, 10 + stem.len() as int) =~= observation_suffix(
        observation,
    ));
}

/// Every ROM registered has both of its names in the table.
pub proof fn atari_registry_holds_every_rom(roms: Seq<(Seq<char>, Seq<char>)>, i: int)
    requires
        0 <= i < roms.len(),
    ensures
        atari_registry(roms).contains_key(atari_name(roms[i].0, Observation::Ram)),
        atari_registry(roms).contains_key(atari_name(roms[i].0, Observation::Rgb)),
    decreases roms.len(),
{
    if i < roms.len() - 1 {
        atari_registry_holds_every_rom(roms.drop_last(), i);
        assert(roms.drop_last()[i] == roms[i]);
    }
}

/// A name stands for the ROM that was registered under it last: when no later
/// ROM has the same stem (reading `_` as `-`), the names of ROM `i` give its path
/// and the observation that the name tells.
pub proof fn atari_registry_latest_rom_wins(
    roms: Seq<(Seq<char>, Seq<char>)>,
    i: int,
    observation: Observation,
)
    requires
        0 <= i < roms.len(),
        forall|k: int| i < k < roms.len() ==> dashed(#[trigger] roms[k].0) != dashed(roms[i].0),
    ensures
        atari_registry(roms)[atari_name(roms[i].0, observation)] == (roms[i].1, observation),
    decreases roms.len(),
{
    let last = roms.last();
    let name = atari_name(roms[i].0, observation);
    atari_name_injective(roms[i].0, observation, last.0, Observation::Ram);
    atari_name_injective(roms[i].0, observation, last.0, Observation::Rgb);
    if i < roms.len() - 1 {
        let k = roms.len() - 1;
        assert(dashed(roms[k].0) != dashed(roms[i].0));
        atari_registry_latest_rom_wins(roms.drop_last(), i, observation);
        assert(roms.drop_last()[i] == roms[i]);
        atari_registry_holds_every_rom(roms.drop_last(), i);
    }
}

/// The table holds no other names: each comes from a ROM, and stands for the
/// kind of observation that its suffix tells.
pub proof fn atari_registry_names_come_from_roms(
    roms: Seq<(Seq<char>, Seq<char>)>,
    name: Seq<char>,
)
    requires
        atari_registry(roms).contains_key(name),
    ensures
        exists|i: int|
            0 <= i < roms.len() && #[trigger] atari_name(roms[i].0, atari_registry(roms)[name].1)
                == name,
    decreases roms.len(),
{
    let k = roms.len() - 1;
    let stem = roms[k].0;
    if name == atari_name(stem, Observation::Rgb) {
        assert(atari_name(roms[k].0, atari_registry(roms)[name].1) == name);
    } else if name == atari_name(stem, Observation::Ram) {
        assert(atari_name(roms[k].0, atari_registry(roms)[name].1) == name);
    } else {
        atari_registry_names_come_from_roms(roms.drop_last(), name);
        let i = choose|i: int|
            0 <= i < roms.drop_last().len() && #[trigger] atari_name(
                roms.drop_last()[i].0,
                atari_registry(roms.drop_last())[name].1,
            ) == name;
        assert(roms.drop_last()[i] == roms[i]);
        assert(atari_name(roms[i].0, atari_registry(roms)[name].1) == name);
    }
}

} // verus!
