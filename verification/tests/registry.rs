use gyms::gym::{atari_env_name, EnvEntry, EnvTable, Gym, Observation, RomFile};

fn rom(stem: &str, path: &str) -> RomFile {
    RomFile { stem: stem.to_string(), path: path.to_string() }
}

fn entry(path: &str, observation: Observation) -> EnvEntry {
    EnvEntry { rom_path: path.to_string(), observation }
}

#[test]
fn env_names_turn_underscores_into_dashes() {
    assert_eq!(atari_env_name("space_invaders", Observation::Ram), "atari-space-invaders-ram");
    assert_eq!(atari_env_name("space_invaders", Observation::Rgb), "atari-space-invaders-rgb");
    assert_eq!(atari_env_name("pong", Observation::Rgb), "atari-pong-rgb");
    assert_eq!(atari_env_name("", Observation::Ram), "atari--ram");
    assert_eq!(atari_env_name("a__b", Observation::Ram), "atari-a--b-ram");
}

#[test]
fn gym_registers_each_rom_twice() {
    let gym = Gym::new(&vec![rom("pong", "/roms/pong.bin"), rom("space_invaders", "/roms/si.bin")]);
    let mut names = gym.discrete_envs();
    names.sort();
    assert_eq!(
        names,
        vec![
            "atari-pong-ram".to_string(),
            "atari-pong-rgb".to_string(),
            "atari-space-invaders-ram".to_string(),
            "atari-space-invaders-rgb".to_string(),
        ]
    );
    assert_eq!(
        gym.discrete_env("atari-space-invaders-rgb"),
        Some(EnvEntry { rom_path: "/roms/si.bin".to_string(), observation: Observation::Rgb })
    );
    assert_eq!(
        gym.discrete_env("atari-pong-ram"),
        Some(EnvEntry { rom_path: "/roms/pong.bin".to_string(), observation: Observation::Ram })
    );
}

#[test]
fn gym_has_no_continuous_envs() {
    let gym = Gym::new(&vec![rom("pong", "/roms/pong.bin")]);
    assert!(gym.continuous_envs().is_empty());
    assert_eq!(gym.continuous_env("atari-pong-ram"), None);
}

#[test]
fn gym_unknown_name_gives_none() {
    let gym = Gym::new(&vec![rom("pong", "/roms/pong.bin")]);
    assert_eq!(gym.discrete_env("atari-pong"), None);
    assert_eq!(gym.discrete_env("atari-breakout-ram"), None);
    assert_eq!(gym.discrete_env("atari-pong_ram"), None);
}

#[test]
fn gym_without_roms_is_empty() {
    let gym = Gym::new(&vec![]);
    assert!(gym.discrete_envs().is_empty());
    assert!(gym.continuous_envs().is_empty());
}

#[test]
fn gym_later_rom_takes_over_a_name() {
    let gym = Gym::new(&vec![rom("a_b", "/first"), rom("a-b", "/second")]);
    assert_eq!(gym.discrete_envs().len(), 2);
    assert_eq!(
        gym.discrete_env("atari-a-b-ram"),
        Some(EnvEntry { rom_path: "/second".to_string(), observation: Observation::Ram })
    );
}

#[test]
fn table_insert_then_get() {
    let mut table = EnvTable::new();
    assert!(table.names().is_empty());
    table.insert("x".to_string(), entry("/x", Observation::Ram));
    table.insert("y".to_string(), entry("/y", Observation::Rgb));
    assert_eq!(table.get("x"), Some(entry("/x", Observation::Ram)));
    assert_eq!(table.get("y"), Some(entry("/y", Observation::Rgb)));
    assert_eq!(table.get("z"), None);
    assert_eq!(table.names(), vec!["x".to_string(), "y".to_string()]);
    table.insert("x".to_string(), entry("/z", Observation::Ram));
    assert_eq!(table.get("x"), Some(entry("/z", Observation::Ram)));
    assert_eq!(table.get("y"), Some(entry("/y", Observation::Rgb)));
    assert_eq!(table.names(), vec!["x".to_string(), "y".to_string()]);
}
