# gyms

Reinforcement-learning environments and action spaces, with the logic verified
by Verus.

- `src/` — the verified library:
  - `atari`: sizes of the emulator's screen buffers and the in-place
    expansion of a 24-bit screen image into 32-bit pixels;
  - `action_space`: discrete action spaces, turning random draws into actions;
  - `easy_env`: two small environments whose reward peaks at the cell that
    mirrors the state;
  - `gym`: the table of environments by name that the Atari ROMs fill.
- `app/` — what talks to the emulator's C library, to the file system, or
  computes with floating point: the emulator bindings, the Atari environments,
  the `GymEnv` and `ActionSpaceTrait` interfaces and the continuous action
  spaces.
- `tests/` — tests of the library on concrete values.
