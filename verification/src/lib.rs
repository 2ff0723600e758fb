//! Reinforcement-learning environments and action spaces: the arithmetic of
//! Atari screen buffers, discrete action spaces, two small "name the mirrored
//! cell" environments, and the registry of environments by name.

pub mod action_space;
pub mod atari;
pub mod easy_env;
pub mod gym;
mod random;
