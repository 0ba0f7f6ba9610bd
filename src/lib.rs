//! Assigns participants to rooms of two, honouring their lists of preferred
//! and unpreferred partners, by sampling randomized greedy pairings and
//! keeping the best one.

pub mod config;
pub mod constraints;
pub mod matcher;
mod random;
pub mod selector;
pub mod timing;

pub use config::{read_config, Config, ConfigValue};
pub use constraints::{Constraints, Entry};
pub use timing::{display_duration, TimeUnit};
pub use matcher::{find_solutions, solve, MatchKind, PairingError, Solution};
pub use selector::select_best;
