//! Resolution of a set of configuration documents into the configuration in
//! force: documents form trees through their `parent` reference, each tree
//! is merged into its root rule by rule, and the default rules are folded
//! into every other root.

pub mod config;
pub mod config_set;
pub mod rules;

pub use config::{BackendType, Configs, KeyModifier};
pub use config_set::{ConfigIndex, ConfigLoadError, ConfigManager, ConfigSet};
pub use rules::Match;
