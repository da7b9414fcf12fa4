//! The cache of image counts and the configuration keys.

pub mod cache_save_load;
pub mod config_parse;
