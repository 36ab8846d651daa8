pub mod env;
pub mod features;
pub mod runtime;
pub mod saved_settings;
