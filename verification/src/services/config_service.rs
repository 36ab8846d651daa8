//! Where the application keeps its settings.

use vstd::prelude::*;

verus! {

/// The settings store; reading and writing it is done by the application.
#[derive(Debug, Clone, Copy)]
pub struct ConfigService;

impl ConfigService {
    /// The settings store.
    pub fn new() -> (r: ConfigService)
        ensures
            r == ConfigService,
    {
        ConfigService
    }

    /// The storage key under which the full configuration is kept.
    pub fn storage_key() -> (r: &'static str)
        ensures
            r@ == "app_config"@,
    {
        "app_config"
    }
}

} // verus!
