//! Where the manager keeps its files, and what the user configured.
use vstd::prelude::*;

verus! {

/// The locations of the configuration file and of the data directory that
/// holds `catalog.sqlite` and `cuesheets.sqlite`.
pub struct StorageLocations {
    pub config_path: String,
    pub default_data_path: String,
}

/// The user's settings.
pub struct Settings {
    /// Where sorted game dumps are kept.
    pub game_location: String,
}

} // verus!
