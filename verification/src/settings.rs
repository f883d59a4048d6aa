//! The settings of one run: where the two files are, and under which key the
//! command line keeps its credential. They are read once and handed to what
//! needs them.

use vstd::prelude::*;
use vstd::string::*;

verus! {

/// The names of the files and of the credential key.
#[derive(Debug)]
pub struct AppSettings {
    pub profiles_filename: String,
    pub cli_config_dir_from_home: String,
    pub cli_config_filename: String,
    pub cli_token_key: String,
}

impl Default for AppSettings {
    /// The settings of a fresh installation.
    fn default() -> (settings: AppSettings)
        ensures
            settings.profiles_filename@ == "profiles.toml"@,
            settings.cli_config_dir_from_home@ == ".config/spacetime"@,
            settings.cli_config_filename@ == "cli.toml"@,
            settings.cli_token_key@ == "spacetimedb_token"@,
    {
        AppSettings {
            profiles_filename: String::from_str("profiles.toml"),
            cli_config_dir_from_home: String::from_str(".config/spacetime"),
            cli_config_filename: String::from_str("cli.toml"),
            cli_token_key: String::from_str("spacetimedb_token"),
        }
    }
}

} // verus!
