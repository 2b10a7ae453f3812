//! The configuration the interactive core reads: where definitions and
//! environments live, where the history log sits and how large it may
//! grow, the dispatch timeouts, and the optional color overrides.

use vstd::prelude::*;

verus! {

/// Colors the user may override, kept as the strings of the
/// configuration file; resolving them to terminal colors happens outside
/// this core.
pub struct CustomColors {
    pub default_fg: Option<String>,
    pub default_bg: Option<String>,
    pub selected_fg: Option<String>,
    pub selected_bg: Option<String>,
    pub prompt_fg: Option<String>,
    pub prompt_bg: Option<String>,
    pub variable_fg: Option<String>,
    pub variable_bg: Option<String>,
}

/// The program's configuration.
pub struct Config {
    pub request_definition_directory: String,
    pub environment_directory: String,
    pub history_file: String,
    pub theme: Option<String>,
    pub connect_timeout_seconds: Option<u64>,
    pub read_timeout_seconds: Option<u64>,
    pub timeout_seconds: Option<u64>,
    pub max_history_items: Option<u64>,
    pub colors: Option<CustomColors>,
}

impl Default for Config {
    /// The configuration used when no configuration file exists.
    fn default() -> (config: Config)
        ensures
            config.request_definition_directory@ == "~/rhc/definitions"@,
            config.environment_directory@ == "~/rhc/environments"@,
            config.history_file@ == "~/.rhc_history"@,
            config.theme is None,
            config.connect_timeout_seconds is None,
            config.read_timeout_seconds is None,
            config.timeout_seconds is None,
            config.max_history_items is None,
            config.colors is None,
    {
        Config {
            request_definition_directory: "~/rhc/definitions".to_owned(),
            environment_directory: "~/rhc/environments".to_owned(),
            history_file: "~/.rhc_history".to_owned(),
            theme: None,
            connect_timeout_seconds: None,
            read_timeout_seconds: None,
            timeout_seconds: None,
            max_history_items: None,
            colors: None,
        }
    }
}

} // verus!
