//! The launcher's settings: which colour scheme to use.

use vstd::prelude::*;

use crate::path::join_path;
use crate::text::str_eq;

verus! {

/// The colour scheme the application asks the platform style manager for.
#[derive(Debug, Clone, Copy, PartialEq, Eq, Structural)]
pub enum ColorScheme {
    /// Follow the system preference.
    Default,
    ForceLight,
    ForceDark,
}

/// The launcher's settings.
pub struct Config {
    /// `"system"`, `"light"` or `"dark"`.
    pub theme: String,
}

/// The colour scheme a theme name selects: `"light"` and `"dark"` force that scheme, any
/// other name follows the system.
pub open spec fn scheme_for(theme: Seq<char>) -> ColorScheme {
    if theme == "light"@ {
        ColorScheme::ForceLight
    } else if theme == "dark"@ {
        ColorScheme::ForceDark
    } else {
        ColorScheme::Default
    }
}

impl Default for Config {
    /// Follow the system colour scheme.
    fn default() -> (c: Config)
        ensures
            c.theme@ == "system"@,
    {
        Config { theme: "system".to_owned() }
    }
}

impl Config {
    /// The colour scheme this configuration selects.
    pub fn color_scheme(&self) -> (s: ColorScheme)
        ensures
            s == scheme_for(self.theme@),
    {
        let theme = self.theme.as_str();
        if str_eq(theme, "light") {
            ColorScheme::ForceLight
        } else if str_eq(theme, "dark") {
            ColorScheme::ForceDark
        } else {
            ColorScheme::Default
        }
    }
}

/// The directory the settings are kept in, under the user configuration directory.
pub fn config_dir(user_config_dir: &str) -> (p: String)
    ensures
        p@ == crate::path::joined(user_config_dir@, "pereplyot"@),
{
    join_path(user_config_dir, "pereplyot")
}

/// Where the settings are kept, under the user configuration directory.
pub fn config_path(user_config_dir: &str) -> (p: String)
    ensures
        p@ == crate::path::joined(crate::path::joined(user_config_dir@, "pereplyot"@), "config.json"@),
{
    let dir = config_dir(user_config_dir);
    join_path(dir.as_str(), "config.json")
}

} // verus!
