//! User settings.
//!
//! Plain configuration values with their defaults. Reading and writing
//! the settings file is the surrounding program's work; the types here
//! only carry the values and remember the path they belong to.

use vstd::prelude::*;
use vstd::string::StringExecFns;

verus! {

/// The language preference: a locale identifier as text.
#[derive(Debug, Clone, PartialEq, Eq)]
pub struct LanguageSetting {
    pub language: String,
}

impl Default for LanguageSetting {
    /// The default language preference.
    fn default() -> (r: LanguageSetting)
        ensures
            r.language@ == "en"@,
    {
        LanguageSetting { language: String::from_str("en") }
    }
}

/// Gameplay preferences: which script the game opens with.
#[derive(Debug, Clone, PartialEq, Eq)]
pub struct GameplaySetting {
    pub entry_point: String,
}

impl Default for GameplaySetting {
    /// The default entry script name.
    fn default() -> (r: GameplaySetting)
        ensures
            r.entry_point@ == "prologue"@,
    {
        GameplaySetting { entry_point: String::from_str("prologue") }
    }
}

/// All user settings, and the path they are persisted under.
#[derive(Debug, Clone, PartialEq, Eq)]
pub struct Setting {
    pub language: LanguageSetting,
    pub gameplay: GameplaySetting,
    pub path: String,
}

impl Setting {
    /// Where settings rest unless another path is chosen.
    pub const DEFAULT_SETTINGS_PATH: &'static str = "settings.cfg";

    /// Fresh settings with every default value, persisted under `path`.
    pub fn new(path: &str) -> (r: Setting)
        ensures
            r.language.language@ == "en"@,
            r.gameplay.entry_point@ == "prologue"@,
            r.path@ == path@,
    {
        Setting {
            language: LanguageSetting::default(),
            gameplay: GameplaySetting::default(),
            path: String::from_str(path),
        }
    }
}

impl Default for Setting {
    /// Fresh settings under the default path.
    fn default() -> (r: Setting)
        ensures
            r.language.language@ == "en"@,
            r.gameplay.entry_point@ == "prologue"@,
            r.path@ == Setting::DEFAULT_SETTINGS_PATH@,
    {
        Setting::new(Setting::DEFAULT_SETTINGS_PATH)
    }
}

} // verus!
