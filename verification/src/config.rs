use vstd::prelude::*;

use crate::paths::{home_dir_string, home_text, valid_home};

verus! {

/// The editor's settings.
pub struct Config {
    /// Where a new, unnamed buffer is saved.
    pub default_save_directory: String,
    /// Spaces per indentation level.
    pub tab_size: usize,
    /// Whether Tab inserts spaces (else a raw tab character).
    pub expand_tabs: bool,
}

impl Default for Config {
    /// The settings used when the configuration file says nothing: the home
    /// directory, four columns per tab, tabs expanded to spaces.
    fn default() -> (r: Self)
        ensures
            r.tab_size == 4,
            r.expand_tabs,
            exists|home: Option<Seq<u8>>| valid_home(home) && r.default_save_directory@ == home_text(home),
            r.default_save_directory@.len() > 0,
    {
        Config { default_save_directory: home_dir_string(), tab_size: 4, expand_tabs: true }
    }
}

/// One setting as read from the configuration file.
pub enum Setting<T> {
    /// The key is not there.
    Missing,
    /// The key is there with a value of the right type.
    Given(T),
    /// The key is there with a value of another type.
    Malformed,
}

/// The settings that a configuration file holds, key by key.
pub struct ConfigFile {
    pub default_save_directory: Setting<String>,
    pub tab_size: Setting<usize>,
    pub expand_tabs: Setting<bool>,
}

/// The value a setting gives, or `default` when it is not given.
pub open spec fn setting_or<T>(s: Setting<T>, default: T) -> T {
    match s {
        Setting::Given(v) => v,
        _ => default,
    }
}

/// A key the file gives wins over its default; a missing key, or one of
/// another type, leaves the default.
pub proof fn lemma_setting_wins_when_given<T>(v: T, default: T)
    ensures
        setting_or(Setting::Given(v), default) == v,
        setting_or(Setting::<T>::Missing, default) == default,
        setting_or(Setting::<T>::Malformed, default) == default,
{
}

/// Whether every key of the file that is present has a value of its type.
pub open spec fn well_typed(f: ConfigFile) -> bool {
    &&& !(f.default_save_directory is Malformed)
    &&& !(f.tab_size is Malformed)
    &&& !(f.expand_tabs is Malformed)
}

/// Whether `r` is `defaults`, field by field.
pub open spec fn same_config(r: Config, defaults: Config) -> bool {
    &&& r.default_save_directory@ == defaults.default_save_directory@
    &&& r.tab_size == defaults.tab_size
    &&& r.expand_tabs == defaults.expand_tabs
}

/// The settings in force: each key that the file gives overrides its
/// default, a missing key keeps it; a file that is no JSON object, or that
/// gives a key a value of another type, is ignored as a whole.
pub fn merge_config(file: Option<ConfigFile>, defaults: Config) -> (r: Config)
    ensures
        match file {
            None => same_config(r, defaults),
            Some(f) => if well_typed(f) {
                &&& r.default_save_directory@ == setting_or(
                    f.default_save_directory,
                    defaults.default_save_directory,
                )@
                &&& r.tab_size == setting_or(f.tab_size, defaults.tab_size)
                &&& r.expand_tabs == setting_or(f.expand_tabs, defaults.expand_tabs)
            } else {
                same_config(r, defaults)
            },
        },
{
    match file {
        None => defaults,
        Some(f) => {
            let ok = !matches!(f.default_save_directory, Setting::Malformed) && !matches!(
                f.tab_size,
                Setting::Malformed
            ) && !matches!(f.expand_tabs, Setting::Malformed);
            if !ok {
                return defaults;
            }
            let dir = match f.default_save_directory {
                Setting::Given(d) => d,
                _ => defaults.default_save_directory,
            };
            let tab = match f.tab_size {
                Setting::Given(t) => t,
                _ => defaults.tab_size,
            };
            let expand = match f.expand_tabs {
                Setting::Given(e) => e,
                _ => defaults.expand_tabs,
            };
            Config { default_save_directory: dir, tab_size: tab, expand_tabs: expand }
        },
    }
}

} // verus!
