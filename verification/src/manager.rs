//! Profile-path bookkeeping for a configuration store. Where the profile
//! files live and how a profile name maps to a path is decided here; reading
//! and writing them is the caller's filesystem work.

use vstd::prelude::*;
use crate::path::{spec_join, join_path};
use crate::text::eq_str;

verus! {

/// Maps profile names to the files that hold them.
pub struct ConfigManager {
    pub config_dir: String,
    pub default_config_path: String,
}

/// The file that holds a profile: the default file for the default profile,
/// and `<name>.json` in the configuration directory otherwise.
pub open spec fn spec_profile_path(m: ConfigManager, profile: Seq<char>) -> Seq<char> {
    if profile == "default"@ {
        m.default_config_path@
    } else {
        spec_join(m.config_dir@, profile + ".json"@)
    }
}

impl ConfigManager {
    /// A manager over a configuration directory and its default file.
    pub fn from_dir(config_dir: String, default_config_path: String) -> (r: Self)
        ensures
            r.config_dir@ == config_dir@,
            r.default_config_path@ == default_config_path@,
    {
        Self { config_dir, default_config_path }
    }

    /// The file that holds the named profile.
    pub fn get_profile_path(&self, profile: &str) -> (r: String)
        ensures
            r@ == spec_profile_path(*self, profile@),
    {
        if eq_str(profile, "default") {
            self.default_config_path.clone()
        } else {
            let file = profile.to_owned().concat(".json");
            join_path(self.config_dir.as_str(), file.as_str())
        }
    }

    /// The configuration directory.
    pub fn get_config_dir(&self) -> (r: &str)
        ensures
            r@ == self.config_dir@,
    {
        self.config_dir.as_str()
    }
}

} // verus!
