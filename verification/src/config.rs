//! Well-known paths under the per-user configuration directory.
//!
//! The configuration directory itself comes from the environment, which the
//! library does not read; callers pass its path in and get the derived paths
//! back as plain strings.

use vstd::prelude::*;

verus! {

/// The profile directory under a configuration directory.
pub open spec fn spec_profile_dir(config_dir: Seq<char>) -> Seq<char> {
    config_dir + "/hyprpier"@
}

/// The binding-record file path under a configuration directory.
pub open spec fn spec_metadata_path(config_dir: Seq<char>) -> Seq<char> {
    spec_profile_dir(config_dir) + "/.metadata.json"@
}

/// The compositor monitor-configuration output path.
pub open spec fn spec_hyprland_monitors_conf(config_dir: Seq<char>) -> Seq<char> {
    config_dir + "/hypr/monitors.conf"@
}

/// The file path of the named profile.
pub open spec fn spec_profile_path(config_dir: Seq<char>, name: Seq<char>) -> Seq<char> {
    spec_profile_dir(config_dir) + "/"@ + name + ".json"@
}

/// Get the profile directory (`<config>/hyprpier`).
pub fn profile_dir(config_dir: &str) -> (r: String)
    ensures
        r@ == spec_profile_dir(config_dir@),
{
    String::from_str(config_dir).concat("/hyprpier")
}

/// Get the binding-record file path (`<config>/hyprpier/.metadata.json`).
pub fn metadata_path(config_dir: &str) -> (r: String)
    ensures
        r@ == spec_metadata_path(config_dir@),
{
    profile_dir(config_dir).concat("/.metadata.json")
}

/// Get the compositor monitor-configuration path (`<config>/hypr/monitors.conf`).
pub fn hyprland_monitors_conf(config_dir: &str) -> (r: String)
    ensures
        r@ == spec_hyprland_monitors_conf(config_dir@),
{
    String::from_str(config_dir).concat("/hypr/monitors.conf")
}

/// Get the file path for a specific profile (`<config>/hyprpier/<name>.json`).
pub fn profile_path(config_dir: &str, name: &str) -> (r: String)
    ensures
        r@ == spec_profile_path(config_dir@, name@),
{
    let r = profile_dir(config_dir).concat("/").concat(name).concat(".json");
    assert(r@ =~= spec_profile_path(config_dir@, name@));
    r
}

} // verus!
