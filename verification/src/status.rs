//! Status summaries over the stores: one row per profile, and the one-line
//! status of the current state.

use vstd::prelude::*;

use crate::dock::{devs_view, ThunderboltDevice};
use crate::metadata::{spec_reverse_lookup, Metadata};
use crate::profile::Profile;
use crate::strutil::str_eq;

verus! {

/// One profile's row in a listing: its stored facts and how it relates to
/// the binding record.
#[derive(Debug, PartialEq, Eq)]
pub struct ProfileInfo {
    pub name: String,
    /// The stored description, empty where there is none or the profile
    /// could not be loaded.
    pub description: String,
    pub monitor_count: usize,
    pub is_active: bool,
    /// The identity of the first dock bound to this profile, if any.
    pub dock_uuid: Option<String>,
    pub is_undocked: bool,
    /// Whether the stored document could not be loaded.
    pub load_error: bool,
}

/// Build one profile's row.  `profile` is the loaded document, or `None`
/// where loading failed.
pub fn profile_info(name: &String, profile: Option<&Profile>, m: &Metadata) -> (r: ProfileInfo)
    ensures
        r.name@ == name@,
        r.description@ == match profile {
            Option::Some(p) => match p@.description {
                Option::Some(d) => d,
                Option::None => Seq::<char>::empty(),
            },
            Option::None => Seq::<char>::empty(),
        },
        r.monitor_count as int == match profile {
            Option::Some(p) => p@.monitors.len() as int,
            Option::None => 0int,
        },
        r.is_active == (m@.active_profile == Option::Some(name@)),
        match r.dock_uuid {
            Option::Some(u) => spec_reverse_lookup(m@.dock_profiles, name@) == Option::Some(u@),
            Option::None => spec_reverse_lookup(m@.dock_profiles, name@) is None,
        },
        r.is_undocked == (m@.undocked_profile == Option::Some(name@)),
        r.load_error == (profile is None),
{
    let description = match profile {
        Option::Some(p) => match &p.description {
            Option::Some(d) => String::from_str(d.as_str()),
            Option::None => String::new(),
        },
        Option::None => String::new(),
    };
    let monitor_count = match profile {
        Option::Some(p) => p.monitors.len(),
        Option::None => 0,
    };
    let is_active = match &m.active_profile {
        Option::Some(a) => str_eq(a.as_str(), name.as_str()),
        Option::None => false,
    };
    let dock_uuid = match m.get_profile_dock(name.as_str()) {
        Option::Some(u) => Option::Some(String::from_str(u.as_str())),
        Option::None => Option::None,
    };
    let is_undocked = match &m.undocked_profile {
        Option::Some(u) => str_eq(u.as_str(), name.as_str()),
        Option::None => false,
    };
    ProfileInfo {
        name: String::from_str(name.as_str()),
        description,
        monitor_count,
        is_active,
        dock_uuid,
        is_undocked,
        load_error: match profile {
            Option::Some(_) => false,
            Option::None => true,
        },
    }
}

/// The one-line status: the active profile and the first connected dock,
/// joined with a separator; a fixed message when there is neither.
pub fn build_status_line(m: &Metadata, docks: &Vec<ThunderboltDevice>) -> (r: String)
    ensures
        r@ == match m@.active_profile {
            Option::Some(a) => if devs_view(docks@).len() > 0 {
                "Active: "@ + a + "  |  "@ + "Dock: "@ + devs_view(docks@)[0].name
            } else {
                "Active: "@ + a
            },
            Option::None => if devs_view(docks@).len() > 0 {
                "Dock: "@ + devs_view(docks@)[0].name
            } else {
                "No active profile"@
            },
        },
{
    match &m.active_profile {
        Option::Some(a) => {
            if docks.len() > 0 {
                let r = String::from_str("Active: ").concat(a.as_str()).concat(
                    "  |  ",
                ).concat("Dock: ").concat(docks[0].name.as_str());
                proof {
                    assert(r@ =~= "Active: "@ + m@.active_profile->Some_0 + "  |  "@ + "Dock: "@
                        + devs_view(docks@)[0].name);
                }
                r
            } else {
                let r = String::from_str("Active: ").concat(a.as_str());
                r
            }
        },
        Option::None => {
            if docks.len() > 0 {
                let r = String::from_str("Dock: ").concat(docks[0].name.as_str());
                r
            } else {
                String::from_str("No active profile")
            }
        },
    }
}

} // verus!
