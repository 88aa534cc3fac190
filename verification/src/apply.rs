//! The decision engine: translate "what hardware is present and what is
//! bound" into "what should be active".
//!
//! `resolve_target` inspects the binding record and the connected docks and
//! returns a decision; it never writes.  The caller performs the outside
//! work a switch asks for (rewriting and pushing the compositor
//! configuration, notifying the user) and then records the switch with
//! `apply_profile`.  Because a target equal to the recorded active profile
//! resolves to `AlreadyActive`, repeated or bursty triggers collapse into at
//! most one visible state transition.

use vstd::prelude::*;

use crate::dock::{devs_view, DeviceV, ThunderboltDevice};
use crate::metadata::{spec_lookup, Metadata, MetadataV};
use crate::strutil::str_eq;

verus! {

/// What should happen now, resolved from bindings and connected docks.
#[derive(Debug, PartialEq, Eq)]
pub enum Decision {
    /// The target profile is already the recorded active profile: do
    /// nothing at all (no write, no notification).
    AlreadyActive,
    /// Switch to the profile bound to the connected dock at `dock_index`
    /// (an index into the dock list handed to `resolve_target`).
    SwitchToDock { dock_index: usize, target: String },
    /// No connected dock has a binding: switch to the undocked fallback.
    SwitchToUndocked { target: String },
    /// No dock has a binding and no undocked fallback is configured: a
    /// legitimate terminal outcome, reported for diagnostics only.
    NoTarget,
}

/// Mathematical model of a `Decision`.
pub ghost enum DecisionV {
    AlreadyActive,
    SwitchToDock { dock_index: int, target: Seq<char> },
    SwitchToUndocked { target: Seq<char> },
    NoTarget,
}

impl View for Decision {
    type V = DecisionV;

    open spec fn view(&self) -> DecisionV {
        match self {
            Decision::AlreadyActive => DecisionV::AlreadyActive,
            Decision::SwitchToDock { dock_index, target } => DecisionV::SwitchToDock {
                dock_index: *dock_index as int,
                target: target@,
            },
            Decision::SwitchToUndocked { target } => DecisionV::SwitchToUndocked {
                target: target@,
            },
            Decision::NoTarget => DecisionV::NoTarget,
        }
    }
}

/// The first connected dock (in list order) that has a binding, with the
/// bound profile name.
pub open spec fn spec_first_bound(
    docks: Seq<DeviceV>,
    links: Seq<crate::metadata::DockBindingV>,
) -> Option<(int, Seq<char>)>
    decreases docks.len(),
{
    if docks.len() == 0 {
        Option::None
    } else {
        match spec_lookup(links, docks[0].uuid) {
            Option::Some(p) => Option::Some((0int, p)),
            Option::None => match spec_first_bound(docks.drop_first(), links) {
                Option::Some((i, p)) => Option::Some((i + 1, p)),
                Option::None => Option::None,
            },
        }
    }
}

/// The decision for a binding record and a list of connected docks: the
/// first bound dock wins; otherwise the undocked fallback; a target equal to
/// the recorded active profile short-circuits to `AlreadyActive`.
pub open spec fn spec_resolve(m: MetadataV, docks: Seq<DeviceV>) -> DecisionV {
    match spec_first_bound(docks, m.dock_profiles) {
        Option::Some((i, t)) => if m.active_profile == Option::Some(t) {
            DecisionV::AlreadyActive
        } else {
            DecisionV::SwitchToDock { dock_index: i, target: t }
        },
        Option::None => match m.undocked_profile {
            Option::Some(u) => if m.active_profile == Option::Some(u) {
                DecisionV::AlreadyActive
            } else {
                DecisionV::SwitchToUndocked { target: u }
            },
            Option::None => DecisionV::NoTarget,
        },
    }
}

spec fn shift_found(o: Option<(int, Seq<char>)>, k: int) -> Option<(int, Seq<char>)> {
    match o {
        Option::Some((i, p)) => Option::Some((i + k, p)),
        Option::None => Option::None,
    }
}

fn active_matches(m: &Metadata, name: &str) -> (r: bool)
    ensures
        r == (m@.active_profile == Option::Some(name@)),
{
    match &m.active_profile {
        Option::Some(a) => str_eq(a.as_str(), name),
        Option::None => false,
    }
}

/// Resolve what should be active right now.
///
/// `docks` is the list of connected docks in their deterministic sort order;
/// only the first dock with a binding is ever considered, even if several
/// bound docks are connected at once.  The record is only read.
pub fn resolve_target(m: &Metadata, docks: &Vec<ThunderboltDevice>) -> (d: Decision)
    ensures
        d@ == spec_resolve(m@, devs_view(docks@)),
{
    let ghost dv = devs_view(docks@);
    let ghost links = m@.dock_profiles;
    let n = docks.len();
    let mut i: usize = 0;
    proof {
        assert(dv.skip(0) =~= dv);
    }
    while i < n
        invariant
            i <= n,
            n == docks.len(),
            dv == devs_view(docks@),
            links == m@.dock_profiles,
            spec_first_bound(dv, links) == shift_found(
                spec_first_bound(dv.skip(i as int), links),
                i as int,
            ),
        decreases n - i,
    {
        proof {
            assert(dv.skip(i as int)[0] == dv[i as int]);
            assert(dv.skip(i as int).drop_first() =~= dv.skip(i + 1));
        }
        match m.get_dock_profile(docks[i].uuid.as_str()) {
            Option::Some(p) => {
                let target = String::from_str(p.as_str());
                if active_matches(m, target.as_str()) {
                    return Decision::AlreadyActive;
                }
                return Decision::SwitchToDock { dock_index: i, target };
            },
            Option::None => {},
        }
        i += 1;
    }
    proof {
        assert(dv.skip(n as int) =~= Seq::<DeviceV>::empty());
    }
    match &m.undocked_profile {
        Option::Some(u) => {
            let target = String::from_str(u.as_str());
            if active_matches(m, target.as_str()) {
                Decision::AlreadyActive
            } else {
                Decision::SwitchToUndocked { target }
            }
        },
        Option::None => Decision::NoTarget,
    }
}

/// Record that the named profile has been applied: set it active and stamp
/// the record.  The caller persists the record afterwards.
pub fn apply_profile(m: &mut Metadata, name: &str, now: u64)
    ensures
        final(m)@ == (MetadataV {
            active_profile: Option::Some(name@),
            last_modified: Option::Some(now),
            ..old(m)@
        }),
{
    m.set_active(Option::Some(String::from_str(name)), now);
}

/// With no connected docks, an undocked fallback that is already the active
/// profile resolves to `AlreadyActive`: the engine performs no write and no
/// notification, and still reports success.
pub proof fn lemma_short_circuit_no_docks(m: MetadataV, docks: Seq<DeviceV>)
    requires
        docks.len() == 0,
        m.undocked_profile is Some,
        m.active_profile == m.undocked_profile,
    ensures
        spec_resolve(m, docks) == DecisionV::AlreadyActive,
{
}

/// Resolving is idempotent: once a resolved switch has been recorded (the
/// target set active, bindings and fallback unchanged), resolving again with
/// unchanged hardware decides `AlreadyActive` — a second, bursty trigger is
/// a harmless no-op.
pub proof fn lemma_resolve_idempotent(
    m1: MetadataV,
    m2: MetadataV,
    docks: Seq<DeviceV>,
    target: Seq<char>,
)
    requires
        match spec_resolve(m1, docks) {
            DecisionV::SwitchToDock { dock_index, target: t } => t == target,
            DecisionV::SwitchToUndocked { target: t } => t == target,
            _ => false,
        },
        m2.active_profile == Option::Some(target),
        m2.dock_profiles == m1.dock_profiles,
        m2.undocked_profile == m1.undocked_profile,
    ensures
        spec_resolve(m2, docks) == DecisionV::AlreadyActive,
{
}

} // verus!
