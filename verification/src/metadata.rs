//! The binding record: which dock identity is bound to which profile, which
//! profile is the undocked fallback, and which profile is currently active.
//!
//! The record is a singleton document.  Mutators work on an in-memory record
//! and the caller re-saves it; every mutation stamps `last_modified` with the
//! caller's clock value.  Dock bindings are kept as an explicit vector so
//! that every lookup has a deterministic, first-match order.

use vstd::prelude::*;

use crate::strutil::str_eq;

verus! {

/// One persisted association between a dock identity and a profile name.
#[derive(Clone, Debug, PartialEq, Eq)]
pub struct DockBinding {
    pub uuid: String,
    pub profile: String,
}

/// Mathematical model of a `DockBinding`.
pub ghost struct DockBindingV {
    pub uuid: Seq<char>,
    pub profile: Seq<char>,
}

impl View for DockBinding {
    type V = DockBindingV;

    open spec fn view(&self) -> DockBindingV {
        DockBindingV { uuid: self.uuid@, profile: self.profile@ }
    }
}

/// The singleton binding record.
#[derive(Clone, Debug, PartialEq, Eq)]
pub struct Metadata {
    pub active_profile: Option<String>,
    /// Seconds since the Unix epoch at the last mutation.
    pub last_modified: Option<u64>,
    pub dock_profiles: Vec<DockBinding>,
    pub undocked_profile: Option<String>,
}

/// Mathematical model of a `Metadata`.
pub ghost struct MetadataV {
    pub active_profile: Option<Seq<char>>,
    pub last_modified: Option<u64>,
    pub dock_profiles: Seq<DockBindingV>,
    pub undocked_profile: Option<Seq<char>>,
}

pub open spec fn links_view(s: Seq<DockBinding>) -> Seq<DockBindingV> {
    Seq::new(s.len(), |i: int| s[i]@)
}

impl View for Metadata {
    type V = MetadataV;

    open spec fn view(&self) -> MetadataV {
        MetadataV {
            active_profile: crate::profile::opt_str_view(self.active_profile),
            last_modified: self.last_modified,
            dock_profiles: links_view(self.dock_profiles@),
            undocked_profile: crate::profile::opt_str_view(self.undocked_profile),
        }
    }
}

/// The profile bound to the first binding whose identity matches, if any.
pub open spec fn spec_lookup(links: Seq<DockBindingV>, uuid: Seq<char>) -> Option<Seq<char>>
    decreases links.len(),
{
    if links.len() == 0 {
        Option::None
    } else if links[0].uuid == uuid {
        Option::Some(links[0].profile)
    } else {
        spec_lookup(links.drop_first(), uuid)
    }
}

/// The identity of the first binding to the given profile, if any.
pub open spec fn spec_reverse_lookup(links: Seq<DockBindingV>, profile: Seq<char>) -> Option<
    Seq<char>,
>
    decreases links.len(),
{
    if links.len() == 0 {
        Option::None
    } else if links[0].profile == profile {
        Option::Some(links[0].uuid)
    } else {
        spec_reverse_lookup(links.drop_first(), profile)
    }
}

/// Bindings after an upsert: the first binding with the identity is replaced
/// in place, or a new binding is appended.
pub open spec fn spec_upsert(
    links: Seq<DockBindingV>,
    uuid: Seq<char>,
    profile: Seq<char>,
) -> Seq<DockBindingV>
    decreases links.len(),
{
    if links.len() == 0 {
        seq![DockBindingV { uuid, profile }]
    } else if links[0].uuid == uuid {
        seq![DockBindingV { uuid, profile }] + links.drop_first()
    } else {
        seq![links[0]] + spec_upsert(links.drop_first(), uuid, profile)
    }
}

/// Bindings after removing the first binding with the identity, if present.
pub open spec fn spec_unlink(links: Seq<DockBindingV>, uuid: Seq<char>) -> Seq<DockBindingV>
    decreases links.len(),
{
    if links.len() == 0 {
        links
    } else if links[0].uuid == uuid {
        links.drop_first()
    } else {
        seq![links[0]] + spec_unlink(links.drop_first(), uuid)
    }
}

/// Well-formed bindings: each dock identity occurs at most once.
pub open spec fn links_wf(links: Seq<DockBindingV>) -> bool {
    forall|i: int, j: int|
        0 <= i < j < links.len() ==> (#[trigger] links[i]).uuid != (#[trigger] links[j]).uuid
}

impl MetadataV {
    /// Well-formed record: dock identities are unique.
    pub open spec fn wf(self) -> bool {
        links_wf(self.dock_profiles)
    }
}

fn upsert_links(v: Vec<DockBinding>, uuid: &str, profile: &str) -> (r: Vec<DockBinding>)
    ensures
        links_view(r@) == spec_upsert(links_view(v@), uuid@, profile@),
    decreases v@.len(),
{
    let ghost orig = links_view(v@);
    let mut v = v;
    if v.len() == 0 {
        v.push(DockBinding { uuid: String::from_str(uuid), profile: String::from_str(profile) });
        assert(links_view(v@) =~= spec_upsert(orig, uuid@, profile@));
        v
    } else {
        let head = v.remove(0);
        let ghost rest = links_view(v@);
        proof {
            assert(orig[0] == head@);
            assert(orig.drop_first() =~= rest);
        }
        if str_eq(head.uuid.as_str(), uuid) {
            let mut r = v;
            r.insert(
                0,
                DockBinding { uuid: String::from_str(uuid), profile: String::from_str(profile) },
            );
            assert(links_view(r@) =~= seq![
                DockBindingV { uuid: uuid@, profile: profile@ },
            ] + rest);
            r
        } else {
            let mut r = upsert_links(v, uuid, profile);
            r.insert(0, head);
            assert(links_view(r@) =~= seq![head@] + spec_upsert(rest, uuid@, profile@));
            r
        }
    }
}

fn unlink_links(v: Vec<DockBinding>, uuid: &str) -> (r: Vec<DockBinding>)
    ensures
        links_view(r@) == spec_unlink(links_view(v@), uuid@),
    decreases v@.len(),
{
    let ghost orig = links_view(v@);
    let mut v = v;
    if v.len() == 0 {
        v
    } else {
        let head = v.remove(0);
        let ghost rest = links_view(v@);
        proof {
            assert(orig[0] == head@);
            assert(orig.drop_first() =~= rest);
        }
        if str_eq(head.uuid.as_str(), uuid) {
            v
        } else {
            let mut r = unlink_links(v, uuid);
            r.insert(0, head);
            assert(links_view(r@) =~= seq![head@] + spec_unlink(rest, uuid@));
            r
        }
    }
}

/// An upsert keeps dock identities unique.
pub proof fn lemma_upsert_wf(links: Seq<DockBindingV>, uuid: Seq<char>, profile: Seq<char>)
    requires
        links_wf(links),
    ensures
        links_wf(spec_upsert(links, uuid, profile)),
        spec_lookup(spec_upsert(links, uuid, profile), uuid) == Option::Some(profile),
    decreases links.len(),
{
    if links.len() == 0 {
    } else if links[0].uuid == uuid {
        let r = seq![DockBindingV { uuid, profile }] + links.drop_first();
        assert forall|i: int, j: int| 0 <= i < j < r.len() implies (#[trigger] r[i]).uuid != (
        #[trigger] r[j]).uuid by {
            assert(links[0].uuid == uuid);
            if i == 0 {
                assert(r[j] == links[j]);
                assert(links[0].uuid != links[j].uuid);
            } else {
                assert(r[i] == links[i] && r[j] == links[j]);
            }
        }
    } else {
        let rest = links.drop_first();
        assert(links_wf(rest)) by {
            assert forall|i: int, j: int| 0 <= i < j < rest.len() implies (
            #[trigger] rest[i]).uuid != (#[trigger] rest[j]).uuid by {
                assert(rest[i] == links[i + 1] && rest[j] == links[j + 1]);
            }
        }
        lemma_upsert_wf(rest, uuid, profile);
        lemma_upsert_no_new_uuid(rest, uuid, profile, links[0].uuid);
        let r = seq![links[0]] + spec_upsert(rest, uuid, profile);
        let sub = spec_upsert(rest, uuid, profile);
        assert forall|i: int, j: int| 0 <= i < j < r.len() implies (#[trigger] r[i]).uuid != (
        #[trigger] r[j]).uuid by {
            if i == 0 {
                assert(r[j] == sub[j - 1]);
            } else {
                assert(r[i] == sub[i - 1] && r[j] == sub[j - 1]);
            }
        }
        assert(r.drop_first() =~= sub);
    }
}

/// Every identity in an upserted sequence was there before or is the one
/// upserted.
proof fn lemma_upsert_no_new_uuid(
    links: Seq<DockBindingV>,
    uuid: Seq<char>,
    profile: Seq<char>,
    other: Seq<char>,
)
    requires
        other != uuid,
        forall|i: int| 0 <= i < links.len() ==> (#[trigger] links[i]).uuid != other,
    ensures
        forall|i: int|
            0 <= i < spec_upsert(links, uuid, profile).len() ==> (#[trigger] spec_upsert(
                links,
                uuid,
                profile,
            )[i]).uuid != other,
    decreases links.len(),
{
    if links.len() == 0 {
    } else if links[0].uuid == uuid {
        let r = seq![DockBindingV { uuid, profile }] + links.drop_first();
        assert forall|i: int| 0 <= i < r.len() implies (#[trigger] r[i]).uuid != other by {
            if i > 0 {
                assert(r[i] == links[i]);
            }
        }
    } else {
        let rest = links.drop_first();
        assert(forall|i: int| 0 <= i < rest.len() ==> (#[trigger] rest[i]).uuid == links[i
            + 1].uuid);
        lemma_upsert_no_new_uuid(rest, uuid, profile, other);
        let sub = spec_upsert(rest, uuid, profile);
        let r = seq![links[0]] + sub;
        assert forall|i: int| 0 <= i < r.len() implies (#[trigger] r[i]).uuid != other by {
            if i > 0 {
                assert(r[i] == sub[i - 1]);
            }
        }
    }
}

/// Removal keeps dock identities unique, and the removed identity no longer
/// resolves.
pub proof fn lemma_unlink_wf(links: Seq<DockBindingV>, uuid: Seq<char>)
    requires
        links_wf(links),
    ensures
        links_wf(spec_unlink(links, uuid)),
        spec_lookup(spec_unlink(links, uuid), uuid) is None,
    decreases links.len(),
{
    if links.len() == 0 {
    } else {
        let rest = links.drop_first();
        assert(links_wf(rest)) by {
            assert forall|i: int, j: int| 0 <= i < j < rest.len() implies (
            #[trigger] rest[i]).uuid != (#[trigger] rest[j]).uuid by {
                assert(rest[i] == links[i + 1] && rest[j] == links[j + 1]);
            }
        }
        if links[0].uuid == uuid {
            assert forall|i: int| 0 <= i < rest.len() implies (#[trigger] rest[i]).uuid
                != uuid by {
                assert(rest[i] == links[i + 1]);
                assert(links[0].uuid != links[i + 1].uuid);
            }
            lemma_lookup_absent(rest, uuid);
        } else {
            lemma_unlink_wf(rest, uuid);
            let sub = spec_unlink(rest, uuid);
            lemma_unlink_subset(rest, uuid);
            let r = seq![links[0]] + sub;
            assert forall|i: int, j: int| 0 <= i < j < r.len() implies (#[trigger] r[i]).uuid != (
            #[trigger] r[j]).uuid by {
                if i == 0 {
                    let k = choose|k: int| 0 <= k < rest.len() && rest[k] == sub[j - 1];
                    assert(links[0].uuid != links[k + 1].uuid);
                } else {
                    assert(r[i] == sub[i - 1] && r[j] == sub[j - 1]);
                }
            }
            assert(r.drop_first() =~= sub);
        }
    }
}

/// Every binding kept by a removal was among the bindings before it.
proof fn lemma_unlink_subset(links: Seq<DockBindingV>, uuid: Seq<char>)
    ensures
        forall|i: int|
            0 <= i < spec_unlink(links, uuid).len() ==> exists|k: int|
                0 <= k < links.len() && links[k] == #[trigger] spec_unlink(links, uuid)[i],
    decreases links.len(),
{
    if links.len() == 0 {
    } else if links[0].uuid == uuid {
        let r = links.drop_first();
        assert forall|i: int| 0 <= i < r.len() implies exists|k: int|
            0 <= k < links.len() && links[k] == #[trigger] r[i] by {
            assert(links[i + 1] == r[i]);
        }
    } else {
        let rest = links.drop_first();
        lemma_unlink_subset(rest, uuid);
        let sub = spec_unlink(rest, uuid);
        let r = seq![links[0]] + sub;
        assert forall|i: int| 0 <= i < r.len() implies exists|k: int|
            0 <= k < links.len() && links[k] == #[trigger] r[i] by {
            if i == 0 {
                assert(links[0] == r[0]);
            } else {
                let k0 = choose|k0: int| 0 <= k0 < rest.len() && rest[k0] == sub[i - 1];
                assert(links[k0 + 1] == r[i]);
            }
        }
    }
}

/// A sequence without the identity never resolves it.
proof fn lemma_lookup_absent(links: Seq<DockBindingV>, uuid: Seq<char>)
    requires
        forall|i: int| 0 <= i < links.len() ==> (#[trigger] links[i]).uuid != uuid,
    ensures
        spec_lookup(links, uuid) is None,
    decreases links.len(),
{
    if links.len() > 0 {
        let rest = links.drop_first();
        assert(forall|i: int| 0 <= i < rest.len() ==> (#[trigger] rest[i]).uuid == links[i
            + 1].uuid);
        lemma_lookup_absent(rest, uuid);
    }
}

impl Default for Metadata {
    /// The zero-valued record used before any record file exists.
    fn default() -> (r: Metadata)
        ensures
            r@.active_profile is None,
            r@.last_modified is None,
            r@.dock_profiles.len() == 0,
            r@.undocked_profile is None,
    {
        let r = Metadata {
            active_profile: Option::None,
            last_modified: Option::None,
            dock_profiles: Vec::new(),
            undocked_profile: Option::None,
        };
        r
    }
}

impl Metadata {
    /// Update `last_modified` to the given clock reading.
    pub fn touch(&mut self, now: u64)
        ensures
            final(self)@ == (MetadataV { last_modified: Option::Some(now), ..old(self)@ }),
    {
        self.last_modified = Option::Some(now);
    }

    /// Set the active profile and stamp the record.
    pub fn set_active(&mut self, profile: Option<String>, now: u64)
        ensures
            final(self)@ == (MetadataV {
                active_profile: crate::profile::opt_str_view(profile),
                last_modified: Option::Some(now),
                ..old(self)@
            }),
    {
        self.active_profile = profile;
        self.touch(now);
    }

    /// Set or clear the undocked fallback profile and stamp the record.
    pub fn set_undocked(&mut self, profile: Option<String>, now: u64)
        ensures
            final(self)@ == (MetadataV {
                undocked_profile: crate::profile::opt_str_view(profile),
                last_modified: Option::Some(now),
                ..old(self)@
            }),
    {
        self.undocked_profile = profile;
        self.touch(now);
    }

    /// Bind a dock identity to a profile name (upsert) and stamp the record.
    pub fn link_dock(&mut self, uuid: &str, profile: &str, now: u64)
        ensures
            final(self)@ == (MetadataV {
                dock_profiles: spec_upsert(old(self)@.dock_profiles, uuid@, profile@),
                last_modified: Option::Some(now),
                ..old(self)@
            }),
            old(self)@.wf() ==> final(self)@.wf(),
            old(self)@.wf() ==> spec_lookup(final(self)@.dock_profiles, uuid@)
                == Option::Some(profile@),
    {
        let mut links: Vec<DockBinding> = Vec::new();
        core::mem::swap(&mut links, &mut self.dock_profiles);
        self.dock_profiles = upsert_links(links, uuid, profile);
        self.touch(now);
        proof {
            if old(self)@.wf() {
                lemma_upsert_wf(old(self)@.dock_profiles, uuid@, profile@);
            }
        }
    }

    /// Remove the binding of a dock identity, if any, and stamp the record.
    pub fn unlink_dock(&mut self, uuid: &str, now: u64)
        ensures
            final(self)@ == (MetadataV {
                dock_profiles: spec_unlink(old(self)@.dock_profiles, uuid@),
                last_modified: Option::Some(now),
                ..old(self)@
            }),
            old(self)@.wf() ==> final(self)@.wf(),
            old(self)@.wf() ==> spec_lookup(final(self)@.dock_profiles, uuid@) is None,
    {
        let mut links: Vec<DockBinding> = Vec::new();
        core::mem::swap(&mut links, &mut self.dock_profiles);
        self.dock_profiles = unlink_links(links, uuid);
        self.touch(now);
        proof {
            if old(self)@.wf() {
                lemma_unlink_wf(old(self)@.dock_profiles, uuid@);
            }
        }
    }

    /// The profile bound to the given dock identity, if any: the first match
    /// in binding order.
    pub fn get_dock_profile<'a>(&'a self, uuid: &str) -> (r: Option<&'a String>)
        ensures
            match r {
                Option::Some(p) => spec_lookup(self@.dock_profiles, uuid@) == Option::Some(p@),
                Option::None => spec_lookup(self@.dock_profiles, uuid@) is None,
            },
    {
        let ghost links = links_view(self.dock_profiles@);
        let n = self.dock_profiles.len();
        proof {
            assert(links.skip(0) =~= links);
        }
        let mut i: usize = 0;
        while i < n
            invariant
                i <= n,
                n == self.dock_profiles.len(),
                links == links_view(self.dock_profiles@),
                spec_lookup(links, uuid@) == spec_lookup(links.skip(i as int), uuid@),
            decreases n - i,
        {
            if str_eq(self.dock_profiles[i].uuid.as_str(), uuid) {
                assert(links.skip(i as int)[0] == links[i as int]);
                return Option::Some(&self.dock_profiles[i].profile);
            }
            assert(links.skip(i as int)[0] == links[i as int]);
            assert(links.skip(i as int).drop_first() =~= links.skip(i + 1));
            i += 1;
        }
        assert(links.skip(n as int) =~= Seq::<DockBindingV>::empty());
        Option::None
    }

    /// The identity of the first dock bound to the given profile, if any
    /// (reverse lookup; first match in binding order).
    pub fn get_profile_dock<'a>(&'a self, profile: &str) -> (r: Option<&'a String>)
        ensures
            match r {
                Option::Some(u) => spec_reverse_lookup(self@.dock_profiles, profile@)
                    == Option::Some(u@),
                Option::None => spec_reverse_lookup(self@.dock_profiles, profile@) is None,
            },
    {
        let ghost links = links_view(self.dock_profiles@);
        let n = self.dock_profiles.len();
        proof {
            assert(links.skip(0) =~= links);
        }
        let mut i: usize = 0;
        while i < n
            invariant
                i <= n,
                n == self.dock_profiles.len(),
                links == links_view(self.dock_profiles@),
                spec_reverse_lookup(links, profile@) == spec_reverse_lookup(
                    links.skip(i as int),
                    profile@,
                ),
            decreases n - i,
        {
            if str_eq(self.dock_profiles[i].profile.as_str(), profile) {
                assert(links.skip(i as int)[0] == links[i as int]);
                return Option::Some(&self.dock_profiles[i].uuid);
            }
            assert(links.skip(i as int)[0] == links[i as int]);
            assert(links.skip(i as int).drop_first() =~= links.skip(i + 1));
            i += 1;
        }
        assert(links.skip(n as int) =~= Seq::<DockBindingV>::empty());
        Option::None
    }
}

} // verus!
