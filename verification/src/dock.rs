//! Thunderbolt device classification and deterministic ordering.
//!
//! The platform's device-topology directory is read outside the library; the
//! raw entries (directory name plus the three optional attributes) are handed
//! in as plain values.  The library decides which entries are devices,
//! classifies each as host controller or peripheral, fills defaults for
//! missing attributes, and orders the result deterministically.

use vstd::prelude::*;

use crate::strutil::{lemma_lex_le_refl, lemma_lex_le_total, lemma_lex_le_trans, lex_le, str_le};

verus! {

/// A discovered Thunderbolt device.
#[derive(Debug, PartialEq, Eq)]
pub struct ThunderboltDevice {
    /// Display name; `"Unknown"` when the attribute was unreadable.
    pub name: String,
    /// Stable unique identity; empty when the attribute was unreadable.
    pub uuid: String,
    pub vendor: Option<String>,
    /// Whether this is the non-removable host controller.
    pub is_host: bool,
    /// Sysfs entry name, e.g. `"0-0"`, `"0-1"`; the deterministic sort key.
    pub device_id: String,
}

/// Mathematical model of a `ThunderboltDevice`.
pub ghost struct DeviceV {
    pub name: Seq<char>,
    pub uuid: Seq<char>,
    pub vendor: Option<Seq<char>>,
    pub is_host: bool,
    pub device_id: Seq<char>,
}

impl View for ThunderboltDevice {
    type V = DeviceV;

    open spec fn view(&self) -> DeviceV {
        DeviceV {
            name: self.name@,
            uuid: self.uuid@,
            vendor: crate::profile::opt_str_view(self.vendor),
            is_host: self.is_host,
            device_id: self.device_id@,
        }
    }
}

impl ThunderboltDevice {
    /// Check if this is a dock/peripheral (not the host controller).
    pub fn is_dock(&self) -> (r: bool)
        ensures
            r == !self@.is_host,
    {
        !self.is_host
    }
}

/// One raw entry of the device-topology directory, as read by the caller.
/// Attribute values are `None` where missing or unreadable.
#[derive(Debug, PartialEq, Eq)]
pub struct SysfsEntry {
    pub entry_name: String,
    pub device_name: Option<String>,
    pub vendor_name: Option<String>,
    pub unique_id: Option<String>,
}

/// Mathematical model of a `SysfsEntry`.
pub ghost struct SysfsEntryV {
    pub entry_name: Seq<char>,
    pub device_name: Option<Seq<char>>,
    pub vendor_name: Option<Seq<char>>,
    pub unique_id: Option<Seq<char>>,
}

impl View for SysfsEntry {
    type V = SysfsEntryV;

    open spec fn view(&self) -> SysfsEntryV {
        SysfsEntryV {
            entry_name: self.entry_name@,
            device_name: crate::profile::opt_str_view(self.device_name),
            vendor_name: crate::profile::opt_str_view(self.vendor_name),
            unique_id: crate::profile::opt_str_view(self.unique_id),
        }
    }
}

pub open spec fn devs_view(s: Seq<ThunderboltDevice>) -> Seq<DeviceV> {
    Seq::new(s.len(), |i: int| s[i]@)
}

pub open spec fn entries_view(s: Seq<SysfsEntry>) -> Seq<SysfsEntryV> {
    Seq::new(s.len(), |i: int| s[i]@)
}

/// An entry names a device exactly when it holds the position separator;
/// domain-controller entries such as `"domain0"` lack it.
pub open spec fn is_device_entry(name: Seq<char>) -> bool {
    name.contains('-')
}

/// The host controller's entry name ends in `-0`.
pub open spec fn is_host_entry(name: Seq<char>) -> bool {
    name.len() >= 2 && name[name.len() - 2] == '-' && name[name.len() - 1] == '0'
}

/// The device a raw entry describes, with defaults for missing attributes.
pub open spec fn device_of(e: SysfsEntryV) -> DeviceV {
    DeviceV {
        name: match e.device_name {
            Option::Some(n) => n,
            Option::None => "Unknown"@,
        },
        uuid: match e.unique_id {
            Option::Some(u) => u,
            Option::None => Seq::<char>::empty(),
        },
        vendor: e.vendor_name,
        is_host: is_host_entry(e.entry_name),
        device_id: e.entry_name,
    }
}

/// The devices among a list of raw entries, in entry order, unsorted.
pub open spec fn spec_enumerate(entries: Seq<SysfsEntryV>) -> Seq<DeviceV>
    decreases entries.len(),
{
    if entries.len() == 0 {
        Seq::<DeviceV>::empty()
    } else if is_device_entry(entries[0].entry_name) {
        seq![device_of(entries[0])] + spec_enumerate(entries.drop_first())
    } else {
        spec_enumerate(entries.drop_first())
    }
}

/// A device inserted in front of the first entry it precedes (by sort key).
pub open spec fn spec_insert_device(d: DeviceV, s: Seq<DeviceV>) -> Seq<DeviceV>
    decreases s.len(),
{
    if s.len() == 0 {
        seq![d]
    } else if lex_le(d.device_id, s[0].device_id) {
        seq![d] + s
    } else {
        seq![s[0]] + spec_insert_device(d, s.drop_first())
    }
}

/// Insertion sort by `device_id`, the deterministic device order.
pub open spec fn spec_sort_devices(s: Seq<DeviceV>) -> Seq<DeviceV>
    decreases s.len(),
{
    if s.len() == 0 {
        s
    } else {
        spec_insert_device(s.last(), spec_sort_devices(s.drop_last()))
    }
}

fn has_dash(name: &str) -> (r: bool)
    ensures
        r == is_device_entry(name@),
{
    let n = name.unicode_len();
    let mut i: usize = 0;
    while i < n
        invariant
            i <= n,
            n == name@.len(),
            forall|k: int| 0 <= k < i ==> name@[k] != '-',
        decreases n - i,
    {
        if name.get_char(i) == '-' {
            assert(name@.contains('-'));
            return true;
        }
        i += 1;
    }
    assert(!name@.contains('-'));
    false
}

fn make_device(e: SysfsEntry) -> (d: ThunderboltDevice)
    ensures
        d@ == device_of(e@),
{
    let n = e.entry_name.unicode_len();
    let is_host = n >= 2 && e.entry_name.as_str().get_char(n - 2) == '-'
        && e.entry_name.as_str().get_char(n - 1) == '0';
    ThunderboltDevice {
        name: match e.device_name {
            Option::Some(s) => s,
            Option::None => String::from_str("Unknown"),
        },
        uuid: match e.unique_id {
            Option::Some(s) => s,
            Option::None => String::new(),
        },
        vendor: e.vendor_name,
        is_host,
        device_id: e.entry_name,
    }
}

fn enumerate_devices(entries: Vec<SysfsEntry>) -> (r: Vec<ThunderboltDevice>)
    ensures
        devs_view(r@) == spec_enumerate(entries_view(entries@)),
    decreases entries@.len(),
{
    let ghost orig = entries_view(entries@);
    let mut entries = entries;
    if entries.len() == 0 {
        let r: Vec<ThunderboltDevice> = Vec::new();
        assert(devs_view(r@) =~= spec_enumerate(orig));
        r
    } else {
        let head = entries.remove(0);
        proof {
            assert(orig[0] == head@);
            assert(orig.drop_first() =~= entries_view(entries@));
        }
        let mut r = enumerate_devices(entries);
        if has_dash(head.entry_name.as_str()) {
            let d = make_device(head);
            r.insert(0, d);
            assert(devs_view(r@) =~= seq![device_of(orig[0])] + spec_enumerate(
                orig.drop_first(),
            ));
        }
        r
    }
}

fn insert_device(d: ThunderboltDevice, s: Vec<ThunderboltDevice>) -> (r: Vec<ThunderboltDevice>)
    ensures
        devs_view(r@) == spec_insert_device(d@, devs_view(s@)),
    decreases s@.len(),
{
    let ghost orig = devs_view(s@);
    let mut s = s;
    if s.len() == 0 {
        s.push(d);
        assert(devs_view(s@) =~= spec_insert_device(d@, orig));
        s
    } else {
        if str_le(d.device_id.as_str(), s[0].device_id.as_str()) {
            s.insert(0, d);
            assert(devs_view(s@) =~= seq![d@] + orig);
            s
        } else {
            let head = s.remove(0);
            proof {
                assert(orig[0] == head@);
                assert(orig.drop_first() =~= devs_view(s@));
            }
            let mut r = insert_device(d, s);
            r.insert(0, head);
            assert(devs_view(r@) =~= seq![orig[0]] + spec_insert_device(d@, orig.drop_first()));
            r
        }
    }
}

fn sort_devices(s: Vec<ThunderboltDevice>) -> (r: Vec<ThunderboltDevice>)
    ensures
        devs_view(r@) == spec_sort_devices(devs_view(s@)),
    decreases s@.len(),
{
    let ghost orig = devs_view(s@);
    let mut s = s;
    if s.len() == 0 {
        s
    } else {
        let last = s.pop().unwrap();
        proof {
            assert(orig.last() == last@);
            assert(orig.drop_last() =~= devs_view(s@));
        }
        let sorted = sort_devices(s);
        insert_device(last, sorted)
    }
}

/// Detect all Thunderbolt devices among the raw directory entries.
///
/// Non-device entries (no `-` in the name) are excluded; missing attributes
/// become `"Unknown"` / empty rather than failing; entries ending in `-0` are
/// the host controller; the result is sorted by `device_id` for a
/// deterministic, reproducible order.
pub fn list_all_devices(entries: Vec<SysfsEntry>) -> (r: Vec<ThunderboltDevice>)
    ensures
        devs_view(r@) == spec_sort_devices(spec_enumerate(entries_view(entries@))),
{
    let devices = enumerate_devices(entries);
    sort_devices(devices)
}

/// The peripherals among the devices, in the same order.
pub open spec fn spec_docks(s: Seq<DeviceV>) -> Seq<DeviceV>
    decreases s.len(),
{
    if s.len() == 0 {
        s
    } else if !s[0].is_host {
        seq![s[0]] + spec_docks(s.drop_first())
    } else {
        spec_docks(s.drop_first())
    }
}

/// Detect connected Thunderbolt docks: the peripheral-role devices only, in
/// the same sorted order.
pub fn detect_docks(devices: Vec<ThunderboltDevice>) -> (r: Vec<ThunderboltDevice>)
    ensures
        devs_view(r@) == spec_docks(devs_view(devices@)),
    decreases devices@.len(),
{
    let ghost orig = devs_view(devices@);
    let mut devices = devices;
    if devices.len() == 0 {
        devices
    } else {
        let head = devices.remove(0);
        proof {
            assert(orig[0] == head@);
            assert(orig.drop_first() =~= devs_view(devices@));
        }
        let keep = head.is_dock();
        let mut r = detect_docks(devices);
        if keep {
            r.insert(0, head);
            assert(devs_view(r@) =~= seq![orig[0]] + spec_docks(orig.drop_first()));
        }
        r
    }
}

/// Devices in sorted order: every earlier sort key precedes every later
/// one.
pub open spec fn devices_sorted(s: Seq<DeviceV>) -> bool {
    forall|i: int, j: int|
        0 <= i <= j < s.len() ==> lex_le(
            (#[trigger] s[i]).device_id,
            (#[trigger] s[j]).device_id,
        )
}

/// Every device of an insertion is the inserted one or was among the
/// devices before it.
proof fn lemma_insert_device_members(d: DeviceV, s: Seq<DeviceV>)
    ensures
        forall|k: int|
            0 <= k < spec_insert_device(d, s).len() ==> #[trigger] spec_insert_device(d, s)[k]
                == d || exists|t: int| 0 <= t < s.len() && s[t] == spec_insert_device(d, s)[k],
    decreases s.len(),
{
    let r = spec_insert_device(d, s);
    if s.len() == 0 {
    } else if lex_le(d.device_id, s[0].device_id) {
        assert forall|k: int| 0 <= k < r.len() implies #[trigger] r[k] == d || exists|t: int|
            0 <= t < s.len() && s[t] == r[k] by {
            if k > 0 {
                assert(s[k - 1] == r[k]);
            }
        }
    } else {
        let rest = s.drop_first();
        lemma_insert_device_members(d, rest);
        let sub = spec_insert_device(d, rest);
        assert forall|k: int| 0 <= k < r.len() implies #[trigger] r[k] == d || exists|t: int|
            0 <= t < s.len() && s[t] == r[k] by {
            if k == 0 {
                assert(s[0] == r[0]);
            } else {
                assert(r[k] == sub[k - 1]);
                if sub[k - 1] != d {
                    let t = choose|t: int| 0 <= t < rest.len() && rest[t] == sub[k - 1];
                    assert(s[t + 1] == r[k]);
                }
            }
        }
    }
}

proof fn lemma_insert_device_sorted(d: DeviceV, s: Seq<DeviceV>)
    requires
        devices_sorted(s),
    ensures
        devices_sorted(spec_insert_device(d, s)),
    decreases s.len(),
{
    let r = spec_insert_device(d, s);
    if s.len() == 0 {
        lemma_lex_le_refl(d.device_id);
    } else if lex_le(d.device_id, s[0].device_id) {
        assert forall|i: int, j: int| 0 <= i <= j < r.len() implies lex_le(
            (#[trigger] r[i]).device_id,
            (#[trigger] r[j]).device_id,
        ) by {
            if i == 0 {
                if j == 0 {
                    lemma_lex_le_refl(d.device_id);
                } else {
                    assert(r[j] == s[j - 1]);
                    assert(lex_le(s[0].device_id, s[j - 1].device_id));
                    lemma_lex_le_trans(d.device_id, s[0].device_id, s[j - 1].device_id);
                }
            } else {
                assert(r[i] == s[i - 1] && r[j] == s[j - 1]);
            }
        }
    } else {
        lemma_lex_le_total(d.device_id, s[0].device_id);
        let rest = s.drop_first();
        assert(devices_sorted(rest)) by {
            assert forall|i: int, j: int| 0 <= i <= j < rest.len() implies lex_le(
                (#[trigger] rest[i]).device_id,
                (#[trigger] rest[j]).device_id,
            ) by {
                assert(rest[i] == s[i + 1] && rest[j] == s[j + 1]);
            }
        }
        lemma_insert_device_sorted(d, rest);
        lemma_insert_device_members(d, rest);
        let sub = spec_insert_device(d, rest);
        assert forall|i: int, j: int| 0 <= i <= j < r.len() implies lex_le(
            (#[trigger] r[i]).device_id,
            (#[trigger] r[j]).device_id,
        ) by {
            if i == 0 {
                if j == 0 {
                    lemma_lex_le_refl(s[0].device_id);
                } else {
                    assert(r[j] == sub[j - 1]);
                    if sub[j - 1] == d {
                    } else {
                        let t = choose|t: int| 0 <= t < rest.len() && rest[t] == sub[j - 1];
                        assert(rest[t] == s[t + 1]);
                        assert(lex_le(s[0].device_id, s[t + 1].device_id));
                    }
                }
            } else {
                assert(r[i] == sub[i - 1] && r[j] == sub[j - 1]);
            }
        }
    }
}

/// The enumerated device order is deterministic and sorted: whatever the
/// directory order of the raw entries, the devices come out with their
/// sort keys in lexicographic order.
pub proof fn lemma_sort_devices_sorted(s: Seq<DeviceV>)
    ensures
        devices_sorted(spec_sort_devices(s)),
    decreases s.len(),
{
    if s.len() > 0 {
        lemma_sort_devices_sorted(s.drop_last());
        lemma_insert_device_sorted(s.last(), spec_sort_devices(s.drop_last()));
    }
}

proof fn lemma_singleton_multiset(d: DeviceV)
    ensures
        seq![d].to_multiset() == vstd::multiset::Multiset::<DeviceV>::empty().insert(d),
{
    broadcast use vstd::seq_lib::group_to_multiset_ensures;

    assert(seq![d] =~= Seq::<DeviceV>::empty().push(d));
    assert(Seq::<DeviceV>::empty().push(d).to_multiset() =~= Seq::<
        DeviceV,
    >::empty().to_multiset().insert(d));
    assert(Seq::<DeviceV>::empty().to_multiset() =~= vstd::multiset::Multiset::<
        DeviceV,
    >::empty());
}

proof fn lemma_insert_device_multiset(d: DeviceV, s: Seq<DeviceV>)
    ensures
        spec_insert_device(d, s).to_multiset() == s.to_multiset().insert(d),
    decreases s.len(),
{
    broadcast use vstd::seq_lib::lemma_multiset_commutative;
    broadcast use vstd::seq_lib::group_to_multiset_ensures;

    lemma_singleton_multiset(d);
    if s.len() == 0 {
        assert(Seq::<DeviceV>::empty().to_multiset() =~= vstd::multiset::Multiset::<
            DeviceV,
        >::empty());
        assert(seq![d].to_multiset() =~= s.to_multiset().insert(d));
    } else if lex_le(d.device_id, s[0].device_id) {
        assert((seq![d] + s).to_multiset() == seq![d].to_multiset().add(s.to_multiset()));
        assert(vstd::multiset::Multiset::<DeviceV>::empty().insert(d).add(s.to_multiset())
            =~= s.to_multiset().insert(d));
    } else {
        let rest = s.drop_first();
        lemma_insert_device_multiset(d, rest);
        lemma_singleton_multiset(s[0]);
        assert(seq![s[0]] + rest =~= s);
        assert((seq![s[0]] + rest).to_multiset() == seq![s[0]].to_multiset().add(
            rest.to_multiset(),
        ));
        assert((seq![s[0]] + spec_insert_device(d, rest)).to_multiset() == seq![
            s[0],
        ].to_multiset().add(spec_insert_device(d, rest).to_multiset()));
        assert(seq![s[0]].to_multiset().add(rest.to_multiset().insert(d))
            =~= seq![s[0]].to_multiset().add(rest.to_multiset()).insert(d));
    }
}

/// Ordering loses and invents nothing: the sorted devices are a
/// permutation of the enumerated ones.
pub proof fn lemma_sort_devices_permutes(s: Seq<DeviceV>)
    ensures
        spec_sort_devices(s).to_multiset() == s.to_multiset(),
    decreases s.len(),
{
    broadcast use vstd::seq_lib::group_to_multiset_ensures;

    if s.len() > 0 {
        lemma_sort_devices_permutes(s.drop_last());
        lemma_insert_device_multiset(s.last(), spec_sort_devices(s.drop_last()));
        assert(s =~= s.drop_last().push(s.last()));
        assert(s.drop_last().push(s.last()).to_multiset() =~= s.drop_last().to_multiset().insert(
            s.last(),
        ));
    }
}

/// The platform's security-mode attribute, with `"unknown"` where it is
/// absent or unreadable.
pub fn get_security_mode(attr: Option<String>) -> (r: String)
    ensures
        match attr {
            Option::Some(s) => r@ == s@,
            Option::None => r@ == "unknown"@,
        },
{
    match attr {
        Option::Some(s) => s,
        Option::None => String::from_str("unknown"),
    }
}

} // verus!
