//! Finding the main Thunderbolt controller among PCI devices.
//!
//! The PCI device directory is read outside the library; each entry is
//! handed in as its name, the contents of its `class` attribute (where
//! readable) and whether it has a `domain0` subdirectory.  The library picks
//! the controller deterministically.

use vstd::prelude::*;

use crate::strutil::{starts_with, str_starts_with};

verus! {

/// One raw entry of the PCI device directory, as read by the caller.
#[derive(Debug, PartialEq, Eq)]
pub struct PciEntry {
    pub name: String,
    /// The `class` attribute, `None` where missing or unreadable.
    pub class: Option<String>,
    /// Whether the entry has a `domain0` subdirectory.
    pub has_domain0: bool,
}

/// Mathematical model of a `PciEntry`.
pub ghost struct PciEntryV {
    pub name: Seq<char>,
    pub class: Option<Seq<char>>,
    pub has_domain0: bool,
}

impl View for PciEntry {
    type V = PciEntryV;

    open spec fn view(&self) -> PciEntryV {
        PciEntryV {
            name: self.name@,
            class: crate::profile::opt_str_view(self.class),
            has_domain0: self.has_domain0,
        }
    }
}

pub open spec fn pci_view(s: Seq<PciEntry>) -> Seq<PciEntryV> {
    Seq::new(s.len(), |i: int| s[i]@)
}

/// Whether an entry is the main Thunderbolt controller: its class starts
/// with the Thunderbolt class code and it carries the first domain.
pub open spec fn is_controller(e: PciEntryV) -> bool {
    &&& match e.class {
        Option::Some(c) => starts_with(c, "0x088000"@),
        Option::None => false,
    }
    &&& e.has_domain0
}

/// The name of the first controller among the entries, if any.
pub open spec fn spec_controller(entries: Seq<PciEntryV>) -> Option<Seq<char>>
    decreases entries.len(),
{
    if entries.len() == 0 {
        Option::None
    } else if is_controller(entries[0]) {
        Option::Some(entries[0].name)
    } else {
        spec_controller(entries.drop_first())
    }
}

/// Detect the main Thunderbolt controller PCI address: the first entry, in
/// the order given, whose class starts with `0x088000` and which has a
/// `domain0` subdirectory.
pub fn get_controller_pci_address(entries: &Vec<PciEntry>) -> (r: Option<String>)
    ensures
        match r {
            Option::Some(name) => spec_controller(pci_view(entries@)) == Option::Some(name@),
            Option::None => spec_controller(pci_view(entries@)) is None,
        },
{
    let ghost ev = pci_view(entries@);
    let n = entries.len();
    proof {
        assert(ev.skip(0) =~= ev);
    }
    let mut i: usize = 0;
    while i < n
        invariant
            i <= n,
            n == entries.len(),
            ev == pci_view(entries@),
            spec_controller(ev) == spec_controller(ev.skip(i as int)),
        decreases n - i,
    {
        proof {
            assert(ev.skip(i as int)[0] == ev[i as int]);
            assert(ev.skip(i as int).drop_first() =~= ev.skip(i + 1));
        }
        let matches_class = match &entries[i].class {
            Option::Some(c) => str_starts_with(c.as_str(), "0x088000"),
            Option::None => false,
        };
        if matches_class && entries[i].has_domain0 {
            return Option::Some(String::from_str(entries[i].name.as_str()));
        }
        i += 1;
    }
    proof {
        assert(ev.skip(n as int) =~= Seq::<PciEntryV>::empty());
    }
    Option::None
}

} // verus!
