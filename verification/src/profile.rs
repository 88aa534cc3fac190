//! Profiles: named display/workspace configuration documents.
//!
//! A profile describes a monitor layout, workspace assignment and lid-switch
//! policy.  Rates and scales are carried as fixed-point integers: a refresh
//! rate in millihertz and a scale in thousandths, so that exact values can be
//! stated and proved about them.

use vstd::prelude::*;

verus! {

/// A monitor's placement, in pixels.
#[derive(Clone, Copy, Debug, PartialEq, Eq)]
pub struct Position {
    pub x: i32,
    pub y: i32,
}

/// One monitor of a profile.
#[derive(Clone, Debug, PartialEq, Eq)]
pub struct Monitor {
    pub name: String,
    /// Stable hardware description, kept so that a monitor can be found again
    /// when a dock reconnection reassigns port names.
    pub description: Option<String>,
    pub enabled: bool,
    pub resolution: String,
    /// Refresh rate in millihertz.
    pub refresh_rate_mhz: u32,
    pub position: Position,
    /// Scale in thousandths.
    pub scale_milli: u32,
    /// Rotation/flip code, `0..=7`.
    pub transform: u8,
    pub mode: String,
}

/// A workspace assigned to a monitor.
#[derive(Clone, Debug, PartialEq, Eq)]
pub struct Workspace {
    pub id: u8,
    pub monitor: String,
    /// Marks the lowest-numbered workspace assigned to its monitor.
    pub is_default: bool,
}

/// Lid-switch policy of a profile.
#[derive(Clone, Debug, PartialEq, Eq)]
pub struct LidSwitch {
    pub enabled: bool,
    pub monitor: String,
    pub on_close: String,
    pub on_open: String,
}

/// A named configuration document.
#[derive(Clone, Debug, PartialEq, Eq)]
pub struct Profile {
    pub name: String,
    pub description: Option<String>,
    pub monitors: Vec<Monitor>,
    pub workspaces: Vec<Workspace>,
    pub lid_switch: Option<LidSwitch>,
}

/// Mathematical model of a `Position`.
pub ghost struct PositionV {
    pub x: i32,
    pub y: i32,
}

/// Mathematical model of a `Monitor`.
pub ghost struct MonitorV {
    pub name: Seq<char>,
    pub description: Option<Seq<char>>,
    pub enabled: bool,
    pub resolution: Seq<char>,
    pub refresh_rate_mhz: u32,
    pub position: PositionV,
    pub scale_milli: u32,
    pub transform: u8,
    pub mode: Seq<char>,
}

/// Mathematical model of a `Workspace`.
pub ghost struct WorkspaceV {
    pub id: u8,
    pub monitor: Seq<char>,
    pub is_default: bool,
}

/// Mathematical model of a `LidSwitch`.
pub ghost struct LidSwitchV {
    pub enabled: bool,
    pub monitor: Seq<char>,
    pub on_close: Seq<char>,
    pub on_open: Seq<char>,
}

/// Mathematical model of a `Profile`.
pub ghost struct ProfileV {
    pub name: Seq<char>,
    pub description: Option<Seq<char>>,
    pub monitors: Seq<MonitorV>,
    pub workspaces: Seq<WorkspaceV>,
    pub lid_switch: Option<LidSwitchV>,
}

pub open spec fn opt_str_view(o: Option<String>) -> Option<Seq<char>> {
    match o {
        Option::Some(s) => Option::Some(s@),
        Option::None => Option::None,
    }
}

impl View for Position {
    type V = PositionV;

    open spec fn view(&self) -> PositionV {
        PositionV { x: self.x, y: self.y }
    }
}

impl View for Monitor {
    type V = MonitorV;

    open spec fn view(&self) -> MonitorV {
        MonitorV {
            name: self.name@,
            description: opt_str_view(self.description),
            enabled: self.enabled,
            resolution: self.resolution@,
            refresh_rate_mhz: self.refresh_rate_mhz,
            position: self.position@,
            scale_milli: self.scale_milli,
            transform: self.transform,
            mode: self.mode@,
        }
    }
}

impl View for Workspace {
    type V = WorkspaceV;

    open spec fn view(&self) -> WorkspaceV {
        WorkspaceV { id: self.id, monitor: self.monitor@, is_default: self.is_default }
    }
}

impl View for LidSwitch {
    type V = LidSwitchV;

    open spec fn view(&self) -> LidSwitchV {
        LidSwitchV {
            enabled: self.enabled,
            monitor: self.monitor@,
            on_close: self.on_close@,
            on_open: self.on_open@,
        }
    }
}

impl View for Profile {
    type V = ProfileV;

    open spec fn view(&self) -> ProfileV {
        ProfileV {
            name: self.name@,
            description: opt_str_view(self.description),
            monitors: Seq::new(self.monitors@.len(), |i: int| self.monitors@[i]@),
            workspaces: Seq::new(self.workspaces@.len(), |i: int| self.workspaces@[i]@),
            lid_switch: match self.lid_switch {
                Option::Some(l) => Option::Some(l@),
                Option::None => Option::None,
            },
        }
    }
}

impl Profile {
    /// Create a new empty profile with the given name.
    pub fn new(name: String) -> (r: Profile)
        ensures
            r@.name == name@,
            r@.description is None,
            r@.monitors.len() == 0,
            r@.workspaces.len() == 0,
            r@.lid_switch is None,
    {
        Profile {
            name,
            description: Option::None,
            monitors: Vec::new(),
            workspaces: Vec::new(),
            lid_switch: Option::None,
        }
    }
}

pub open spec fn strs_view(s: Seq<String>) -> Seq<Seq<char>> {
    Seq::new(s.len(), |i: int| s[i]@)
}

/// A store file that holds a profile: a `.json` file whose stem is not
/// empty and not dot-prefixed (the dot-prefixed name is reserved for the
/// binding-record file).
pub open spec fn is_profile_file(name: Seq<char>) -> bool {
    name.len() > 5 && name.subrange(name.len() - 5, name.len() as int) == ".json"@ && name[0]
        != '.'
}

/// The profile name a store file carries: the file name without `.json`.
pub open spec fn stem_of(name: Seq<char>) -> Seq<char> {
    name.take(name.len() - 5)
}

/// The profile names among the store's file names, in directory order.
pub open spec fn spec_profile_names(files: Seq<Seq<char>>) -> Seq<Seq<char>>
    decreases files.len(),
{
    if files.len() == 0 {
        Seq::<Seq<char>>::empty()
    } else if is_profile_file(files[0]) {
        seq![stem_of(files[0])] + spec_profile_names(files.drop_first())
    } else {
        spec_profile_names(files.drop_first())
    }
}

/// A name inserted in front of the first name it precedes.
pub open spec fn spec_insert_name(x: Seq<char>, s: Seq<Seq<char>>) -> Seq<Seq<char>>
    decreases s.len(),
{
    if s.len() == 0 {
        seq![x]
    } else if crate::strutil::lex_le(x, s[0]) {
        seq![x] + s
    } else {
        seq![s[0]] + spec_insert_name(x, s.drop_first())
    }
}

/// Insertion sort on names, the lexicographic listing order.
pub open spec fn spec_sort_names(s: Seq<Seq<char>>) -> Seq<Seq<char>>
    decreases s.len(),
{
    if s.len() == 0 {
        s
    } else {
        spec_insert_name(s.last(), spec_sort_names(s.drop_last()))
    }
}

/// Names in sorted order: every earlier name precedes every later one.
pub open spec fn names_sorted(s: Seq<Seq<char>>) -> bool {
    forall|i: int, j: int|
        0 <= i <= j < s.len() ==> crate::strutil::lex_le(#[trigger] s[i], #[trigger] s[j])
}

/// Every name of an insertion is the inserted one or was among the names
/// before it.
proof fn lemma_insert_name_members(x: Seq<char>, s: Seq<Seq<char>>)
    ensures
        forall|k: int|
            0 <= k < spec_insert_name(x, s).len() ==> #[trigger] spec_insert_name(x, s)[k] == x
                || exists|t: int| 0 <= t < s.len() && s[t] == spec_insert_name(x, s)[k],
    decreases s.len(),
{
    let r = spec_insert_name(x, s);
    if s.len() == 0 {
    } else if crate::strutil::lex_le(x, s[0]) {
        assert forall|k: int| 0 <= k < r.len() implies #[trigger] r[k] == x || exists|t: int|
            0 <= t < s.len() && s[t] == r[k] by {
            if k > 0 {
                assert(s[k - 1] == r[k]);
            }
        }
    } else {
        let rest = s.drop_first();
        lemma_insert_name_members(x, rest);
        let sub = spec_insert_name(x, rest);
        assert forall|k: int| 0 <= k < r.len() implies #[trigger] r[k] == x || exists|t: int|
            0 <= t < s.len() && s[t] == r[k] by {
            if k == 0 {
                assert(s[0] == r[0]);
            } else {
                assert(r[k] == sub[k - 1]);
                if sub[k - 1] != x {
                    let t = choose|t: int| 0 <= t < rest.len() && rest[t] == sub[k - 1];
                    assert(s[t + 1] == r[k]);
                }
            }
        }
    }
}

proof fn lemma_insert_name_sorted(x: Seq<char>, s: Seq<Seq<char>>)
    requires
        names_sorted(s),
    ensures
        names_sorted(spec_insert_name(x, s)),
    decreases s.len(),
{
    let r = spec_insert_name(x, s);
    if s.len() == 0 {
        crate::strutil::lemma_lex_le_refl(x);
    } else if crate::strutil::lex_le(x, s[0]) {
        assert forall|i: int, j: int| 0 <= i <= j < r.len() implies crate::strutil::lex_le(
            #[trigger] r[i],
            #[trigger] r[j],
        ) by {
            if i == 0 {
                if j == 0 {
                    crate::strutil::lemma_lex_le_refl(x);
                } else {
                    assert(r[j] == s[j - 1]);
                    assert(crate::strutil::lex_le(s[0], s[j - 1]));
                    crate::strutil::lemma_lex_le_trans(x, s[0], s[j - 1]);
                }
            } else {
                assert(r[i] == s[i - 1] && r[j] == s[j - 1]);
            }
        }
    } else {
        crate::strutil::lemma_lex_le_total(x, s[0]);
        let rest = s.drop_first();
        assert(names_sorted(rest)) by {
            assert forall|i: int, j: int| 0 <= i <= j < rest.len() implies crate::strutil::lex_le(
                #[trigger] rest[i],
                #[trigger] rest[j],
            ) by {
                assert(rest[i] == s[i + 1] && rest[j] == s[j + 1]);
            }
        }
        lemma_insert_name_sorted(x, rest);
        lemma_insert_name_members(x, rest);
        let sub = spec_insert_name(x, rest);
        assert forall|i: int, j: int| 0 <= i <= j < r.len() implies crate::strutil::lex_le(
            #[trigger] r[i],
            #[trigger] r[j],
        ) by {
            if i == 0 {
                if j == 0 {
                    crate::strutil::lemma_lex_le_refl(s[0]);
                } else {
                    assert(r[j] == sub[j - 1]);
                    if sub[j - 1] == x {
                    } else {
                        let t = choose|t: int| 0 <= t < rest.len() && rest[t] == sub[j - 1];
                        assert(rest[t] == s[t + 1]);
                        assert(crate::strutil::lex_le(s[0], s[t + 1]));
                    }
                }
            } else {
                assert(r[i] == sub[i - 1] && r[j] == sub[j - 1]);
            }
        }
    }
}

/// The profile listing order is deterministic and sorted: whatever the
/// directory order of the store's files, the names come out in
/// lexicographic order.
pub proof fn lemma_sort_names_sorted(s: Seq<Seq<char>>)
    ensures
        names_sorted(spec_sort_names(s)),
    decreases s.len(),
{
    if s.len() > 0 {
        lemma_sort_names_sorted(s.drop_last());
        lemma_insert_name_sorted(s.last(), spec_sort_names(s.drop_last()));
    }
}

proof fn lemma_singleton_name_multiset(x: Seq<char>)
    ensures
        seq![x].to_multiset() == vstd::multiset::Multiset::<Seq<char>>::empty().insert(x),
{
    broadcast use vstd::seq_lib::group_to_multiset_ensures;

    assert(seq![x] =~= Seq::<Seq<char>>::empty().push(x));
    assert(Seq::<Seq<char>>::empty().push(x).to_multiset() =~= Seq::<
        Seq<char>,
    >::empty().to_multiset().insert(x));
    assert(Seq::<Seq<char>>::empty().to_multiset() =~= vstd::multiset::Multiset::<
        Seq<char>,
    >::empty());
}

proof fn lemma_insert_name_multiset(x: Seq<char>, s: Seq<Seq<char>>)
    ensures
        spec_insert_name(x, s).to_multiset() == s.to_multiset().insert(x),
    decreases s.len(),
{
    broadcast use vstd::seq_lib::lemma_multiset_commutative;
    broadcast use vstd::seq_lib::group_to_multiset_ensures;

    lemma_singleton_name_multiset(x);
    if s.len() == 0 {
        assert(Seq::<Seq<char>>::empty().to_multiset() =~= vstd::multiset::Multiset::<
            Seq<char>,
        >::empty());
        assert(seq![x].to_multiset() =~= s.to_multiset().insert(x));
    } else if crate::strutil::lex_le(x, s[0]) {
        assert((seq![x] + s).to_multiset() == seq![x].to_multiset().add(s.to_multiset()));
        assert(vstd::multiset::Multiset::<Seq<char>>::empty().insert(x).add(s.to_multiset())
            =~= s.to_multiset().insert(x));
    } else {
        let rest = s.drop_first();
        lemma_insert_name_multiset(x, rest);
        lemma_singleton_name_multiset(s[0]);
        assert(seq![s[0]] + rest =~= s);
        assert((seq![s[0]] + rest).to_multiset() == seq![s[0]].to_multiset().add(
            rest.to_multiset(),
        ));
        assert((seq![s[0]] + spec_insert_name(x, rest)).to_multiset() == seq![
            s[0],
        ].to_multiset().add(spec_insert_name(x, rest).to_multiset()));
        assert(seq![s[0]].to_multiset().add(rest.to_multiset().insert(x)) =~= seq![
            s[0],
        ].to_multiset().add(rest.to_multiset()).insert(x));
    }
}

/// Ordering loses and invents nothing: the sorted names are a permutation
/// of the collected ones.
pub proof fn lemma_sort_names_permutes(s: Seq<Seq<char>>)
    ensures
        spec_sort_names(s).to_multiset() == s.to_multiset(),
    decreases s.len(),
{
    broadcast use vstd::seq_lib::group_to_multiset_ensures;

    if s.len() > 0 {
        lemma_sort_names_permutes(s.drop_last());
        lemma_insert_name_multiset(s.last(), spec_sort_names(s.drop_last()));
        assert(s =~= s.drop_last().push(s.last()));
        assert(s.drop_last().push(s.last()).to_multiset() =~= s.drop_last().to_multiset().insert(
            s.last(),
        ));
    }
}

fn profile_file_stem(name: &String) -> (r: Option<String>)
    ensures
        match r {
            Option::Some(stem) => is_profile_file(name@) && stem@ == stem_of(name@),
            Option::None => !is_profile_file(name@),
        },
{
    let n = name.as_str().unicode_len();
    if n <= 5 {
        return Option::None;
    }
    if name.as_str().get_char(0) == '.' {
        return Option::None;
    }
    let suffix = name.as_str().substring_char(n - 5, n);
    if !crate::strutil::str_eq(suffix, ".json") {
        return Option::None;
    }
    let stem = name.as_str().substring_char(0, n - 5);
    proof {
        assert(stem@ =~= stem_of(name@));
    }
    Option::Some(String::from_str(stem))
}

fn collect_profile_names(files: Vec<String>) -> (r: Vec<String>)
    ensures
        strs_view(r@) == spec_profile_names(strs_view(files@)),
    decreases files@.len(),
{
    let ghost orig = strs_view(files@);
    let mut files = files;
    if files.len() == 0 {
        let r: Vec<String> = Vec::new();
        assert(strs_view(r@) =~= spec_profile_names(orig));
        r
    } else {
        let head = files.remove(0);
        proof {
            assert(orig[0] == head@);
            assert(orig.drop_first() =~= strs_view(files@));
        }
        let stem = profile_file_stem(&head);
        let mut r = collect_profile_names(files);
        match stem {
            Option::Some(s) => {
                r.insert(0, s);
                assert(strs_view(r@) =~= seq![stem_of(orig[0])] + spec_profile_names(
                    orig.drop_first(),
                ));
            },
            Option::None => {},
        }
        r
    }
}

fn insert_name(x: String, s: Vec<String>) -> (r: Vec<String>)
    ensures
        strs_view(r@) == spec_insert_name(x@, strs_view(s@)),
    decreases s@.len(),
{
    let ghost orig = strs_view(s@);
    let mut s = s;
    if s.len() == 0 {
        s.push(x);
        assert(strs_view(s@) =~= spec_insert_name(x@, orig));
        s
    } else {
        if crate::strutil::str_le(x.as_str(), s[0].as_str()) {
            s.insert(0, x);
            assert(strs_view(s@) =~= seq![x@] + orig);
            s
        } else {
            let head = s.remove(0);
            proof {
                assert(orig[0] == head@);
                assert(orig.drop_first() =~= strs_view(s@));
            }
            let mut r = insert_name(x, s);
            r.insert(0, head);
            assert(strs_view(r@) =~= seq![orig[0]] + spec_insert_name(x@, orig.drop_first()));
            r
        }
    }
}

fn sort_names(s: Vec<String>) -> (r: Vec<String>)
    ensures
        strs_view(r@) == spec_sort_names(strs_view(s@)),
    decreases s@.len(),
{
    let ghost orig = strs_view(s@);
    let mut s = s;
    if s.len() == 0 {
        s
    } else {
        let last = s.pop().unwrap();
        proof {
            assert(orig.last() == last@);
            assert(orig.drop_last() =~= strs_view(s@));
        }
        let sorted = sort_names(s);
        insert_name(last, sorted)
    }
}

/// List all stored profile names: the stems of the store directory's
/// `.json` files, names starting with `.` excluded (reserved for the
/// binding-record file), lexicographically sorted.
pub fn list_profiles(files: Vec<String>) -> (r: Vec<String>)
    ensures
        strs_view(r@) == spec_sort_names(spec_profile_names(strs_view(files@))),
{
    let names = collect_profile_names(files);
    sort_names(names)
}

/// Why a profile name was rejected.
#[derive(Clone, Copy, Debug, PartialEq, Eq, Structural)]
pub enum ValidationError {
    /// The name is empty.
    Empty,
    /// The name is longer than 100 characters.
    TooLong,
    /// The name starts with `.`.
    LeadingDot,
    /// The name contains `/` or `\`.
    PathSeparator,
    /// The name contains `..`.
    DotDot,
    /// The name contains one of `<>:"|?*` or NUL.
    InvalidChar,
}

/// Whether a character may never appear in a profile name: a path separator.
pub open spec fn is_separator_char(c: char) -> bool {
    c == '/' || c == '\\'
}

/// Whether a character is otherwise unsafe in a filename.
pub open spec fn is_reserved_char(c: char) -> bool {
    c == '<' || c == '>' || c == ':' || c == '"' || c == '|' || c == '?' || c == '*' || c
        == '\u{0}'
}

pub open spec fn has_separator(s: Seq<char>) -> bool {
    exists|i: int| 0 <= i < s.len() && is_separator_char(s[i])
}

pub open spec fn has_dot_dot(s: Seq<char>) -> bool {
    exists|i: int| 0 <= i < s.len() - 1 && #[trigger] s[i] == '.' && s[i + 1] == '.'
}

pub open spec fn has_reserved(s: Seq<char>) -> bool {
    exists|i: int| 0 <= i < s.len() && is_reserved_char(s[i])
}

/// A profile name that is safe to use as a filename: non-empty, at most 100
/// characters, no leading `.`, no path separators, no `..`, and none of
/// `<>:"|?*` or NUL.
pub open spec fn valid_profile_name(s: Seq<char>) -> bool {
    &&& s.len() > 0
    &&& s.len() <= 100
    &&& s[0] != '.'
    &&& !has_separator(s)
    &&& !has_dot_dot(s)
    &&& !has_reserved(s)
}

fn contains_separator(name: &str) -> (r: bool)
    ensures
        r == has_separator(name@),
{
    let n = name.unicode_len();
    let mut i: usize = 0;
    while i < n
        invariant
            i <= n,
            n == name@.len(),
            forall|k: int| 0 <= k < i ==> !is_separator_char(name@[k]),
        decreases n - i,
    {
        let c = name.get_char(i);
        if c == '/' || c == '\\' {
            return true;
        }
        i += 1;
    }
    false
}

fn contains_dot_dot(name: &str) -> (r: bool)
    ensures
        r == has_dot_dot(name@),
{
    let n = name.unicode_len();
    if n < 2 {
        return false;
    }
    let mut i: usize = 0;
    while i < n - 1
        invariant
            i <= n - 1,
            2 <= n,
            n == name@.len(),
            forall|k: int| 0 <= k < i ==> !(#[trigger] name@[k] == '.' && name@[k + 1] == '.'),
        decreases n - 1 - i,
    {
        if name.get_char(i) == '.' && name.get_char(i + 1) == '.' {
            return true;
        }
        i += 1;
    }
    false
}

fn contains_reserved(name: &str) -> (r: bool)
    ensures
        r == has_reserved(name@),
{
    let n = name.unicode_len();
    let mut i: usize = 0;
    while i < n
        invariant
            i <= n,
            n == name@.len(),
            forall|k: int| 0 <= k < i ==> !is_reserved_char(name@[k]),
        decreases n - i,
    {
        let c = name.get_char(i);
        if c == '<' || c == '>' || c == ':' || c == '"' || c == '|' || c == '?' || c == '*' || c
            == '\u{0}' {
            return true;
        }
        i += 1;
    }
    false
}

/// Validate a profile name for use as a filename.
///
/// Returns `Ok(())` exactly when the name passes the filename-safety rules;
/// otherwise the error names the first rule broken, checked in the order
/// below.
pub fn validate_profile_name(name: &str) -> (r: Result<(), ValidationError>)
    ensures
        r is Ok <==> valid_profile_name(name@),
        r == Result::<(), ValidationError>::Err(ValidationError::Empty) <==> name@.len() == 0,
        r == Result::<(), ValidationError>::Err(ValidationError::TooLong) <==> name@.len() > 100,
        r == Result::<(), ValidationError>::Err(ValidationError::LeadingDot) <==> (0 < name@.len()
            <= 100 && name@[0] == '.'),
        r == Result::<(), ValidationError>::Err(ValidationError::PathSeparator) <==> (0
            < name@.len() <= 100 && name@[0] != '.' && has_separator(name@)),
        r == Result::<(), ValidationError>::Err(ValidationError::DotDot) <==> (0 < name@.len()
            <= 100 && name@[0] != '.' && !has_separator(name@) && has_dot_dot(name@)),
        r == Result::<(), ValidationError>::Err(ValidationError::InvalidChar) <==> (0 < name@.len()
            <= 100 && name@[0] != '.' && !has_separator(name@) && !has_dot_dot(name@)
            && has_reserved(name@)),
{
    let n = name.unicode_len();
    if n == 0 {
        return Result::Err(ValidationError::Empty);
    }
    if n > 100 {
        return Result::Err(ValidationError::TooLong);
    }
    if name.get_char(0) == '.' {
        return Result::Err(ValidationError::LeadingDot);
    }
    if contains_separator(name) {
        return Result::Err(ValidationError::PathSeparator);
    }
    if contains_dot_dot(name) {
        return Result::Err(ValidationError::DotDot);
    }
    if contains_reserved(name) {
        return Result::Err(ValidationError::InvalidChar);
    }
    Result::Ok(())
}

} // verus!
