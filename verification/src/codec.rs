//! The document codec for the persisted stores.
//!
//! A profile and the binding record are stored as JSON text in a fixed,
//! canonical spelling: fixed key order, no whitespace, lowercase escapes.
//! The encoder produces exactly that spelling; the parser accepts exactly
//! it and fails on anything else, so a stored document has one meaning.
//! The round-trip laws at the bottom state that parsing an encoded document
//! always gives the value back.

use vstd::prelude::*;

use crate::jsontext::{
    dec_seq, enc_bool_seq, enc_i32_seq, enc_str_seq, encode_bool, encode_i32, encode_str,
    encode_u64, is_digit, lemma_parse_bool, lemma_parse_dec, lemma_parse_i32, lemma_parse_str,
    match_lit, parse_bool, parse_i32, parse_string, parse_u64, sp_bool, sp_i32, sp_lit, sp_str,
    sp_u64,
};
use crate::profile::{
    opt_str_view, LidSwitch, LidSwitchV, Monitor, MonitorV, Position, PositionV, Profile,
    ProfileV, Workspace, WorkspaceV,
};
use crate::strutil::{append_str, string_of};

verus! {

/// A stored document that is not in the canonical spelling.
#[derive(Clone, Copy, Debug, PartialEq, Eq, Structural)]
pub struct ParseError;

/// Right-nested and flat spellings of an eleven-part concatenation agree.
#[verifier::rlimit(100)]
proof fn lemma_flatten11(
    a1: Seq<char>,
    a2: Seq<char>,
    a3: Seq<char>,
    a4: Seq<char>,
    a5: Seq<char>,
    a6: Seq<char>,
    a7: Seq<char>,
    a8: Seq<char>,
    a9: Seq<char>,
    a10: Seq<char>,
    a11: Seq<char>,
)
    ensures
        a1 + (a2 + (a3 + (a4 + (a5 + (a6 + (a7 + (a8 + (a9 + (a10 + a11))))))))) == a1 + a2 + a3
            + a4 + a5 + a6 + a7 + a8 + a9 + a10 + a11,
{
    assert(a1 + (a2 + (a3 + (a4 + (a5 + (a6 + (a7 + (a8 + (a9 + (a10 + a11))))))))) =~= a1 + a2
        + a3 + a4 + a5 + a6 + a7 + a8 + a9 + a10 + a11);
}

/// A sequence is its own subrange over its whole length.
proof fn lemma_subrange_whole(s: Seq<char>)
    ensures
        s.subrange(0, s.len() as int) == s,
{
    assert(s.subrange(0, s.len() as int) =~= s);
}

/// Splits knowledge of a concatenation at `i` into its two halves.
proof fn lemma_peel(doc: Seq<char>, i: int, a: Seq<char>, b: Seq<char>)
    requires
        0 <= i,
        i + a.len() + b.len() <= doc.len(),
        doc.subrange(i, i + a.len() + b.len()) == a + b,
    ensures
        doc.subrange(i, i + a.len() as int) == a,
        doc.subrange(i + a.len(), i + a.len() + b.len()) == b,
{
    let whole = a + b;
    let sub = doc.subrange(i, i + whole.len() as int);
    assert(forall|k: int| 0 <= k < whole.len() ==> doc[i + k] == #[trigger] whole[k]) by {
        assert(forall|k: int| 0 <= k < whole.len() ==> #[trigger] sub[k] == doc[i + k]);
    }
    assert(doc.subrange(i, i + a.len() as int) =~= a);
    assert(forall|k: int| 0 <= k < b.len() ==> doc[i + a.len() + k] == #[trigger] b[k]) by {
        assert(forall|k: int| 0 <= k < b.len() ==> whole[a.len() + k] == #[trigger] b[k]);
    }
    assert(doc.subrange(i + a.len(), i + a.len() + b.len()) =~= b);
}

/// The character right after a region whose contents are known.
proof fn lemma_next_char(doc: Seq<char>, i: int, a: Seq<char>, b: Seq<char>)
    requires
        0 <= i,
        i + a.len() + b.len() <= doc.len(),
        doc.subrange(i, i + a.len() + b.len()) == a + b,
        b.len() >= 1,
    ensures
        doc[i + a.len()] == b[0],
{
    let whole = a + b;
    let sub = doc.subrange(i, i + whole.len() as int);
    assert(sub[a.len() as int] == doc[i + a.len()]);
    assert(whole[a.len() as int] == b[0]);
}

// ------------------------------------------------------- nullable string
pub open spec fn enc_opt_str(o: Option<Seq<char>>) -> Seq<char> {
    match o {
        Option::Some(s) => enc_str_seq(s),
        Option::None => "null"@,
    }
}

pub open spec fn sp_opt_str(doc: Seq<char>, i: int) -> Option<(Option<Seq<char>>, int)> {
    if 0 <= i < doc.len() && doc[i] == '"' {
        match sp_str(doc, i) {
            Option::Some((s, j)) => Option::Some((Option::Some(s), j)),
            Option::None => Option::None,
        }
    } else {
        match sp_lit(doc, i, "null"@) {
            Option::Some(j) => Option::Some((Option::None, j)),
            Option::None => Option::None,
        }
    }
}

proof fn lemma_parse_opt_str(doc: Seq<char>, i: int, o: Option<Seq<char>>)
    requires
        0 <= i,
        i + enc_opt_str(o).len() <= doc.len(),
        doc.subrange(i, i + enc_opt_str(o).len() as int) == enc_opt_str(o),
    ensures
        sp_opt_str(doc, i) == Option::Some((o, i + enc_opt_str(o).len() as int)),
{
    reveal_strlit("null");
    let e = enc_opt_str(o);
    let sub = doc.subrange(i, i + e.len() as int);
    match o {
        Option::Some(s) => {
            assert(e.len() >= 1);
            assert(sub[0] == doc[i]);
            assert(sub[0] == e[0]);
            assert(doc[i] == '"');
            lemma_parse_str(doc, i, s);
        },
        Option::None => {
            assert(e.len() == 4);
            assert(sub[0] == doc[i]);
            assert(sub[0] == e[0]);
            assert(doc[i] == 'n');
            assert(sp_lit(doc, i, "null"@) == Option::Some(i + 4));
        },
    }
}

fn encode_opt_str(o: &Option<String>, out: &mut Vec<char>)
    ensures
        final(out)@ == old(out)@ + enc_opt_str(opt_str_view(*o)),
{
    match o {
        Option::Some(s) => encode_str(s.as_str(), out),
        Option::None => append_str(out, "null"),
    }
}

fn parse_opt_str(doc: &Vec<char>, i: usize) -> (r: Option<(Option<String>, usize)>)
    requires
        i <= doc@.len(),
    ensures
        match r {
            Option::Some((v, j)) => sp_opt_str(doc@, i as int) == Option::Some(
                (opt_str_view(v), j as int),
            ) && i < j <= doc@.len(),
            Option::None => sp_opt_str(doc@, i as int) is None,
        },
{
    if i < doc.len() && doc[i] == '"' {
        match parse_string(doc, i) {
            Option::Some((s, j)) => Option::Some((Option::Some(s), j)),
            Option::None => Option::None,
        }
    } else {
        match match_lit(doc, i, "null") {
            Option::Some(j) => {
                proof {
                    reveal_strlit("null");
                }
                Option::Some((Option::None, j))
            },
            Option::None => Option::None,
        }
    }
}

// ------------------------------------------------------- nullable number
pub open spec fn enc_opt_u64(o: Option<u64>) -> Seq<char> {
    match o {
        Option::Some(n) => dec_seq(n as nat),
        Option::None => "null"@,
    }
}

pub open spec fn sp_opt_u64(doc: Seq<char>, i: int) -> Option<(Option<u64>, int)> {
    if 0 <= i < doc.len() && is_digit(doc[i]) {
        match sp_u64(doc, i) {
            Option::Some((v, j)) => Option::Some((Option::Some(v), j)),
            Option::None => Option::None,
        }
    } else {
        match sp_lit(doc, i, "null"@) {
            Option::Some(j) => Option::Some((Option::None, j)),
            Option::None => Option::None,
        }
    }
}

proof fn lemma_parse_opt_u64(doc: Seq<char>, i: int, o: Option<u64>)
    requires
        0 <= i,
        i + enc_opt_u64(o).len() <= doc.len(),
        doc.subrange(i, i + enc_opt_u64(o).len() as int) == enc_opt_u64(o),
        i + enc_opt_u64(o).len() == doc.len() || !is_digit(doc[i + enc_opt_u64(o).len() as int]),
    ensures
        sp_opt_u64(doc, i) == Option::Some((o, i + enc_opt_u64(o).len() as int)),
{
    reveal_strlit("null");
    let e = enc_opt_u64(o);
    let sub = doc.subrange(i, i + e.len() as int);
    match o {
        Option::Some(n) => {
            crate::jsontext::lemma_dec_seq_digits(n as nat);
            assert(e.len() >= 1);
            assert(sub[0] == doc[i]);
            assert(sub[0] == e[0]);
            assert(is_digit(doc[i]));
            lemma_parse_dec(doc, i, n);
        },
        Option::None => {
            assert(e.len() == 4);
            assert(sub[0] == doc[i]);
            assert(sub[0] == e[0]);
            assert(doc[i] == 'n');
            assert(!is_digit('n'));
            assert(sp_lit(doc, i, "null"@) == Option::Some(i + 4));
        },
    }
}

fn encode_opt_u64(o: &Option<u64>, out: &mut Vec<char>)
    ensures
        final(out)@ == old(out)@ + enc_opt_u64(*o),
{
    match o {
        Option::Some(n) => encode_u64(*n, out),
        Option::None => append_str(out, "null"),
    }
}

fn parse_opt_u64(doc: &Vec<char>, i: usize) -> (r: Option<(Option<u64>, usize)>)
    requires
        i <= doc@.len(),
    ensures
        match r {
            Option::Some((v, j)) => sp_opt_u64(doc@, i as int) == Option::Some((v, j as int)) && i
                < j <= doc@.len(),
            Option::None => sp_opt_u64(doc@, i as int) is None,
        },
{
    if i < doc.len() {
        let c = doc[i];
        if '0' <= c && c <= '9' {
            match parse_u64(doc, i) {
                Option::Some((v, j)) => {
                    return Option::Some((Option::Some(v), j));
                },
                Option::None => {
                    return Option::None;
                },
            }
        }
        proof {
            assert(!is_digit(doc@[i as int]));
        }
    }
    match match_lit(doc, i, "null") {
        Option::Some(j) => {
            proof {
                reveal_strlit("null");
            }
            Option::Some((Option::None, j))
        },
        Option::None => Option::None,
    }
}

// ------------------------------------------------------- bounded numbers
pub open spec fn sp_u32(doc: Seq<char>, i: int) -> Option<(u32, int)> {
    match sp_u64(doc, i) {
        Option::Some((v, j)) => if v <= u32::MAX {
            Option::Some((v as u32, j))
        } else {
            Option::None
        },
        Option::None => Option::None,
    }
}

pub open spec fn sp_u8(doc: Seq<char>, i: int) -> Option<(u8, int)> {
    match sp_u64(doc, i) {
        Option::Some((v, j)) => if v <= u8::MAX {
            Option::Some((v as u8, j))
        } else {
            Option::None
        },
        Option::None => Option::None,
    }
}

fn parse_u32(doc: &Vec<char>, i: usize) -> (r: Option<(u32, usize)>)
    requires
        i <= doc@.len(),
    ensures
        match r {
            Option::Some((v, j)) => sp_u32(doc@, i as int) == Option::Some((v, j as int)) && i < j
                <= doc@.len(),
            Option::None => sp_u32(doc@, i as int) is None,
        },
{
    match parse_u64(doc, i) {
        Option::Some((v, j)) => {
            if v <= 0xffff_ffffu64 {
                Option::Some((v as u32, j))
            } else {
                Option::None
            }
        },
        Option::None => Option::None,
    }
}

fn parse_u8(doc: &Vec<char>, i: usize) -> (r: Option<(u8, usize)>)
    requires
        i <= doc@.len(),
    ensures
        match r {
            Option::Some((v, j)) => sp_u8(doc@, i as int) == Option::Some((v, j as int)) && i < j
                <= doc@.len(),
            Option::None => sp_u8(doc@, i as int) is None,
        },
{
    match parse_u64(doc, i) {
        Option::Some((v, j)) => {
            if v <= 255u64 {
                Option::Some((v as u8, j))
            } else {
                Option::None
            }
        },
        Option::None => Option::None,
    }
}

proof fn lemma_parse_u32(doc: Seq<char>, i: int, n: u32)
    requires
        0 <= i,
        i + dec_seq(n as nat).len() <= doc.len(),
        doc.subrange(i, i + dec_seq(n as nat).len() as int) == dec_seq(n as nat),
        i + dec_seq(n as nat).len() == doc.len() || !is_digit(
            doc[i + dec_seq(n as nat).len() as int],
        ),
    ensures
        sp_u32(doc, i) == Option::Some((n, i + dec_seq(n as nat).len() as int)),
{
    lemma_parse_dec(doc, i, n as u64);
}

proof fn lemma_parse_u8(doc: Seq<char>, i: int, n: u8)
    requires
        0 <= i,
        i + dec_seq(n as nat).len() <= doc.len(),
        doc.subrange(i, i + dec_seq(n as nat).len() as int) == dec_seq(n as nat),
        i + dec_seq(n as nat).len() == doc.len() || !is_digit(
            doc[i + dec_seq(n as nat).len() as int],
        ),
    ensures
        sp_u8(doc, i) == Option::Some((n, i + dec_seq(n as nat).len() as int)),
{
    lemma_parse_dec(doc, i, n as u64);
}

// ------------------------------------------------------------- position
pub open spec fn enc_position(v: PositionV) -> Seq<char> {
    "{\"x\":"@ + enc_i32_seq(v.x as int) + ",\"y\":"@ + enc_i32_seq(v.y as int) + "}"@
}

pub open spec fn sp_position(doc: Seq<char>, i: int) -> Option<(PositionV, int)> {
    match sp_lit(doc, i, "{\"x\":"@) {
        Option::Some(i1) => match sp_i32(doc, i1) {
            Option::Some((x, i2)) => match sp_lit(doc, i2, ",\"y\":"@) {
                Option::Some(i3) => match sp_i32(doc, i3) {
                    Option::Some((y, i4)) => match sp_lit(doc, i4, "}"@) {
                        Option::Some(i5) => Option::Some((PositionV { x, y }, i5)),
                        Option::None => Option::None,
                    },
                    Option::None => Option::None,
                },
                Option::None => Option::None,
            },
            Option::None => Option::None,
        },
        Option::None => Option::None,
    }
}

proof fn lemma_parse_position(doc: Seq<char>, i: int, v: PositionV)
    requires
        0 <= i,
        i + enc_position(v).len() <= doc.len(),
        doc.subrange(i, i + enc_position(v).len() as int) == enc_position(v),
    ensures
        sp_position(doc, i) == Option::Some((v, i + enc_position(v).len() as int)),
{
    reveal_strlit("{\"x\":");
    reveal_strlit(",\"y\":");
    reveal_strlit("}");
    let l1 = "{\"x\":"@;
    let x = enc_i32_seq(v.x as int);
    let l2 = ",\"y\":"@;
    let y = enc_i32_seq(v.y as int);
    let l3 = "}"@;
    let e = enc_position(v);
    assert(e =~= l1 + (x + (l2 + (y + l3))));
    lemma_peel(doc, i, l1, x + (l2 + (y + l3)));
    let i1 = i + l1.len() as int;
    lemma_peel(doc, i1, x, l2 + (y + l3));
    lemma_next_char(doc, i1, x, l2 + (y + l3));
    assert(!is_digit(','));
    lemma_parse_i32(doc, i1, v.x);
    let i2 = i1 + x.len() as int;
    lemma_peel(doc, i2, l2, y + l3);
    let i3 = i2 + l2.len() as int;
    lemma_peel(doc, i3, y, l3);
    lemma_next_char(doc, i3, y, l3);
    assert(!is_digit('}'));
    lemma_parse_i32(doc, i3, v.y);
    let i4 = i3 + y.len() as int;
    assert(sp_lit(doc, i4, l3) == Option::Some(i4 + 1));
}

fn encode_position(v: &Position, out: &mut Vec<char>)
    ensures
        final(out)@ == old(out)@ + enc_position(v@),
{
    append_str(out, "{\"x\":");
    encode_i32(v.x, out);
    append_str(out, ",\"y\":");
    encode_i32(v.y, out);
    append_str(out, "}");
    proof {
        assert(final(out)@ =~= old(out)@ + enc_position(v@));
    }
}

fn parse_position(doc: &Vec<char>, i: usize) -> (r: Option<(Position, usize)>)
    requires
        i <= doc@.len(),
    ensures
        match r {
            Option::Some((v, j)) => sp_position(doc@, i as int) == Option::Some(
                (v@, j as int),
            ) && i < j <= doc@.len(),
            Option::None => sp_position(doc@, i as int) is None,
        },
{
    let i1 = match match_lit(doc, i, "{\"x\":") {
        Option::Some(j) => j,
        Option::None => {
            return Option::None;
        },
    };
    let (x, i2) = match parse_i32(doc, i1) {
        Option::Some(p) => p,
        Option::None => {
            return Option::None;
        },
    };
    let i3 = match match_lit(doc, i2, ",\"y\":") {
        Option::Some(j) => j,
        Option::None => {
            return Option::None;
        },
    };
    let (y, i4) = match parse_i32(doc, i3) {
        Option::Some(p) => p,
        Option::None => {
            return Option::None;
        },
    };
    let i5 = match match_lit(doc, i4, "}") {
        Option::Some(j) => j,
        Option::None => {
            return Option::None;
        },
    };
    Option::Some((Position { x, y }, i5))
}

// -------------------------------------------------------------- monitor
pub open spec fn enc_monitor(m: MonitorV) -> Seq<char> {
    "{\"name\":"@ + enc_str_seq(m.name) + ",\"description\":"@ + enc_opt_str(m.description)
        + ",\"enabled\":"@ + enc_bool_seq(m.enabled) + ",\"resolution\":"@ + enc_str_seq(
        m.resolution,
    ) + ",\"refresh_rate_mhz\":"@ + dec_seq(m.refresh_rate_mhz as nat) + ",\"position\":"@
        + enc_position(m.position) + ",\"scale_milli\":"@ + dec_seq(m.scale_milli as nat)
        + ",\"transform\":"@ + dec_seq(m.transform as nat) + ",\"mode\":"@ + enc_str_seq(m.mode)
        + "}"@
}

pub open spec fn sp_monitor(doc: Seq<char>, i: int) -> Option<(MonitorV, int)> {
    match sp_lit(doc, i, "{\"name\":"@) {
        Option::Some(i1) => match sp_str(doc, i1) {
            Option::Some((name, i2)) => match sp_lit(doc, i2, ",\"description\":"@) {
                Option::Some(i3) => match sp_opt_str(doc, i3) {
                    Option::Some((description, i4)) => match sp_lit(doc, i4, ",\"enabled\":"@) {
                        Option::Some(i5) => match sp_bool(doc, i5) {
                            Option::Some((enabled, i6)) => match sp_lit(
                                doc,
                                i6,
                                ",\"resolution\":"@,
                            ) {
                                Option::Some(i7) => match sp_str(doc, i7) {
                                    Option::Some((resolution, i8)) => match sp_lit(
                                        doc,
                                        i8,
                                        ",\"refresh_rate_mhz\":"@,
                                    ) {
                                        Option::Some(i9) => match sp_u32(doc, i9) {
                                            Option::Some((refresh_rate_mhz, i10)) => match sp_lit(
                                                doc,
                                                i10,
                                                ",\"position\":"@,
                                            ) {
                                                Option::Some(i11) => match sp_position(doc, i11) {
                                                    Option::Some((position, i12)) => match sp_lit(
                                                        doc,
                                                        i12,
                                                        ",\"scale_milli\":"@,
                                                    ) {
                                                        Option::Some(i13) => match sp_u32(
                                                            doc,
                                                            i13,
                                                        ) {
                                                            Option::Some(
                                                                (scale_milli, i14),
                                                            ) => match sp_lit(
                                                                doc,
                                                                i14,
                                                                ",\"transform\":"@,
                                                            ) {
                                                                Option::Some(i15) => match sp_u8(
                                                                    doc,
                                                                    i15,
                                                                ) {
                                                                    Option::Some(
                                                                        (transform, i16),
                                                                    ) => match sp_lit(
                                                                        doc,
                                                                        i16,
                                                                        ",\"mode\":"@,
                                                                    ) {
                                                                        Option::Some(
                                                                            i17,
                                                                        ) => match sp_str(
                                                                            doc,
                                                                            i17,
                                                                        ) {
                                                                            Option::Some(
                                                                                (mode, i18),
                                                                            ) => match sp_lit(
                                                                                doc,
                                                                                i18,
                                                                                "}"@,
                                                                            ) {
                                                                                Option::Some(
                                                                                    i19,
                                                                                ) => Option::Some(
                                                                                    (
                                                                                        MonitorV {
                                                                                            name,
                                                                                            description,
                                                                                            enabled,
                                                                                            resolution,
                                                                                            refresh_rate_mhz,
                                                                                            position,
                                                                                            scale_milli,
                                                                                            transform,
                                                                                            mode,
                                                                                        },
                                                                                        i19,
                                                                                    ),
                                                                                ),
                                                                                Option::None
                                                                                    => Option::None,
                                                                            },
                                                                            Option::None
                                                                                => Option::None,
                                                                        },
                                                                        Option::None
                                                                            => Option::None,
                                                                    },
                                                                    Option::None => Option::None,
                                                                },
                                                                Option::None => Option::None,
                                                            },
                                                            Option::None => Option::None,
                                                        },
                                                        Option::None => Option::None,
                                                    },
                                                    Option::None => Option::None,
                                                },
                                                Option::None => Option::None,
                                            },
                                            Option::None => Option::None,
                                        },
                                        Option::None => Option::None,
                                    },
                                    Option::None => Option::None,
                                },
                                Option::None => Option::None,
                            },
                            Option::None => Option::None,
                        },
                        Option::None => Option::None,
                    },
                    Option::None => Option::None,
                },
                Option::None => Option::None,
            },
            Option::None => Option::None,
        },
        Option::None => Option::None,
    }
}

#[verifier::rlimit(60)]
proof fn lemma_parse_monitor(doc: Seq<char>, i: int, m: MonitorV)
    requires
        0 <= i,
        i + enc_monitor(m).len() <= doc.len(),
        doc.subrange(i, i + enc_monitor(m).len() as int) == enc_monitor(m),
    ensures
        sp_monitor(doc, i) == Option::Some((m, i + enc_monitor(m).len() as int)),
{
    reveal_strlit("{\"name\":");
    reveal_strlit(",\"description\":");
    reveal_strlit(",\"enabled\":");
    reveal_strlit(",\"resolution\":");
    reveal_strlit(",\"refresh_rate_mhz\":");
    reveal_strlit(",\"position\":");
    reveal_strlit(",\"scale_milli\":");
    reveal_strlit(",\"transform\":");
    reveal_strlit(",\"mode\":");
    reveal_strlit("}");
    let p1 = "{\"name\":"@;
    let v1 = enc_str_seq(m.name);
    let p2 = ",\"description\":"@;
    let v2 = enc_opt_str(m.description);
    let p3 = ",\"enabled\":"@;
    let v3 = enc_bool_seq(m.enabled);
    let p4 = ",\"resolution\":"@;
    let v4 = enc_str_seq(m.resolution);
    let p5 = ",\"refresh_rate_mhz\":"@;
    let v5 = dec_seq(m.refresh_rate_mhz as nat);
    let p6 = ",\"position\":"@;
    let v6 = enc_position(m.position);
    let p7 = ",\"scale_milli\":"@;
    let v7 = dec_seq(m.scale_milli as nat);
    let p8 = ",\"transform\":"@;
    let v8 = dec_seq(m.transform as nat);
    let p9 = ",\"mode\":"@;
    let v9 = enc_str_seq(m.mode);
    let p10 = "}"@;
    let r9 = v9 + p10;
    let r8b = p9 + r9;
    let r8 = v8 + r8b;
    let r7b = p8 + r8;
    let r7 = v7 + r7b;
    let r6b = p7 + r7;
    let r6 = v6 + r6b;
    let r5b = p6 + r6;
    let r5 = v5 + r5b;
    let r4b = p5 + r5;
    let r4 = v4 + r4b;
    let r3b = p4 + r4;
    let r3 = v3 + r3b;
    let r2b = p3 + r3;
    let r2 = v2 + r2b;
    let r1b = p2 + r2;
    let r1 = v1 + r1b;
    let e = enc_monitor(m);
    assert(e =~= p1 + r1);
    lemma_peel(doc, i, p1, r1);
    let i1 = i + p1.len() as int;
    lemma_peel(doc, i1, v1, r1b);
    lemma_parse_str(doc, i1, m.name);
    let i2 = i1 + v1.len() as int;
    lemma_peel(doc, i2, p2, r2);
    let i3 = i2 + p2.len() as int;
    lemma_peel(doc, i3, v2, r2b);
    lemma_parse_opt_str(doc, i3, m.description);
    let i4 = i3 + v2.len() as int;
    lemma_peel(doc, i4, p3, r3);
    let i5 = i4 + p3.len() as int;
    lemma_peel(doc, i5, v3, r3b);
    lemma_parse_bool(doc, i5, m.enabled);
    let i6 = i5 + v3.len() as int;
    lemma_peel(doc, i6, p4, r4);
    let i7 = i6 + p4.len() as int;
    lemma_peel(doc, i7, v4, r4b);
    lemma_parse_str(doc, i7, m.resolution);
    let i8 = i7 + v4.len() as int;
    lemma_peel(doc, i8, p5, r5);
    let i9 = i8 + p5.len() as int;
    lemma_peel(doc, i9, v5, r5b);
    lemma_next_char(doc, i9, v5, r5b);
    assert(r5b[0] == p6[0]);
    assert(!is_digit(','));
    lemma_parse_u32(doc, i9, m.refresh_rate_mhz);
    let i10 = i9 + v5.len() as int;
    lemma_peel(doc, i10, p6, r6);
    let i11 = i10 + p6.len() as int;
    lemma_peel(doc, i11, v6, r6b);
    lemma_parse_position(doc, i11, m.position);
    let i12 = i11 + v6.len() as int;
    lemma_peel(doc, i12, p7, r7);
    let i13 = i12 + p7.len() as int;
    lemma_peel(doc, i13, v7, r7b);
    lemma_next_char(doc, i13, v7, r7b);
    assert(r7b[0] == p8[0]);
    lemma_parse_u32(doc, i13, m.scale_milli);
    let i14 = i13 + v7.len() as int;
    lemma_peel(doc, i14, p8, r8);
    let i15 = i14 + p8.len() as int;
    lemma_peel(doc, i15, v8, r8b);
    lemma_next_char(doc, i15, v8, r8b);
    assert(r8b[0] == p9[0]);
    lemma_parse_u8(doc, i15, m.transform);
    let i16 = i15 + v8.len() as int;
    lemma_peel(doc, i16, p9, r9);
    let i17 = i16 + p9.len() as int;
    lemma_peel(doc, i17, v9, p10);
    lemma_parse_str(doc, i17, m.mode);
    let i18 = i17 + v9.len() as int;
    assert(sp_lit(doc, i18, p10) == Option::Some(i18 + 1));
}

#[verifier::rlimit(100)]
fn encode_monitor(m: &Monitor, out: &mut Vec<char>)
    ensures
        final(out)@ == old(out)@ + enc_monitor(m@),
{
    append_str(out, "{\"name\":");
    encode_str(m.name.as_str(), out);
    append_str(out, ",\"description\":");
    encode_opt_str(&m.description, out);
    append_str(out, ",\"enabled\":");
    encode_bool(m.enabled, out);
    append_str(out, ",\"resolution\":");
    encode_str(m.resolution.as_str(), out);
    append_str(out, ",\"refresh_rate_mhz\":");
    encode_u64(m.refresh_rate_mhz as u64, out);
    append_str(out, ",\"position\":");
    encode_position(&m.position, out);
    append_str(out, ",\"scale_milli\":");
    encode_u64(m.scale_milli as u64, out);
    append_str(out, ",\"transform\":");
    encode_u64(m.transform as u64, out);
    append_str(out, ",\"mode\":");
    encode_str(m.mode.as_str(), out);
    append_str(out, "}");
    proof {
        assert(final(out)@ =~= old(out)@ + enc_monitor(m@));
    }
}

#[verifier::rlimit(100)]
fn parse_monitor(doc: &Vec<char>, i: usize) -> (r: Option<(Monitor, usize)>)
    requires
        i <= doc@.len(),
    ensures
        match r {
            Option::Some((v, j)) => sp_monitor(doc@, i as int) == Option::Some(
                (v@, j as int),
            ) && i < j <= doc@.len(),
            Option::None => sp_monitor(doc@, i as int) is None,
        },
{
    let i1 = match match_lit(doc, i, "{\"name\":") {
        Option::Some(j) => j,
        Option::None => {
            return Option::None;
        },
    };
    let (name, i2) = match parse_string(doc, i1) {
        Option::Some(p) => p,
        Option::None => {
            return Option::None;
        },
    };
    let i3 = match match_lit(doc, i2, ",\"description\":") {
        Option::Some(j) => j,
        Option::None => {
            return Option::None;
        },
    };
    let (description, i4) = match parse_opt_str(doc, i3) {
        Option::Some(p) => p,
        Option::None => {
            return Option::None;
        },
    };
    let i5 = match match_lit(doc, i4, ",\"enabled\":") {
        Option::Some(j) => j,
        Option::None => {
            return Option::None;
        },
    };
    let (enabled, i6) = match parse_bool(doc, i5) {
        Option::Some(p) => p,
        Option::None => {
            return Option::None;
        },
    };
    let i7 = match match_lit(doc, i6, ",\"resolution\":") {
        Option::Some(j) => j,
        Option::None => {
            return Option::None;
        },
    };
    let (resolution, i8) = match parse_string(doc, i7) {
        Option::Some(p) => p,
        Option::None => {
            return Option::None;
        },
    };
    let i9 = match match_lit(doc, i8, ",\"refresh_rate_mhz\":") {
        Option::Some(j) => j,
        Option::None => {
            return Option::None;
        },
    };
    let (refresh_rate_mhz, i10) = match parse_u32(doc, i9) {
        Option::Some(p) => p,
        Option::None => {
            return Option::None;
        },
    };
    let i11 = match match_lit(doc, i10, ",\"position\":") {
        Option::Some(j) => j,
        Option::None => {
            return Option::None;
        },
    };
    let (position, i12) = match parse_position(doc, i11) {
        Option::Some(p) => p,
        Option::None => {
            return Option::None;
        },
    };
    let i13 = match match_lit(doc, i12, ",\"scale_milli\":") {
        Option::Some(j) => j,
        Option::None => {
            return Option::None;
        },
    };
    let (scale_milli, i14) = match parse_u32(doc, i13) {
        Option::Some(p) => p,
        Option::None => {
            return Option::None;
        },
    };
    let i15 = match match_lit(doc, i14, ",\"transform\":") {
        Option::Some(j) => j,
        Option::None => {
            return Option::None;
        },
    };
    let (transform, i16) = match parse_u8(doc, i15) {
        Option::Some(p) => p,
        Option::None => {
            return Option::None;
        },
    };
    let i17 = match match_lit(doc, i16, ",\"mode\":") {
        Option::Some(j) => j,
        Option::None => {
            return Option::None;
        },
    };
    let (mode, i18) = match parse_string(doc, i17) {
        Option::Some(p) => p,
        Option::None => {
            return Option::None;
        },
    };
    let i19 = match match_lit(doc, i18, "}") {
        Option::Some(j) => j,
        Option::None => {
            return Option::None;
        },
    };
    Option::Some(
        (
            Monitor {
                name,
                description,
                enabled,
                resolution,
                refresh_rate_mhz,
                position,
                scale_milli,
                transform,
                mode,
            },
            i19,
        ),
    )
}

// ------------------------------------------------------------ workspace
pub open spec fn enc_workspace(w: WorkspaceV) -> Seq<char> {
    "{\"id\":"@ + dec_seq(w.id as nat) + ",\"monitor\":"@ + enc_str_seq(w.monitor)
        + ",\"is_default\":"@ + enc_bool_seq(w.is_default) + "}"@
}

pub open spec fn sp_workspace(doc: Seq<char>, i: int) -> Option<(WorkspaceV, int)> {
    match sp_lit(doc, i, "{\"id\":"@) {
        Option::Some(i1) => match sp_u8(doc, i1) {
            Option::Some((id, i2)) => match sp_lit(doc, i2, ",\"monitor\":"@) {
                Option::Some(i3) => match sp_str(doc, i3) {
                    Option::Some((monitor, i4)) => match sp_lit(doc, i4, ",\"is_default\":"@) {
                        Option::Some(i5) => match sp_bool(doc, i5) {
                            Option::Some((is_default, i6)) => match sp_lit(doc, i6, "}"@) {
                                Option::Some(i7) => Option::Some(
                                    (WorkspaceV { id, monitor, is_default }, i7),
                                ),
                                Option::None => Option::None,
                            },
                            Option::None => Option::None,
                        },
                        Option::None => Option::None,
                    },
                    Option::None => Option::None,
                },
                Option::None => Option::None,
            },
            Option::None => Option::None,
        },
        Option::None => Option::None,
    }
}

#[verifier::rlimit(60)]
proof fn lemma_parse_workspace(doc: Seq<char>, i: int, w: WorkspaceV)
    requires
        0 <= i,
        i + enc_workspace(w).len() <= doc.len(),
        doc.subrange(i, i + enc_workspace(w).len() as int) == enc_workspace(w),
    ensures
        sp_workspace(doc, i) == Option::Some((w, i + enc_workspace(w).len() as int)),
{
    reveal_strlit("{\"id\":");
    reveal_strlit(",\"monitor\":");
    reveal_strlit(",\"is_default\":");
    reveal_strlit("}");
    let p1 = "{\"id\":"@;
    let v1 = dec_seq(w.id as nat);
    let p2 = ",\"monitor\":"@;
    let v2 = enc_str_seq(w.monitor);
    let p3 = ",\"is_default\":"@;
    let v3 = enc_bool_seq(w.is_default);
    let p4 = "}"@;
    let r3 = v3 + p4;
    let r2b = p3 + r3;
    let r2 = v2 + r2b;
    let r1b = p2 + r2;
    let r1 = v1 + r1b;
    let e = enc_workspace(w);
    assert(e =~= p1 + r1);
    lemma_peel(doc, i, p1, r1);
    let i1 = i + p1.len() as int;
    lemma_peel(doc, i1, v1, r1b);
    lemma_next_char(doc, i1, v1, r1b);
    assert(r1b[0] == p2[0]);
    assert(!is_digit(','));
    lemma_parse_u8(doc, i1, w.id);
    let i2 = i1 + v1.len() as int;
    lemma_peel(doc, i2, p2, r2);
    let i3 = i2 + p2.len() as int;
    lemma_peel(doc, i3, v2, r2b);
    lemma_parse_str(doc, i3, w.monitor);
    let i4 = i3 + v2.len() as int;
    lemma_peel(doc, i4, p3, r3);
    let i5 = i4 + p3.len() as int;
    lemma_peel(doc, i5, v3, p4);
    lemma_parse_bool(doc, i5, w.is_default);
    let i6 = i5 + v3.len() as int;
    assert(sp_lit(doc, i6, p4) == Option::Some(i6 + 1));
}

fn encode_workspace(w: &Workspace, out: &mut Vec<char>)
    ensures
        final(out)@ == old(out)@ + enc_workspace(w@),
{
    append_str(out, "{\"id\":");
    encode_u64(w.id as u64, out);
    append_str(out, ",\"monitor\":");
    encode_str(w.monitor.as_str(), out);
    append_str(out, ",\"is_default\":");
    encode_bool(w.is_default, out);
    append_str(out, "}");
    proof {
        assert(final(out)@ =~= old(out)@ + enc_workspace(w@));
    }
}

fn parse_workspace(doc: &Vec<char>, i: usize) -> (r: Option<(Workspace, usize)>)
    requires
        i <= doc@.len(),
    ensures
        match r {
            Option::Some((v, j)) => sp_workspace(doc@, i as int) == Option::Some(
                (v@, j as int),
            ) && i < j <= doc@.len(),
            Option::None => sp_workspace(doc@, i as int) is None,
        },
{
    let i1 = match match_lit(doc, i, "{\"id\":") {
        Option::Some(j) => j,
        Option::None => {
            return Option::None;
        },
    };
    let (id, i2) = match parse_u8(doc, i1) {
        Option::Some(p) => p,
        Option::None => {
            return Option::None;
        },
    };
    let i3 = match match_lit(doc, i2, ",\"monitor\":") {
        Option::Some(j) => j,
        Option::None => {
            return Option::None;
        },
    };
    let (monitor, i4) = match parse_string(doc, i3) {
        Option::Some(p) => p,
        Option::None => {
            return Option::None;
        },
    };
    let i5 = match match_lit(doc, i4, ",\"is_default\":") {
        Option::Some(j) => j,
        Option::None => {
            return Option::None;
        },
    };
    let (is_default, i6) = match parse_bool(doc, i5) {
        Option::Some(p) => p,
        Option::None => {
            return Option::None;
        },
    };
    let i7 = match match_lit(doc, i6, "}") {
        Option::Some(j) => j,
        Option::None => {
            return Option::None;
        },
    };
    Option::Some((Workspace { id, monitor, is_default }, i7))
}

// ----------------------------------------------------------- lid switch
pub open spec fn enc_lid(l: LidSwitchV) -> Seq<char> {
    "{\"enabled\":"@ + enc_bool_seq(l.enabled) + ",\"monitor\":"@ + enc_str_seq(l.monitor)
        + ",\"on_close\":"@ + enc_str_seq(l.on_close) + ",\"on_open\":"@ + enc_str_seq(l.on_open)
        + "}"@
}

pub open spec fn enc_opt_lid(o: Option<LidSwitchV>) -> Seq<char> {
    match o {
        Option::Some(l) => enc_lid(l),
        Option::None => "null"@,
    }
}

pub open spec fn sp_lid(doc: Seq<char>, i: int) -> Option<(LidSwitchV, int)> {
    match sp_lit(doc, i, "{\"enabled\":"@) {
        Option::Some(i1) => match sp_bool(doc, i1) {
            Option::Some((enabled, i2)) => match sp_lit(doc, i2, ",\"monitor\":"@) {
                Option::Some(i3) => match sp_str(doc, i3) {
                    Option::Some((monitor, i4)) => match sp_lit(doc, i4, ",\"on_close\":"@) {
                        Option::Some(i5) => match sp_str(doc, i5) {
                            Option::Some((on_close, i6)) => match sp_lit(
                                doc,
                                i6,
                                ",\"on_open\":"@,
                            ) {
                                Option::Some(i7) => match sp_str(doc, i7) {
                                    Option::Some((on_open, i8)) => match sp_lit(doc, i8, "}"@) {
                                        Option::Some(i9) => Option::Some(
                                            (
                                                LidSwitchV { enabled, monitor, on_close, on_open },
                                                i9,
                                            ),
                                        ),
                                        Option::None => Option::None,
                                    },
                                    Option::None => Option::None,
                                },
                                Option::None => Option::None,
                            },
                            Option::None => Option::None,
                        },
                        Option::None => Option::None,
                    },
                    Option::None => Option::None,
                },
                Option::None => Option::None,
            },
            Option::None => Option::None,
        },
        Option::None => Option::None,
    }
}

pub open spec fn sp_opt_lid(doc: Seq<char>, i: int) -> Option<(Option<LidSwitchV>, int)> {
    if 0 <= i < doc.len() && doc[i] == '{' {
        match sp_lid(doc, i) {
            Option::Some((l, j)) => Option::Some((Option::Some(l), j)),
            Option::None => Option::None,
        }
    } else {
        match sp_lit(doc, i, "null"@) {
            Option::Some(j) => Option::Some((Option::None, j)),
            Option::None => Option::None,
        }
    }
}

#[verifier::rlimit(60)]
proof fn lemma_parse_lid(doc: Seq<char>, i: int, l: LidSwitchV)
    requires
        0 <= i,
        i + enc_lid(l).len() <= doc.len(),
        doc.subrange(i, i + enc_lid(l).len() as int) == enc_lid(l),
    ensures
        sp_lid(doc, i) == Option::Some((l, i + enc_lid(l).len() as int)),
{
    reveal_strlit("{\"enabled\":");
    reveal_strlit(",\"monitor\":");
    reveal_strlit(",\"on_close\":");
    reveal_strlit(",\"on_open\":");
    reveal_strlit("}");
    let p1 = "{\"enabled\":"@;
    let v1 = enc_bool_seq(l.enabled);
    let p2 = ",\"monitor\":"@;
    let v2 = enc_str_seq(l.monitor);
    let p3 = ",\"on_close\":"@;
    let v3 = enc_str_seq(l.on_close);
    let p4 = ",\"on_open\":"@;
    let v4 = enc_str_seq(l.on_open);
    let p5 = "}"@;
    let r4 = v4 + p5;
    let r3b = p4 + r4;
    let r3 = v3 + r3b;
    let r2b = p3 + r3;
    let r2 = v2 + r2b;
    let r1b = p2 + r2;
    let r1 = v1 + r1b;
    let e = enc_lid(l);
    assert(e =~= p1 + r1);
    lemma_peel(doc, i, p1, r1);
    let i1 = i + p1.len() as int;
    lemma_peel(doc, i1, v1, r1b);
    lemma_parse_bool(doc, i1, l.enabled);
    let i2 = i1 + v1.len() as int;
    lemma_peel(doc, i2, p2, r2);
    let i3 = i2 + p2.len() as int;
    lemma_peel(doc, i3, v2, r2b);
    lemma_parse_str(doc, i3, l.monitor);
    let i4 = i3 + v2.len() as int;
    lemma_peel(doc, i4, p3, r3);
    let i5 = i4 + p3.len() as int;
    lemma_peel(doc, i5, v3, r3b);
    lemma_parse_str(doc, i5, l.on_close);
    let i6 = i5 + v3.len() as int;
    lemma_peel(doc, i6, p4, r4);
    let i7 = i6 + p4.len() as int;
    lemma_peel(doc, i7, v4, p5);
    lemma_parse_str(doc, i7, l.on_open);
    let i8 = i7 + v4.len() as int;
    assert(sp_lit(doc, i8, p5) == Option::Some(i8 + 1));
}

proof fn lemma_parse_opt_lid(doc: Seq<char>, i: int, o: Option<LidSwitchV>)
    requires
        0 <= i,
        i + enc_opt_lid(o).len() <= doc.len(),
        doc.subrange(i, i + enc_opt_lid(o).len() as int) == enc_opt_lid(o),
    ensures
        sp_opt_lid(doc, i) == Option::Some((o, i + enc_opt_lid(o).len() as int)),
{
    reveal_strlit("null");
    reveal_strlit("{\"enabled\":");
    let e = enc_opt_lid(o);
    let sub = doc.subrange(i, i + e.len() as int);
    match o {
        Option::Some(l) => {
            let p1 = "{\"enabled\":"@;
            assert(e.len() >= p1.len()) by {
                assert(enc_lid(l) == p1 + (enc_bool_seq(l.enabled) + (",\"monitor\":"@
                    + (enc_str_seq(l.monitor) + (",\"on_close\":"@ + (enc_str_seq(l.on_close) + (
                ",\"on_open\":"@ + (enc_str_seq(l.on_open) + "}"@)))))))) by {
                    assert(enc_lid(l) =~= p1 + (enc_bool_seq(l.enabled) + (",\"monitor\":"@
                        + (enc_str_seq(l.monitor) + (",\"on_close\":"@ + (enc_str_seq(l.on_close)
                        + (",\"on_open\":"@ + (enc_str_seq(l.on_open) + "}"@))))))));
                }
            }
            assert(sub[0] == doc[i]);
            assert(sub[0] == e[0]);
            assert(e[0] == p1[0]) by {
                assert(enc_lid(l) =~= p1 + (enc_bool_seq(l.enabled) + (",\"monitor\":"@
                    + (enc_str_seq(l.monitor) + (",\"on_close\":"@ + (enc_str_seq(l.on_close) + (
                ",\"on_open\":"@ + (enc_str_seq(l.on_open) + "}"@))))))));
            }
            assert(doc[i] == '{');
            lemma_parse_lid(doc, i, l);
        },
        Option::None => {
            assert(e.len() == 4);
            assert(sub[0] == doc[i]);
            assert(sub[0] == e[0]);
            assert(doc[i] == 'n');
            assert(sp_lit(doc, i, "null"@) == Option::Some(i + 4));
        },
    }
}

fn encode_opt_lid(o: &Option<LidSwitch>, out: &mut Vec<char>)
    ensures
        final(out)@ == old(out)@ + enc_opt_lid(
            match *o {
                Option::Some(l) => Option::Some(l@),
                Option::None => Option::<LidSwitchV>::None,
            },
        ),
{
    match o {
        Option::Some(l) => {
            append_str(out, "{\"enabled\":");
            encode_bool(l.enabled, out);
            append_str(out, ",\"monitor\":");
            encode_str(l.monitor.as_str(), out);
            append_str(out, ",\"on_close\":");
            encode_str(l.on_close.as_str(), out);
            append_str(out, ",\"on_open\":");
            encode_str(l.on_open.as_str(), out);
            append_str(out, "}");
            proof {
                assert(final(out)@ =~= old(out)@ + enc_lid(l@));
            }
        },
        Option::None => append_str(out, "null"),
    }
}

fn parse_opt_lid(doc: &Vec<char>, i: usize) -> (r: Option<(Option<LidSwitch>, usize)>)
    requires
        i <= doc@.len(),
    ensures
        match r {
            Option::Some((v, j)) => sp_opt_lid(doc@, i as int) == Option::Some(
                (
                    match v {
                        Option::Some(l) => Option::Some(l@),
                        Option::None => Option::<LidSwitchV>::None,
                    },
                    j as int,
                ),
            ) && i < j <= doc@.len(),
            Option::None => sp_opt_lid(doc@, i as int) is None,
        },
{
    if i < doc.len() && doc[i] == '{' {
        let i1 = match match_lit(doc, i, "{\"enabled\":") {
            Option::Some(j) => j,
            Option::None => {
                return Option::None;
            },
        };
        let (enabled, i2) = match parse_bool(doc, i1) {
            Option::Some(p) => p,
            Option::None => {
                return Option::None;
            },
        };
        let i3 = match match_lit(doc, i2, ",\"monitor\":") {
            Option::Some(j) => j,
            Option::None => {
                return Option::None;
            },
        };
        let (monitor, i4) = match parse_string(doc, i3) {
            Option::Some(p) => p,
            Option::None => {
                return Option::None;
            },
        };
        let i5 = match match_lit(doc, i4, ",\"on_close\":") {
            Option::Some(j) => j,
            Option::None => {
                return Option::None;
            },
        };
        let (on_close, i6) = match parse_string(doc, i5) {
            Option::Some(p) => p,
            Option::None => {
                return Option::None;
            },
        };
        let i7 = match match_lit(doc, i6, ",\"on_open\":") {
            Option::Some(j) => j,
            Option::None => {
                return Option::None;
            },
        };
        let (on_open, i8) = match parse_string(doc, i7) {
            Option::Some(p) => p,
            Option::None => {
                return Option::None;
            },
        };
        let i9 = match match_lit(doc, i8, "}") {
            Option::Some(j) => j,
            Option::None => {
                return Option::None;
            },
        };
        Option::Some((Option::Some(LidSwitch { enabled, monitor, on_close, on_open }), i9))
    } else {
        match match_lit(doc, i, "null") {
            Option::Some(j) => {
                proof {
                    reveal_strlit("null");
                }
                Option::Some((Option::None, j))
            },
            Option::None => Option::None,
        }
    }
}

// ---------------------------------------------------------- monitor list
pub open spec fn mons_view(s: Seq<Monitor>) -> Seq<MonitorV> {
    Seq::new(s.len(), |i: int| s[i]@)
}

pub open spec fn ws_view(s: Seq<Workspace>) -> Seq<WorkspaceV> {
    Seq::new(s.len(), |i: int| s[i]@)
}

/// The items of a monitor array after the opening bracket, including the
/// closing bracket.
pub open spec fn enc_mon_items(ms: Seq<MonitorV>) -> Seq<char>
    decreases ms.len(),
{
    if ms.len() == 0 {
        seq![']']
    } else if ms.len() == 1 {
        enc_monitor(ms[0]) + seq![']']
    } else {
        enc_monitor(ms[0]) + seq![','] + enc_mon_items(ms.drop_first())
    }
}

pub open spec fn enc_mon_array(ms: Seq<MonitorV>) -> Seq<char> {
    seq!['['] + enc_mon_items(ms)
}

/// Scan one or more comma-separated monitors up to and including the
/// closing bracket; `fuel` bounds the recursion.
pub open spec fn sp_mon_list(doc: Seq<char>, i: int, fuel: nat) -> Option<(Seq<MonitorV>, int)>
    decreases fuel,
{
    if fuel == 0 {
        Option::None
    } else {
        match sp_monitor(doc, i) {
            Option::Some((m, j)) => if j < doc.len() && doc[j] == ',' {
                match sp_mon_list(doc, j + 1, (fuel - 1) as nat) {
                    Option::Some((ms, k)) => Option::Some((seq![m] + ms, k)),
                    Option::None => Option::None,
                }
            } else if j < doc.len() && doc[j] == ']' {
                Option::Some((seq![m], j + 1))
            } else {
                Option::None
            },
            Option::None => Option::None,
        }
    }
}

pub open spec fn sp_mon_array(doc: Seq<char>, i: int, fuel: nat) -> Option<(Seq<MonitorV>, int)> {
    if 0 <= i < doc.len() && doc[i] == '[' {
        if i + 1 < doc.len() && doc[i + 1] == ']' {
            Option::Some((Seq::<MonitorV>::empty(), i + 2))
        } else {
            sp_mon_list(doc, i + 1, fuel)
        }
    } else {
        Option::None
    }
}

proof fn lemma_enc_monitor_head(m: MonitorV)
    ensures
        enc_monitor(m).len() >= 8,
        enc_monitor(m)[0] == '{',
{
    reveal_strlit("{\"name\":");
    assert("{\"name\":"@.len() == 8);
    assert(enc_monitor(m)[0] == '{');
}

#[verifier::rlimit(100)]
proof fn lemma_mon_items(doc: Seq<char>, i: int, ms: Seq<MonitorV>, fuel: nat)
    requires
        ms.len() >= 1,
        fuel >= ms.len(),
        0 <= i,
        i + enc_mon_items(ms).len() <= doc.len(),
        doc.subrange(i, i + enc_mon_items(ms).len() as int) == enc_mon_items(ms),
    ensures
        sp_mon_list(doc, i, fuel) == Option::Some((ms, i + enc_mon_items(ms).len() as int)),
    decreases ms.len(),
{
    let m0 = ms[0];
    let e0 = enc_monitor(m0);
    let e = enc_mon_items(ms);
    if ms.len() == 1 {
        assert(e =~= e0 + seq![']']);
        lemma_peel(doc, i, e0, seq![']']);
        lemma_parse_monitor(doc, i, m0);
        lemma_next_char(doc, i, e0, seq![']']);
        let j = i + e0.len() as int;
        assert(doc[j] == ']');
        assert(seq![m0] =~= ms);
    } else {
        let rest = ms.drop_first();
        let er = enc_mon_items(rest);
        assert(e =~= e0 + (seq![','] + er));
        lemma_peel(doc, i, e0, seq![','] + er);
        lemma_parse_monitor(doc, i, m0);
        lemma_next_char(doc, i, e0, seq![','] + er);
        let j = i + e0.len() as int;
        assert(doc[j] == ',');
        lemma_peel(doc, j, seq![','], er);
        lemma_mon_items(doc, j + 1, rest, (fuel - 1) as nat);
        assert(seq![m0] + rest =~= ms);
    }
}

#[verifier::rlimit(60)]
proof fn lemma_mon_array(doc: Seq<char>, i: int, ms: Seq<MonitorV>, fuel: nat)
    requires
        fuel >= ms.len(),
        0 <= i,
        i + enc_mon_array(ms).len() <= doc.len(),
        doc.subrange(i, i + enc_mon_array(ms).len() as int) == enc_mon_array(ms),
    ensures
        sp_mon_array(doc, i, fuel) == Option::Some((ms, i + enc_mon_array(ms).len() as int)),
{
    let e = enc_mon_array(ms);
    let sub = doc.subrange(i, i + e.len() as int);
    assert(sub[0] == doc[i]);
    assert(sub[0] == e[0]);
    assert(doc[i] == '[');
    lemma_peel(doc, i, seq!['['], enc_mon_items(ms));
    if ms.len() == 0 {
        assert(enc_mon_items(ms) == seq![']']);
        assert(sub[1] == doc[i + 1]);
        assert(sub[1] == e[1]);
        assert(doc[i + 1] == ']');
    } else {
        lemma_enc_monitor_head(ms[0]);
        assert(sub[1] == doc[i + 1]);
        assert(e[1] == enc_mon_items(ms)[0]);
        assert(enc_mon_items(ms)[0] == enc_monitor(ms[0])[0]);
        assert(doc[i + 1] == '{');
        lemma_mon_items(doc, i + 1, ms, fuel);
    }
}

fn encode_mon_items(ms: &Vec<Monitor>, k: usize, out: &mut Vec<char>)
    requires
        k <= ms@.len(),
    ensures
        final(out)@ == old(out)@ + enc_mon_items(mons_view(ms@).skip(k as int)),
    decreases ms@.len() - k,
{
    let ghost mv = mons_view(ms@);
    let n = ms.len();
    if k == n {
        out.push(']');
        proof {
            assert(mv.skip(k as int) =~= Seq::<MonitorV>::empty());
            assert(final(out)@ =~= old(out)@ + enc_mon_items(mv.skip(k as int)));
        }
    } else if k == n - 1 {
        encode_monitor(&ms[k], out);
        out.push(']');
        proof {
            assert(mv.skip(k as int).len() == 1);
            assert(mv.skip(k as int)[0] == mv[k as int]);
            assert(final(out)@ =~= old(out)@ + enc_mon_items(mv.skip(k as int)));
        }
    } else {
        encode_monitor(&ms[k], out);
        out.push(',');
        encode_mon_items(ms, k + 1, out);
        proof {
            assert(mv.skip(k as int).len() >= 2);
            assert(mv.skip(k as int)[0] == mv[k as int]);
            assert(mv.skip(k as int).drop_first() =~= mv.skip(k + 1));
            assert(final(out)@ =~= old(out)@ + enc_mon_items(mv.skip(k as int)));
        }
    }
}

fn encode_monitors(ms: &Vec<Monitor>, out: &mut Vec<char>)
    ensures
        final(out)@ == old(out)@ + enc_mon_array(mons_view(ms@)),
{
    out.push('[');
    encode_mon_items(ms, 0, out);
    proof {
        assert(mons_view(ms@).skip(0) =~= mons_view(ms@));
        assert(final(out)@ =~= old(out)@ + enc_mon_array(mons_view(ms@)));
    }
}

fn parse_mon_list(doc: &Vec<char>, i: usize, fuel: usize) -> (r: Option<(Vec<Monitor>, usize)>)
    requires
        i <= doc@.len(),
    ensures
        match r {
            Option::Some((v, j)) => sp_mon_list(doc@, i as int, fuel as nat) == Option::Some(
                (mons_view(v@), j as int),
            ) && i < j <= doc@.len(),
            Option::None => sp_mon_list(doc@, i as int, fuel as nat) is None,
        },
    decreases fuel,
{
    if fuel == 0 {
        return Option::None;
    }
    let (m, j) = match parse_monitor(doc, i) {
        Option::Some(p) => p,
        Option::None => {
            return Option::None;
        },
    };
    if j < doc.len() && doc[j] == ',' {
        match parse_mon_list(doc, j + 1, fuel - 1) {
            Option::Some((mut v, k)) => {
                v.insert(0, m);
                proof {
                    assert(mons_view(v@) =~= seq![m@] + mons_view(v@).drop_first());
                }
                Option::Some((v, k))
            },
            Option::None => Option::None,
        }
    } else if j < doc.len() && doc[j] == ']' {
        let mut v: Vec<Monitor> = Vec::new();
        v.push(m);
        proof {
            assert(mons_view(v@) =~= seq![m@]);
        }
        Option::Some((v, j + 1))
    } else {
        Option::None
    }
}

fn parse_mon_array(doc: &Vec<char>, i: usize, fuel: usize) -> (r: Option<(Vec<Monitor>, usize)>)
    requires
        i <= doc@.len(),
    ensures
        match r {
            Option::Some((v, j)) => sp_mon_array(doc@, i as int, fuel as nat) == Option::Some(
                (mons_view(v@), j as int),
            ) && i < j <= doc@.len(),
            Option::None => sp_mon_array(doc@, i as int, fuel as nat) is None,
        },
{
    if i < doc.len() && doc[i] == '[' {
        if i + 1 < doc.len() && doc[i + 1] == ']' {
            let v: Vec<Monitor> = Vec::new();
            proof {
                assert(mons_view(v@) =~= Seq::<MonitorV>::empty());
            }
            Option::Some((v, i + 2))
        } else {
            parse_mon_list(doc, i + 1, fuel)
        }
    } else {
        Option::None
    }
}

// -------------------------------------------------------- workspace list
pub open spec fn enc_ws_items(ws: Seq<WorkspaceV>) -> Seq<char>
    decreases ws.len(),
{
    if ws.len() == 0 {
        seq![']']
    } else if ws.len() == 1 {
        enc_workspace(ws[0]) + seq![']']
    } else {
        enc_workspace(ws[0]) + seq![','] + enc_ws_items(ws.drop_first())
    }
}

pub open spec fn enc_ws_array(ws: Seq<WorkspaceV>) -> Seq<char> {
    seq!['['] + enc_ws_items(ws)
}

pub open spec fn sp_ws_list(doc: Seq<char>, i: int, fuel: nat) -> Option<(Seq<WorkspaceV>, int)>
    decreases fuel,
{
    if fuel == 0 {
        Option::None
    } else {
        match sp_workspace(doc, i) {
            Option::Some((w, j)) => if j < doc.len() && doc[j] == ',' {
                match sp_ws_list(doc, j + 1, (fuel - 1) as nat) {
                    Option::Some((ws, k)) => Option::Some((seq![w] + ws, k)),
                    Option::None => Option::None,
                }
            } else if j < doc.len() && doc[j] == ']' {
                Option::Some((seq![w], j + 1))
            } else {
                Option::None
            },
            Option::None => Option::None,
        }
    }
}

pub open spec fn sp_ws_array(doc: Seq<char>, i: int, fuel: nat) -> Option<(Seq<WorkspaceV>, int)> {
    if 0 <= i < doc.len() && doc[i] == '[' {
        if i + 1 < doc.len() && doc[i + 1] == ']' {
            Option::Some((Seq::<WorkspaceV>::empty(), i + 2))
        } else {
            sp_ws_list(doc, i + 1, fuel)
        }
    } else {
        Option::None
    }
}

proof fn lemma_enc_workspace_head(w: WorkspaceV)
    ensures
        enc_workspace(w).len() >= 6,
        enc_workspace(w)[0] == '{',
{
    reveal_strlit("{\"id\":");
    assert("{\"id\":"@.len() == 6);
    assert(enc_workspace(w)[0] == '{');
}

#[verifier::rlimit(100)]
proof fn lemma_ws_items(doc: Seq<char>, i: int, ws: Seq<WorkspaceV>, fuel: nat)
    requires
        ws.len() >= 1,
        fuel >= ws.len(),
        0 <= i,
        i + enc_ws_items(ws).len() <= doc.len(),
        doc.subrange(i, i + enc_ws_items(ws).len() as int) == enc_ws_items(ws),
    ensures
        sp_ws_list(doc, i, fuel) == Option::Some((ws, i + enc_ws_items(ws).len() as int)),
    decreases ws.len(),
{
    let w0 = ws[0];
    let e0 = enc_workspace(w0);
    let e = enc_ws_items(ws);
    if ws.len() == 1 {
        assert(e =~= e0 + seq![']']);
        lemma_peel(doc, i, e0, seq![']']);
        lemma_parse_workspace(doc, i, w0);
        lemma_next_char(doc, i, e0, seq![']']);
        let j = i + e0.len() as int;
        assert(doc[j] == ']');
        assert(seq![w0] =~= ws);
    } else {
        let rest = ws.drop_first();
        let er = enc_ws_items(rest);
        assert(e =~= e0 + (seq![','] + er));
        lemma_peel(doc, i, e0, seq![','] + er);
        lemma_parse_workspace(doc, i, w0);
        lemma_next_char(doc, i, e0, seq![','] + er);
        let j = i + e0.len() as int;
        assert(doc[j] == ',');
        lemma_peel(doc, j, seq![','], er);
        lemma_ws_items(doc, j + 1, rest, (fuel - 1) as nat);
        assert(seq![w0] + rest =~= ws);
    }
}

#[verifier::rlimit(60)]
proof fn lemma_ws_array(doc: Seq<char>, i: int, ws: Seq<WorkspaceV>, fuel: nat)
    requires
        fuel >= ws.len(),
        0 <= i,
        i + enc_ws_array(ws).len() <= doc.len(),
        doc.subrange(i, i + enc_ws_array(ws).len() as int) == enc_ws_array(ws),
    ensures
        sp_ws_array(doc, i, fuel) == Option::Some((ws, i + enc_ws_array(ws).len() as int)),
{
    let e = enc_ws_array(ws);
    let sub = doc.subrange(i, i + e.len() as int);
    assert(sub[0] == doc[i]);
    assert(sub[0] == e[0]);
    assert(doc[i] == '[');
    lemma_peel(doc, i, seq!['['], enc_ws_items(ws));
    if ws.len() == 0 {
        assert(enc_ws_items(ws) == seq![']']);
        assert(sub[1] == doc[i + 1]);
        assert(sub[1] == e[1]);
        assert(doc[i + 1] == ']');
    } else {
        lemma_enc_workspace_head(ws[0]);
        assert(sub[1] == doc[i + 1]);
        assert(e[1] == enc_ws_items(ws)[0]);
        assert(enc_ws_items(ws)[0] == enc_workspace(ws[0])[0]);
        assert(doc[i + 1] == '{');
        lemma_ws_items(doc, i + 1, ws, fuel);
    }
}

fn encode_ws_items(ws: &Vec<Workspace>, k: usize, out: &mut Vec<char>)
    requires
        k <= ws@.len(),
    ensures
        final(out)@ == old(out)@ + enc_ws_items(ws_view(ws@).skip(k as int)),
    decreases ws@.len() - k,
{
    let ghost wv = ws_view(ws@);
    let n = ws.len();
    if k == n {
        out.push(']');
        proof {
            assert(wv.skip(k as int) =~= Seq::<WorkspaceV>::empty());
            assert(final(out)@ =~= old(out)@ + enc_ws_items(wv.skip(k as int)));
        }
    } else if k == n - 1 {
        encode_workspace(&ws[k], out);
        out.push(']');
        proof {
            assert(wv.skip(k as int).len() == 1);
            assert(wv.skip(k as int)[0] == wv[k as int]);
            assert(final(out)@ =~= old(out)@ + enc_ws_items(wv.skip(k as int)));
        }
    } else {
        encode_workspace(&ws[k], out);
        out.push(',');
        encode_ws_items(ws, k + 1, out);
        proof {
            assert(wv.skip(k as int).len() >= 2);
            assert(wv.skip(k as int)[0] == wv[k as int]);
            assert(wv.skip(k as int).drop_first() =~= wv.skip(k + 1));
            assert(final(out)@ =~= old(out)@ + enc_ws_items(wv.skip(k as int)));
        }
    }
}

fn encode_workspaces(ws: &Vec<Workspace>, out: &mut Vec<char>)
    ensures
        final(out)@ == old(out)@ + enc_ws_array(ws_view(ws@)),
{
    out.push('[');
    encode_ws_items(ws, 0, out);
    proof {
        assert(ws_view(ws@).skip(0) =~= ws_view(ws@));
        assert(final(out)@ =~= old(out)@ + enc_ws_array(ws_view(ws@)));
    }
}

fn parse_ws_list(doc: &Vec<char>, i: usize, fuel: usize) -> (r: Option<(Vec<Workspace>, usize)>)
    requires
        i <= doc@.len(),
    ensures
        match r {
            Option::Some((v, j)) => sp_ws_list(doc@, i as int, fuel as nat) == Option::Some(
                (ws_view(v@), j as int),
            ) && i < j <= doc@.len(),
            Option::None => sp_ws_list(doc@, i as int, fuel as nat) is None,
        },
    decreases fuel,
{
    if fuel == 0 {
        return Option::None;
    }
    let (w, j) = match parse_workspace(doc, i) {
        Option::Some(p) => p,
        Option::None => {
            return Option::None;
        },
    };
    if j < doc.len() && doc[j] == ',' {
        match parse_ws_list(doc, j + 1, fuel - 1) {
            Option::Some((mut v, k)) => {
                v.insert(0, w);
                proof {
                    assert(ws_view(v@) =~= seq![w@] + ws_view(v@).drop_first());
                }
                Option::Some((v, k))
            },
            Option::None => Option::None,
        }
    } else if j < doc.len() && doc[j] == ']' {
        let mut v: Vec<Workspace> = Vec::new();
        v.push(w);
        proof {
            assert(ws_view(v@) =~= seq![w@]);
        }
        Option::Some((v, j + 1))
    } else {
        Option::None
    }
}

fn parse_ws_array(doc: &Vec<char>, i: usize, fuel: usize) -> (r: Option<(Vec<Workspace>, usize)>)
    requires
        i <= doc@.len(),
    ensures
        match r {
            Option::Some((v, j)) => sp_ws_array(doc@, i as int, fuel as nat) == Option::Some(
                (ws_view(v@), j as int),
            ) && i < j <= doc@.len(),
            Option::None => sp_ws_array(doc@, i as int, fuel as nat) is None,
        },
{
    if i < doc.len() && doc[i] == '[' {
        if i + 1 < doc.len() && doc[i + 1] == ']' {
            let v: Vec<Workspace> = Vec::new();
            proof {
                assert(ws_view(v@) =~= Seq::<WorkspaceV>::empty());
            }
            Option::Some((v, i + 2))
        } else {
            parse_ws_list(doc, i + 1, fuel)
        }
    } else {
        Option::None
    }
}

// -------------------------------------------------------------- profile
/// The canonical text of a whole profile document.
pub open spec fn enc_profile_doc(p: ProfileV) -> Seq<char> {
    "{\"name\":"@ + (enc_str_seq(p.name) + (",\"description\":"@ + (enc_opt_str(p.description) + (
    ",\"monitors\":"@ + (enc_mon_array(p.monitors) + (",\"workspaces\":"@ + (enc_ws_array(
        p.workspaces,
    ) + (",\"lid_switch\":"@ + (enc_opt_lid(p.lid_switch) + "}"@)))))))))
}

pub open spec fn sp_profile_obj(doc: Seq<char>, i: int, fuel: nat) -> Option<(ProfileV, int)> {
    match sp_lit(doc, i, "{\"name\":"@) {
        Option::Some(i1) => match sp_str(doc, i1) {
            Option::Some((name, i2)) => match sp_lit(doc, i2, ",\"description\":"@) {
                Option::Some(i3) => match sp_opt_str(doc, i3) {
                    Option::Some((description, i4)) => match sp_lit(doc, i4, ",\"monitors\":"@) {
                        Option::Some(i5) => match sp_mon_array(doc, i5, fuel) {
                            Option::Some((monitors, i6)) => match sp_lit(
                                doc,
                                i6,
                                ",\"workspaces\":"@,
                            ) {
                                Option::Some(i7) => match sp_ws_array(doc, i7, fuel) {
                                    Option::Some((workspaces, i8)) => match sp_lit(
                                        doc,
                                        i8,
                                        ",\"lid_switch\":"@,
                                    ) {
                                        Option::Some(i9) => match sp_opt_lid(doc, i9) {
                                            Option::Some((lid_switch, i10)) => match sp_lit(
                                                doc,
                                                i10,
                                                "}"@,
                                            ) {
                                                Option::Some(i11) => Option::Some(
                                                    (
                                                        ProfileV {
                                                            name,
                                                            description,
                                                            monitors,
                                                            workspaces,
                                                            lid_switch,
                                                        },
                                                        i11,
                                                    ),
                                                ),
                                                Option::None => Option::None,
                                            },
                                            Option::None => Option::None,
                                        },
                                        Option::None => Option::None,
                                    },
                                    Option::None => Option::None,
                                },
                                Option::None => Option::None,
                            },
                            Option::None => Option::None,
                        },
                        Option::None => Option::None,
                    },
                    Option::None => Option::None,
                },
                Option::None => Option::None,
            },
            Option::None => Option::None,
        },
        Option::None => Option::None,
    }
}

/// What a whole document means: the profile whose canonical text it is,
/// scanned from the start with the document's length as fuel, consuming
/// everything.
pub open spec fn sp_profile_doc(doc: Seq<char>) -> Option<ProfileV> {
    match sp_profile_obj(doc, 0, doc.len() as nat) {
        Option::Some((p, j)) => if j == doc.len() {
            Option::Some(p)
        } else {
            Option::None
        },
        Option::None => Option::None,
    }
}

#[verifier::rlimit(100)]
proof fn lemma_parse_profile_tail(
    doc: Seq<char>,
    i6: int,
    ws: Seq<WorkspaceV>,
    lid: Option<LidSwitchV>,
    fuel: nat,
)
    requires
        fuel >= ws.len(),
        0 <= i6,
        i6 + (",\"workspaces\":"@ + (enc_ws_array(ws) + (",\"lid_switch\":"@ + (enc_opt_lid(lid)
            + "}"@)))).len() <= doc.len(),
        doc.subrange(
            i6,
            i6 + (",\"workspaces\":"@ + (enc_ws_array(ws) + (",\"lid_switch\":"@ + (enc_opt_lid(
                lid,
            ) + "}"@)))).len() as int,
        ) == ",\"workspaces\":"@ + (enc_ws_array(ws) + (",\"lid_switch\":"@ + (enc_opt_lid(lid)
            + "}"@))),
    ensures
        ({
            let p4 = ",\"workspaces\":"@;
            let v4 = enc_ws_array(ws);
            let p5 = ",\"lid_switch\":"@;
            let v5 = enc_opt_lid(lid);
            let p6 = "}"@;
            let i7 = i6 + p4.len() as int;
            let i8 = i7 + v4.len() as int;
            let i9 = i8 + p5.len() as int;
            let i10 = i9 + v5.len() as int;
            &&& sp_lit(doc, i6, p4) == Option::Some(i7)
            &&& sp_ws_array(doc, i7, fuel) == Option::Some((ws, i8))
            &&& sp_lit(doc, i8, p5) == Option::Some(i9)
            &&& sp_opt_lid(doc, i9) == Option::Some((lid, i10))
            &&& sp_lit(doc, i10, p6) == Option::Some(i10 + 1)
        }),
{
    reveal_strlit("}");
    let p4 = ",\"workspaces\":"@;
    let v4 = enc_ws_array(ws);
    let p5 = ",\"lid_switch\":"@;
    let v5 = enc_opt_lid(lid);
    let p6 = "}"@;
    let r4 = v4 + (p5 + (v5 + p6));
    lemma_peel(doc, i6, p4, r4);
    let i7 = i6 + p4.len() as int;
    lemma_peel(doc, i7, v4, p5 + (v5 + p6));
    lemma_ws_array(doc, i7, ws, fuel);
    let i8 = i7 + v4.len() as int;
    lemma_peel(doc, i8, p5, v5 + p6);
    let i9 = i8 + p5.len() as int;
    lemma_peel(doc, i9, v5, p6);
    lemma_parse_opt_lid(doc, i9, lid);
    let i10 = i9 + v5.len() as int;
    assert(sp_lit(doc, i10, p6) == Option::Some(i10 + 1));
}

#[verifier::rlimit(100)]
proof fn lemma_parse_profile_front(
    doc: Seq<char>,
    i: int,
    name: Seq<char>,
    desc: Option<Seq<char>>,
    rest: Seq<char>,
)
    requires
        0 <= i,
        i + ("{\"name\":"@ + (enc_str_seq(name) + (",\"description\":"@ + (enc_opt_str(desc)
            + rest)))).len() <= doc.len(),
        doc.subrange(
            i,
            i + ("{\"name\":"@ + (enc_str_seq(name) + (",\"description\":"@ + (enc_opt_str(desc)
                + rest)))).len() as int,
        ) == "{\"name\":"@ + (enc_str_seq(name) + (",\"description\":"@ + (enc_opt_str(desc)
            + rest))),
    ensures
        ({
            let p1 = "{\"name\":"@;
            let v1 = enc_str_seq(name);
            let p2 = ",\"description\":"@;
            let v2 = enc_opt_str(desc);
            let i1 = i + p1.len() as int;
            let i2 = i1 + v1.len() as int;
            let i3 = i2 + p2.len() as int;
            let i4 = i3 + v2.len() as int;
            &&& sp_lit(doc, i, p1) == Option::Some(i1)
            &&& sp_str(doc, i1) == Option::Some((name, i2))
            &&& sp_lit(doc, i2, p2) == Option::Some(i3)
            &&& sp_opt_str(doc, i3) == Option::Some((desc, i4))
            &&& doc.subrange(i4, i4 + rest.len() as int) == rest
        }),
{
    let p1 = "{\"name\":"@;
    let v1 = enc_str_seq(name);
    let p2 = ",\"description\":"@;
    let v2 = enc_opt_str(desc);
    lemma_peel(doc, i, p1, v1 + (p2 + (v2 + rest)));
    let i1 = i + p1.len() as int;
    lemma_peel(doc, i1, v1, p2 + (v2 + rest));
    lemma_parse_str(doc, i1, name);
    let i2 = i1 + v1.len() as int;
    lemma_peel(doc, i2, p2, v2 + rest);
    let i3 = i2 + p2.len() as int;
    lemma_peel(doc, i3, v2, rest);
    lemma_parse_opt_str(doc, i3, desc);
}

#[verifier::rlimit(100)]
proof fn lemma_parse_profile(doc: Seq<char>, i: int, p: ProfileV, fuel: nat)
    requires
        fuel >= p.monitors.len(),
        fuel >= p.workspaces.len(),
        0 <= i,
        i + enc_profile_doc(p).len() <= doc.len(),
        doc.subrange(i, i + enc_profile_doc(p).len() as int) == enc_profile_doc(p),
    ensures
        sp_profile_obj(doc, i, fuel) == Option::Some((p, i + enc_profile_doc(p).len() as int)),
{
    let p1 = "{\"name\":"@;
    let v1 = enc_str_seq(p.name);
    let p2 = ",\"description\":"@;
    let v2 = enc_opt_str(p.description);
    let p3 = ",\"monitors\":"@;
    let v3 = enc_mon_array(p.monitors);
    let p4 = ",\"workspaces\":"@;
    let v4 = enc_ws_array(p.workspaces);
    let p5 = ",\"lid_switch\":"@;
    let v5 = enc_opt_lid(p.lid_switch);
    let p6 = "}"@;
    let tail = p4 + (v4 + (p5 + (v5 + p6)));
    let rest = p3 + (v3 + tail);
    let e = enc_profile_doc(p);
    assert(e == p1 + (v1 + (p2 + (v2 + rest))));
    lemma_parse_profile_front(doc, i, p.name, p.description, rest);
    let i4 = i + p1.len() + v1.len() + p2.len() + v2.len();
    lemma_peel(doc, i4, p3, v3 + tail);
    let i5 = i4 + p3.len() as int;
    lemma_peel(doc, i5, v3, tail);
    lemma_mon_array(doc, i5, p.monitors, fuel);
    let i6 = i5 + v3.len() as int;
    lemma_parse_profile_tail(doc, i6, p.workspaces, p.lid_switch, fuel);
}

proof fn lemma_enc_mon_items_count(ms: Seq<MonitorV>)
    ensures
        enc_mon_items(ms).len() >= ms.len(),
    decreases ms.len(),
{
    if ms.len() == 0 {
    } else if ms.len() == 1 {
        lemma_enc_monitor_head(ms[0]);
    } else {
        lemma_enc_monitor_head(ms[0]);
        lemma_enc_mon_items_count(ms.drop_first());
    }
}

proof fn lemma_enc_ws_items_count(ws: Seq<WorkspaceV>)
    ensures
        enc_ws_items(ws).len() >= ws.len(),
    decreases ws.len(),
{
    if ws.len() == 0 {
    } else if ws.len() == 1 {
        lemma_enc_workspace_head(ws[0]);
    } else {
        lemma_enc_workspace_head(ws[0]);
        lemma_enc_ws_items_count(ws.drop_first());
    }
}

/// Round trip: parsing the canonical text of any profile gives exactly that
/// profile back.  Together with the contracts of `Profile::to_doc` and
/// `Profile::from_doc`, saving a profile and loading it again always yields
/// a structurally identical profile.
#[verifier::rlimit(100)]
#[verifier::spinoff_prover]
pub proof fn lemma_profile_round_trip(p: ProfileV)
    ensures
        sp_profile_doc(enc_profile_doc(p)) == Option::Some(p),
{
    let doc = enc_profile_doc(p);
    lemma_enc_mon_items_count(p.monitors);
    lemma_enc_ws_items_count(p.workspaces);
    assert(doc.len() >= p.monitors.len());
    assert(doc.len() >= p.workspaces.len());
    lemma_subrange_whole(doc);
    lemma_parse_profile(doc, 0, p, doc.len() as nat);
}

impl Profile {
    /// The canonical document text of this profile.
    #[verifier::rlimit(100)]
    pub fn to_doc(&self) -> (r: String)
        ensures
            r@ == enc_profile_doc(self@),
    {
        let mut out: Vec<char> = Vec::new();
        append_str(&mut out, "{\"name\":");
        encode_str(self.name.as_str(), &mut out);
        append_str(&mut out, ",\"description\":");
        encode_opt_str(&self.description, &mut out);
        append_str(&mut out, ",\"monitors\":");
        encode_monitors(&self.monitors, &mut out);
        append_str(&mut out, ",\"workspaces\":");
        encode_workspaces(&self.workspaces, &mut out);
        append_str(&mut out, ",\"lid_switch\":");
        encode_opt_lid(&self.lid_switch, &mut out);
        append_str(&mut out, "}");
        proof {
            assert(mons_view(self.monitors@) =~= self@.monitors);
            assert(ws_view(self.workspaces@) =~= self@.workspaces);
            let l1 = "{\"name\":"@;
            let v1 = enc_str_seq(self@.name);
            let l2 = ",\"description\":"@;
            let v2 = enc_opt_str(self@.description);
            let l3 = ",\"monitors\":"@;
            let v3 = enc_mon_array(self@.monitors);
            let l4 = ",\"workspaces\":"@;
            let v4 = enc_ws_array(self@.workspaces);
            let l5 = ",\"lid_switch\":"@;
            let v5 = enc_opt_lid(self@.lid_switch);
            let l6 = "}"@;
            lemma_flatten11(l1, v1, l2, v2, l3, v3, l4, v4, l5, v5, l6);
            assert(Seq::<char>::empty() + l1 =~= l1);
            assert(out@ == enc_profile_doc(self@));
        }
        string_of(&out)
    }

    /// Parse a stored profile document.  Succeeds exactly on the canonical
    /// text of a profile, and then returns that profile; anything else is a
    /// `ParseError`.
    #[verifier::rlimit(100)]
    pub fn from_doc(doc: &str) -> (r: Result<Profile, ParseError>)
        ensures
            match r {
                Result::Ok(p) => sp_profile_doc(doc@) == Option::Some(p@),
                Result::Err(_) => sp_profile_doc(doc@) is None,
            },
    {
        let chars = crate::strutil::chars_of(doc);
        let n = chars.len();
        let i1 = match match_lit(&chars, 0, "{\"name\":") {
            Option::Some(j) => j,
            Option::None => {
                return Result::Err(ParseError);
            },
        };
        let (name, i2) = match parse_string(&chars, i1) {
            Option::Some(p) => p,
            Option::None => {
                return Result::Err(ParseError);
            },
        };
        let i3 = match match_lit(&chars, i2, ",\"description\":") {
            Option::Some(j) => j,
            Option::None => {
                return Result::Err(ParseError);
            },
        };
        let (description, i4) = match parse_opt_str(&chars, i3) {
            Option::Some(p) => p,
            Option::None => {
                return Result::Err(ParseError);
            },
        };
        let i5 = match match_lit(&chars, i4, ",\"monitors\":") {
            Option::Some(j) => j,
            Option::None => {
                return Result::Err(ParseError);
            },
        };
        let (monitors, i6) = match parse_mon_array(&chars, i5, n) {
            Option::Some(p) => p,
            Option::None => {
                return Result::Err(ParseError);
            },
        };
        let i7 = match match_lit(&chars, i6, ",\"workspaces\":") {
            Option::Some(j) => j,
            Option::None => {
                return Result::Err(ParseError);
            },
        };
        let (workspaces, i8) = match parse_ws_array(&chars, i7, n) {
            Option::Some(p) => p,
            Option::None => {
                return Result::Err(ParseError);
            },
        };
        let i9 = match match_lit(&chars, i8, ",\"lid_switch\":") {
            Option::Some(j) => j,
            Option::None => {
                return Result::Err(ParseError);
            },
        };
        let (lid_switch, i10) = match parse_opt_lid(&chars, i9) {
            Option::Some(p) => p,
            Option::None => {
                return Result::Err(ParseError);
            },
        };
        let i11 = match match_lit(&chars, i10, "}") {
            Option::Some(j) => j,
            Option::None => {
                return Result::Err(ParseError);
            },
        };
        if i11 != n {
            return Result::Err(ParseError);
        }
        let p = Profile { name, description, monitors, workspaces, lid_switch };
        proof {
            assert(mons_view(p.monitors@) =~= p@.monitors);
            assert(ws_view(p.workspaces@) =~= p@.workspaces);
        }
        Result::Ok(p)
    }
}

// ------------------------------------------------------------ dock links
use crate::metadata::{links_view, DockBinding, DockBindingV, Metadata, MetadataV};

pub open spec fn enc_link(l: DockBindingV) -> Seq<char> {
    "{\"uuid\":"@ + enc_str_seq(l.uuid) + ",\"profile\":"@ + enc_str_seq(l.profile) + "}"@
}

pub open spec fn sp_link(doc: Seq<char>, i: int) -> Option<(DockBindingV, int)> {
    match sp_lit(doc, i, "{\"uuid\":"@) {
        Option::Some(i1) => match sp_str(doc, i1) {
            Option::Some((uuid, i2)) => match sp_lit(doc, i2, ",\"profile\":"@) {
                Option::Some(i3) => match sp_str(doc, i3) {
                    Option::Some((profile, i4)) => match sp_lit(doc, i4, "}"@) {
                        Option::Some(i5) => Option::Some((DockBindingV { uuid, profile }, i5)),
                        Option::None => Option::None,
                    },
                    Option::None => Option::None,
                },
                Option::None => Option::None,
            },
            Option::None => Option::None,
        },
        Option::None => Option::None,
    }
}

#[verifier::rlimit(60)]
proof fn lemma_parse_link(doc: Seq<char>, i: int, l: DockBindingV)
    requires
        0 <= i,
        i + enc_link(l).len() <= doc.len(),
        doc.subrange(i, i + enc_link(l).len() as int) == enc_link(l),
    ensures
        sp_link(doc, i) == Option::Some((l, i + enc_link(l).len() as int)),
{
    reveal_strlit("{\"uuid\":");
    reveal_strlit(",\"profile\":");
    reveal_strlit("}");
    let p1 = "{\"uuid\":"@;
    let v1 = enc_str_seq(l.uuid);
    let p2 = ",\"profile\":"@;
    let v2 = enc_str_seq(l.profile);
    let p3 = "}"@;
    let r2 = v2 + p3;
    let r1b = p2 + r2;
    let r1 = v1 + r1b;
    let e = enc_link(l);
    assert(e =~= p1 + r1);
    lemma_peel(doc, i, p1, r1);
    let i1 = i + p1.len() as int;
    lemma_peel(doc, i1, v1, r1b);
    lemma_parse_str(doc, i1, l.uuid);
    let i2 = i1 + v1.len() as int;
    lemma_peel(doc, i2, p2, r2);
    let i3 = i2 + p2.len() as int;
    lemma_peel(doc, i3, v2, p3);
    lemma_parse_str(doc, i3, l.profile);
    let i4 = i3 + v2.len() as int;
    assert(sp_lit(doc, i4, p3) == Option::Some(i4 + 1));
}

fn encode_link(l: &DockBinding, out: &mut Vec<char>)
    ensures
        final(out)@ == old(out)@ + enc_link(l@),
{
    append_str(out, "{\"uuid\":");
    encode_str(l.uuid.as_str(), out);
    append_str(out, ",\"profile\":");
    encode_str(l.profile.as_str(), out);
    append_str(out, "}");
    proof {
        assert(final(out)@ =~= old(out)@ + enc_link(l@));
    }
}

fn parse_link(doc: &Vec<char>, i: usize) -> (r: Option<(DockBinding, usize)>)
    requires
        i <= doc@.len(),
    ensures
        match r {
            Option::Some((v, j)) => sp_link(doc@, i as int) == Option::Some((v@, j as int)) && i
                < j <= doc@.len(),
            Option::None => sp_link(doc@, i as int) is None,
        },
{
    let i1 = match match_lit(doc, i, "{\"uuid\":") {
        Option::Some(j) => j,
        Option::None => {
            return Option::None;
        },
    };
    let (uuid, i2) = match parse_string(doc, i1) {
        Option::Some(p) => p,
        Option::None => {
            return Option::None;
        },
    };
    let i3 = match match_lit(doc, i2, ",\"profile\":") {
        Option::Some(j) => j,
        Option::None => {
            return Option::None;
        },
    };
    let (profile, i4) = match parse_string(doc, i3) {
        Option::Some(p) => p,
        Option::None => {
            return Option::None;
        },
    };
    let i5 = match match_lit(doc, i4, "}") {
        Option::Some(j) => j,
        Option::None => {
            return Option::None;
        },
    };
    Option::Some((DockBinding { uuid, profile }, i5))
}

pub open spec fn enc_link_items(ls: Seq<DockBindingV>) -> Seq<char>
    decreases ls.len(),
{
    if ls.len() == 0 {
        seq![']']
    } else if ls.len() == 1 {
        enc_link(ls[0]) + seq![']']
    } else {
        enc_link(ls[0]) + seq![','] + enc_link_items(ls.drop_first())
    }
}

pub open spec fn enc_link_array(ls: Seq<DockBindingV>) -> Seq<char> {
    seq!['['] + enc_link_items(ls)
}

pub open spec fn sp_link_list(doc: Seq<char>, i: int, fuel: nat) -> Option<(
    Seq<DockBindingV>,
    int,
)>
    decreases fuel,
{
    if fuel == 0 {
        Option::None
    } else {
        match sp_link(doc, i) {
            Option::Some((l, j)) => if j < doc.len() && doc[j] == ',' {
                match sp_link_list(doc, j + 1, (fuel - 1) as nat) {
                    Option::Some((ls, k)) => Option::Some((seq![l] + ls, k)),
                    Option::None => Option::None,
                }
            } else if j < doc.len() && doc[j] == ']' {
                Option::Some((seq![l], j + 1))
            } else {
                Option::None
            },
            Option::None => Option::None,
        }
    }
}

pub open spec fn sp_link_array(doc: Seq<char>, i: int, fuel: nat) -> Option<(
    Seq<DockBindingV>,
    int,
)> {
    if 0 <= i < doc.len() && doc[i] == '[' {
        if i + 1 < doc.len() && doc[i + 1] == ']' {
            Option::Some((Seq::<DockBindingV>::empty(), i + 2))
        } else {
            sp_link_list(doc, i + 1, fuel)
        }
    } else {
        Option::None
    }
}

proof fn lemma_enc_link_head(l: DockBindingV)
    ensures
        enc_link(l).len() >= 8,
        enc_link(l)[0] == '{',
{
    reveal_strlit("{\"uuid\":");
    assert("{\"uuid\":"@.len() == 8);
    assert(enc_link(l)[0] == '{');
}

#[verifier::rlimit(100)]
proof fn lemma_link_items(doc: Seq<char>, i: int, ls: Seq<DockBindingV>, fuel: nat)
    requires
        ls.len() >= 1,
        fuel >= ls.len(),
        0 <= i,
        i + enc_link_items(ls).len() <= doc.len(),
        doc.subrange(i, i + enc_link_items(ls).len() as int) == enc_link_items(ls),
    ensures
        sp_link_list(doc, i, fuel) == Option::Some((ls, i + enc_link_items(ls).len() as int)),
    decreases ls.len(),
{
    let l0 = ls[0];
    let e0 = enc_link(l0);
    let e = enc_link_items(ls);
    if ls.len() == 1 {
        assert(e =~= e0 + seq![']']);
        lemma_peel(doc, i, e0, seq![']']);
        lemma_parse_link(doc, i, l0);
        lemma_next_char(doc, i, e0, seq![']']);
        let j = i + e0.len() as int;
        assert(doc[j] == ']');
        assert(seq![l0] =~= ls);
    } else {
        let rest = ls.drop_first();
        let er = enc_link_items(rest);
        assert(e =~= e0 + (seq![','] + er));
        lemma_peel(doc, i, e0, seq![','] + er);
        lemma_parse_link(doc, i, l0);
        lemma_next_char(doc, i, e0, seq![','] + er);
        let j = i + e0.len() as int;
        assert(doc[j] == ',');
        lemma_peel(doc, j, seq![','], er);
        lemma_link_items(doc, j + 1, rest, (fuel - 1) as nat);
        assert(seq![l0] + rest =~= ls);
    }
}

#[verifier::rlimit(60)]
proof fn lemma_link_array(doc: Seq<char>, i: int, ls: Seq<DockBindingV>, fuel: nat)
    requires
        fuel >= ls.len(),
        0 <= i,
        i + enc_link_array(ls).len() <= doc.len(),
        doc.subrange(i, i + enc_link_array(ls).len() as int) == enc_link_array(ls),
    ensures
        sp_link_array(doc, i, fuel) == Option::Some((ls, i + enc_link_array(ls).len() as int)),
{
    let e = enc_link_array(ls);
    let sub = doc.subrange(i, i + e.len() as int);
    assert(sub[0] == doc[i]);
    assert(sub[0] == e[0]);
    assert(doc[i] == '[');
    lemma_peel(doc, i, seq!['['], enc_link_items(ls));
    if ls.len() == 0 {
        assert(enc_link_items(ls) == seq![']']);
        assert(sub[1] == doc[i + 1]);
        assert(sub[1] == e[1]);
        assert(doc[i + 1] == ']');
    } else {
        lemma_enc_link_head(ls[0]);
        assert(sub[1] == doc[i + 1]);
        assert(e[1] == enc_link_items(ls)[0]);
        assert(enc_link_items(ls)[0] == enc_link(ls[0])[0]);
        assert(doc[i + 1] == '{');
        lemma_link_items(doc, i + 1, ls, fuel);
    }
}

fn encode_link_items(ls: &Vec<DockBinding>, k: usize, out: &mut Vec<char>)
    requires
        k <= ls@.len(),
    ensures
        final(out)@ == old(out)@ + enc_link_items(links_view(ls@).skip(k as int)),
    decreases ls@.len() - k,
{
    let ghost lv = links_view(ls@);
    let n = ls.len();
    if k == n {
        out.push(']');
        proof {
            assert(lv.skip(k as int) =~= Seq::<DockBindingV>::empty());
            assert(final(out)@ =~= old(out)@ + enc_link_items(lv.skip(k as int)));
        }
    } else if k == n - 1 {
        encode_link(&ls[k], out);
        out.push(']');
        proof {
            assert(lv.skip(k as int).len() == 1);
            assert(lv.skip(k as int)[0] == lv[k as int]);
            assert(final(out)@ =~= old(out)@ + enc_link_items(lv.skip(k as int)));
        }
    } else {
        encode_link(&ls[k], out);
        out.push(',');
        encode_link_items(ls, k + 1, out);
        proof {
            assert(lv.skip(k as int).len() >= 2);
            assert(lv.skip(k as int)[0] == lv[k as int]);
            assert(lv.skip(k as int).drop_first() =~= lv.skip(k + 1));
            assert(final(out)@ =~= old(out)@ + enc_link_items(lv.skip(k as int)));
        }
    }
}

fn encode_links(ls: &Vec<DockBinding>, out: &mut Vec<char>)
    ensures
        final(out)@ == old(out)@ + enc_link_array(links_view(ls@)),
{
    out.push('[');
    encode_link_items(ls, 0, out);
    proof {
        assert(links_view(ls@).skip(0) =~= links_view(ls@));
        assert(final(out)@ =~= old(out)@ + enc_link_array(links_view(ls@)));
    }
}

fn parse_link_list(doc: &Vec<char>, i: usize, fuel: usize) -> (r: Option<(
    Vec<DockBinding>,
    usize,
)>)
    requires
        i <= doc@.len(),
    ensures
        match r {
            Option::Some((v, j)) => sp_link_list(doc@, i as int, fuel as nat) == Option::Some(
                (links_view(v@), j as int),
            ) && i < j <= doc@.len(),
            Option::None => sp_link_list(doc@, i as int, fuel as nat) is None,
        },
    decreases fuel,
{
    if fuel == 0 {
        return Option::None;
    }
    let (l, j) = match parse_link(doc, i) {
        Option::Some(p) => p,
        Option::None => {
            return Option::None;
        },
    };
    if j < doc.len() && doc[j] == ',' {
        match parse_link_list(doc, j + 1, fuel - 1) {
            Option::Some((mut v, k)) => {
                v.insert(0, l);
                proof {
                    assert(links_view(v@) =~= seq![l@] + links_view(v@).drop_first());
                }
                Option::Some((v, k))
            },
            Option::None => Option::None,
        }
    } else if j < doc.len() && doc[j] == ']' {
        let mut v: Vec<DockBinding> = Vec::new();
        v.push(l);
        proof {
            assert(links_view(v@) =~= seq![l@]);
        }
        Option::Some((v, j + 1))
    } else {
        Option::None
    }
}

fn parse_link_array(doc: &Vec<char>, i: usize, fuel: usize) -> (r: Option<(
    Vec<DockBinding>,
    usize,
)>)
    requires
        i <= doc@.len(),
    ensures
        match r {
            Option::Some((v, j)) => sp_link_array(doc@, i as int, fuel as nat) == Option::Some(
                (links_view(v@), j as int),
            ) && i < j <= doc@.len(),
            Option::None => sp_link_array(doc@, i as int, fuel as nat) is None,
        },
{
    if i < doc.len() && doc[i] == '[' {
        if i + 1 < doc.len() && doc[i + 1] == ']' {
            let v: Vec<DockBinding> = Vec::new();
            proof {
                assert(links_view(v@) =~= Seq::<DockBindingV>::empty());
            }
            Option::Some((v, i + 2))
        } else {
            parse_link_list(doc, i + 1, fuel)
        }
    } else {
        Option::None
    }
}

// -------------------------------------------------------- binding record
/// The canonical text of the whole binding record.
pub open spec fn enc_metadata_doc(m: MetadataV) -> Seq<char> {
    "{\"active_profile\":"@ + (enc_opt_str(m.active_profile) + (",\"last_modified\":"@
        + (enc_opt_u64(m.last_modified) + (",\"dock_profiles\":"@ + (enc_link_array(
        m.dock_profiles,
    ) + (",\"undocked_profile\":"@ + (enc_opt_str(m.undocked_profile) + "}"@)))))))
}

pub open spec fn sp_metadata_obj(doc: Seq<char>, i: int, fuel: nat) -> Option<(MetadataV, int)> {
    match sp_lit(doc, i, "{\"active_profile\":"@) {
        Option::Some(i1) => match sp_opt_str(doc, i1) {
            Option::Some((active_profile, i2)) => match sp_lit(doc, i2, ",\"last_modified\":"@) {
                Option::Some(i3) => match sp_opt_u64(doc, i3) {
                    Option::Some((last_modified, i4)) => match sp_lit(
                        doc,
                        i4,
                        ",\"dock_profiles\":"@,
                    ) {
                        Option::Some(i5) => match sp_link_array(doc, i5, fuel) {
                            Option::Some((dock_profiles, i6)) => match sp_lit(
                                doc,
                                i6,
                                ",\"undocked_profile\":"@,
                            ) {
                                Option::Some(i7) => match sp_opt_str(doc, i7) {
                                    Option::Some((undocked_profile, i8)) => match sp_lit(
                                        doc,
                                        i8,
                                        "}"@,
                                    ) {
                                        Option::Some(i9) => Option::Some(
                                            (
                                                MetadataV {
                                                    active_profile,
                                                    last_modified,
                                                    dock_profiles,
                                                    undocked_profile,
                                                },
                                                i9,
                                            ),
                                        ),
                                        Option::None => Option::None,
                                    },
                                    Option::None => Option::None,
                                },
                                Option::None => Option::None,
                            },
                            Option::None => Option::None,
                        },
                        Option::None => Option::None,
                    },
                    Option::None => Option::None,
                },
                Option::None => Option::None,
            },
            Option::None => Option::None,
        },
        Option::None => Option::None,
    }
}

/// What a whole record document means.
pub open spec fn sp_metadata_doc(doc: Seq<char>) -> Option<MetadataV> {
    match sp_metadata_obj(doc, 0, doc.len() as nat) {
        Option::Some((m, j)) => if j == doc.len() {
            Option::Some(m)
        } else {
            Option::None
        },
        Option::None => Option::None,
    }
}

#[verifier::rlimit(100)]
proof fn lemma_parse_metadata(doc: Seq<char>, i: int, m: MetadataV, fuel: nat)
    requires
        fuel >= m.dock_profiles.len(),
        0 <= i,
        i + enc_metadata_doc(m).len() <= doc.len(),
        doc.subrange(i, i + enc_metadata_doc(m).len() as int) == enc_metadata_doc(m),
    ensures
        sp_metadata_obj(doc, i, fuel) == Option::Some((m, i + enc_metadata_doc(m).len() as int)),
{
    reveal_strlit("}");
    let p1 = "{\"active_profile\":"@;
    let v1 = enc_opt_str(m.active_profile);
    let p2 = ",\"last_modified\":"@;
    let v2 = enc_opt_u64(m.last_modified);
    let p3 = ",\"dock_profiles\":"@;
    let v3 = enc_link_array(m.dock_profiles);
    let p4 = ",\"undocked_profile\":"@;
    let v4 = enc_opt_str(m.undocked_profile);
    let p5 = "}"@;
    lemma_peel(doc, i, p1, v1 + (p2 + (v2 + (p3 + (v3 + (p4 + (v4 + p5)))))));
    let i1 = i + p1.len() as int;
    lemma_peel(doc, i1, v1, p2 + (v2 + (p3 + (v3 + (p4 + (v4 + p5))))));
    lemma_parse_opt_str(doc, i1, m.active_profile);
    let i2 = i1 + v1.len() as int;
    lemma_peel(doc, i2, p2, v2 + (p3 + (v3 + (p4 + (v4 + p5)))));
    let i3 = i2 + p2.len() as int;
    lemma_peel(doc, i3, v2, p3 + (v3 + (p4 + (v4 + p5))));
    lemma_next_char(doc, i3, v2, p3 + (v3 + (p4 + (v4 + p5))));
    reveal_strlit(",\"dock_profiles\":");
    assert((p3 + (v3 + (p4 + (v4 + p5))))[0] == p3[0]);
    assert(!is_digit(','));
    lemma_parse_opt_u64(doc, i3, m.last_modified);
    let i4 = i3 + v2.len() as int;
    lemma_peel(doc, i4, p3, v3 + (p4 + (v4 + p5)));
    let i5 = i4 + p3.len() as int;
    lemma_peel(doc, i5, v3, p4 + (v4 + p5));
    lemma_link_array(doc, i5, m.dock_profiles, fuel);
    let i6 = i5 + v3.len() as int;
    lemma_peel(doc, i6, p4, v4 + p5);
    let i7 = i6 + p4.len() as int;
    lemma_peel(doc, i7, v4, p5);
    lemma_parse_opt_str(doc, i7, m.undocked_profile);
    let i8 = i7 + v4.len() as int;
    assert(sp_lit(doc, i8, p5) == Option::Some(i8 + 1));
}

proof fn lemma_enc_link_items_count(ls: Seq<DockBindingV>)
    ensures
        enc_link_items(ls).len() >= ls.len(),
    decreases ls.len(),
{
    if ls.len() == 0 {
    } else if ls.len() == 1 {
        lemma_enc_link_head(ls[0]);
    } else {
        lemma_enc_link_head(ls[0]);
        lemma_enc_link_items_count(ls.drop_first());
    }
}

/// Round trip: parsing the canonical text of any binding record gives
/// exactly that record back.  Together with the contracts of
/// `Metadata::to_doc` and `Metadata::from_doc`, saving the record and
/// loading it again always yields a structurally identical record.
#[verifier::rlimit(100)]
#[verifier::spinoff_prover]
pub proof fn lemma_metadata_round_trip(m: MetadataV)
    ensures
        sp_metadata_doc(enc_metadata_doc(m)) == Option::Some(m),
{
    let doc = enc_metadata_doc(m);
    lemma_enc_link_items_count(m.dock_profiles);
    assert(doc.len() >= m.dock_profiles.len());
    lemma_subrange_whole(doc);
    lemma_parse_metadata(doc, 0, m, doc.len() as nat);
}

/// Right-nested and flat spellings of a nine-part concatenation agree.
#[verifier::rlimit(100)]
proof fn lemma_flatten9(
    a1: Seq<char>,
    a2: Seq<char>,
    a3: Seq<char>,
    a4: Seq<char>,
    a5: Seq<char>,
    a6: Seq<char>,
    a7: Seq<char>,
    a8: Seq<char>,
    a9: Seq<char>,
)
    ensures
        a1 + (a2 + (a3 + (a4 + (a5 + (a6 + (a7 + (a8 + a9))))))) == a1 + a2 + a3 + a4 + a5 + a6
            + a7 + a8 + a9,
{
    assert(a1 + (a2 + (a3 + (a4 + (a5 + (a6 + (a7 + (a8 + a9))))))) =~= a1 + a2 + a3 + a4 + a5
        + a6 + a7 + a8 + a9);
}

impl Metadata {
    /// The canonical document text of this record.
    #[verifier::rlimit(100)]
    pub fn to_doc(&self) -> (r: String)
        ensures
            r@ == enc_metadata_doc(self@),
    {
        let mut out: Vec<char> = Vec::new();
        append_str(&mut out, "{\"active_profile\":");
        encode_opt_str(&self.active_profile, &mut out);
        append_str(&mut out, ",\"last_modified\":");
        encode_opt_u64(&self.last_modified, &mut out);
        append_str(&mut out, ",\"dock_profiles\":");
        encode_links(&self.dock_profiles, &mut out);
        append_str(&mut out, ",\"undocked_profile\":");
        encode_opt_str(&self.undocked_profile, &mut out);
        append_str(&mut out, "}");
        proof {
            let l1 = "{\"active_profile\":"@;
            let v1 = enc_opt_str(self@.active_profile);
            let l2 = ",\"last_modified\":"@;
            let v2 = enc_opt_u64(self@.last_modified);
            let l3 = ",\"dock_profiles\":"@;
            let v3 = enc_link_array(self@.dock_profiles);
            let l4 = ",\"undocked_profile\":"@;
            let v4 = enc_opt_str(self@.undocked_profile);
            let l5 = "}"@;
            lemma_flatten9(l1, v1, l2, v2, l3, v3, l4, v4, l5);
            assert(Seq::<char>::empty() + l1 =~= l1);
            assert(out@ == enc_metadata_doc(self@));
        }
        string_of(&out)
    }

    /// Parse a stored binding-record document.  Succeeds exactly on the
    /// canonical text of a record, and then returns that record; anything
    /// else is a `ParseError`.
    #[verifier::rlimit(100)]
    pub fn from_doc(doc: &str) -> (r: Result<Metadata, ParseError>)
        ensures
            match r {
                Result::Ok(m) => sp_metadata_doc(doc@) == Option::Some(m@),
                Result::Err(_) => sp_metadata_doc(doc@) is None,
            },
    {
        let chars = crate::strutil::chars_of(doc);
        let n = chars.len();
        let i1 = match match_lit(&chars, 0, "{\"active_profile\":") {
            Option::Some(j) => j,
            Option::None => {
                return Result::Err(ParseError);
            },
        };
        let (active_profile, i2) = match parse_opt_str(&chars, i1) {
            Option::Some(p) => p,
            Option::None => {
                return Result::Err(ParseError);
            },
        };
        let i3 = match match_lit(&chars, i2, ",\"last_modified\":") {
            Option::Some(j) => j,
            Option::None => {
                return Result::Err(ParseError);
            },
        };
        let (last_modified, i4) = match parse_opt_u64(&chars, i3) {
            Option::Some(p) => p,
            Option::None => {
                return Result::Err(ParseError);
            },
        };
        let i5 = match match_lit(&chars, i4, ",\"dock_profiles\":") {
            Option::Some(j) => j,
            Option::None => {
                return Result::Err(ParseError);
            },
        };
        let (dock_profiles, i6) = match parse_link_array(&chars, i5, n) {
            Option::Some(p) => p,
            Option::None => {
                return Result::Err(ParseError);
            },
        };
        let i7 = match match_lit(&chars, i6, ",\"undocked_profile\":") {
            Option::Some(j) => j,
            Option::None => {
                return Result::Err(ParseError);
            },
        };
        let (undocked_profile, i8) = match parse_opt_str(&chars, i7) {
            Option::Some(p) => p,
            Option::None => {
                return Result::Err(ParseError);
            },
        };
        let i9 = match match_lit(&chars, i8, "}") {
            Option::Some(j) => j,
            Option::None => {
                return Result::Err(ParseError);
            },
        };
        if i9 != n {
            return Result::Err(ParseError);
        }
        Result::Ok(Metadata { active_profile, last_modified, dock_profiles, undocked_profile })
    }
}

} // verus!
