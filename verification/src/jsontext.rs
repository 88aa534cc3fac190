//! Leaf pieces of the document format: literals, strings with escaping,
//! decimal numbers and booleans, as characters.
//!
//! Each piece has a spec encoder (what the text of a value is), a spec
//! parser (what a text means, scanned strictly), an executable encoder and
//! parser proved equal to them, and a round-trip lemma: parsing picks the
//! encoded value back out of any surrounding text.  The parsers accept
//! exactly the canonical spelling the encoders produce; everything else is
//! a parse failure.

use vstd::prelude::*;

verus! {

// ---------------------------------------------------------------- digits
pub open spec fn is_digit(c: char) -> bool {
    '0' <= c && c <= '9'
}

pub open spec fn digit_char(d: int) -> char {
    ((48 + d) as char)
}

pub open spec fn digit_val(c: char) -> int {
    c as int - 48
}

/// The decimal spelling of a number, most significant digit first.
pub open spec fn dec_seq(n: nat) -> Seq<char>
    decreases n,
{
    if n < 10 {
        seq![digit_char(n as int)]
    } else {
        dec_seq(n / 10) + seq![digit_char((n % 10) as int)]
    }
}

pub open spec fn pow10(k: nat) -> nat
    decreases k,
{
    if k == 0 {
        1
    } else {
        10 * pow10((k - 1) as nat)
    }
}

proof fn lemma_pow10_pos(k: nat)
    ensures
        pow10(k) >= 1,
    decreases k,
{
    if k > 0 {
        lemma_pow10_pos((k - 1) as nat);
    }
}

/// Every character of a decimal spelling is a digit, it is never empty, and
/// it has no leading zero unless it is exactly `"0"`.
pub proof fn lemma_dec_seq_digits(n: nat)
    ensures
        dec_seq(n).len() >= 1,
        forall|k: int| 0 <= k < dec_seq(n).len() ==> is_digit(#[trigger] dec_seq(n)[k]),
        n >= 1 ==> dec_seq(n)[0] != '0',
        n < 10 ==> dec_seq(n).len() == 1,
    decreases n,
{
    if n < 10 {
        assert(dec_seq(n)[0] == digit_char(n as int));
        assert(48 <= (48 + n as int));
        assert((digit_char(n as int)) as int == 48 + n as int);
    } else {
        lemma_dec_seq_digits(n / 10);
        assert((digit_char((n % 10) as int)) as int == 48 + (n % 10) as int);
        assert(dec_seq(n)[0] == dec_seq(n / 10)[0]);
        assert(forall|k: int|
            0 <= k < dec_seq(n).len() ==> is_digit(#[trigger] dec_seq(n)[k])) by {
            assert(forall|k: int|
                0 <= k < dec_seq(n / 10).len() ==> #[trigger] dec_seq(n)[k] == dec_seq(
                    n / 10,
                )[k]);
            assert(dec_seq(n)[dec_seq(n).len() - 1] == digit_char((n % 10) as int));
        }
    }
}

// ------------------------------------------------------------- u64 parse
/// Strict scan of a digit run, accumulating the value; overflow fails.
pub open spec fn sp_u64_loop(doc: Seq<char>, i: int, acc: u64) -> Option<(u64, int)>
    decreases doc.len() - i,
{
    if i < doc.len() && is_digit(doc[i]) {
        let d = digit_val(doc[i]);
        if acc > (u64::MAX - d) / 10 {
            Option::None
        } else {
            sp_u64_loop(doc, i + 1, (acc * 10 + d) as u64)
        }
    } else {
        Option::Some((acc, i))
    }
}

/// Strict parse of a canonical decimal `u64` starting at `i`: at least one
/// digit, no leading zero, value within range.
pub open spec fn sp_u64(doc: Seq<char>, i: int) -> Option<(u64, int)> {
    if 0 <= i < doc.len() && is_digit(doc[i]) && !(doc[i] == '0' && i + 1 < doc.len() && is_digit(
        doc[i + 1],
    )) {
        sp_u64_loop(doc, i, 0)
    } else {
        Option::None
    }
}

proof fn lemma_sp_u64_loop_dec(doc: Seq<char>, i: int, acc: u64, n: nat)
    requires
        0 <= i,
        i + dec_seq(n).len() <= doc.len(),
        doc.subrange(i, i + dec_seq(n).len() as int) == dec_seq(n),
        acc * pow10(dec_seq(n).len() as nat) + n <= u64::MAX,
    ensures
        sp_u64_loop(doc, i, acc) == sp_u64_loop(
            doc,
            i + dec_seq(n).len() as int,
            ((acc * pow10(dec_seq(n).len() as nat) + n) as u64),
        ),
    decreases n,
{
    lemma_dec_seq_digits(n);
    if n < 10 {
        assert(doc[i] == dec_seq(n)[0]);
        assert(digit_val(doc[i]) == n as int) by {
            assert((digit_char(n as int)) as int == 48 + n as int);
        }
        assert(pow10(1) == 10) by {
            reveal_with_fuel(pow10, 2);
        }
        assert(acc * 10 + n <= u64::MAX);
        assert(acc <= (u64::MAX - n as int) / 10) by (nonlinear_arith)
            requires
                acc * 10 + n <= u64::MAX,
                0 <= n < 10,
        ;
        assert(!(acc > (u64::MAX - digit_val(doc[i])) / 10));
    } else {
        let front = dec_seq(n / 10);
        let flen = front.len() as int;
        let len = dec_seq(n).len() as int;
        assert(len == flen + 1);
        assert(doc.subrange(i, i + flen) == front) by {
            assert(doc.subrange(i, i + flen) =~= doc.subrange(i, i + len).subrange(0, flen));
        }
        let p = pow10(front.len() as nat);
        lemma_pow10_pos(front.len() as nat);
        assert(pow10(dec_seq(n).len() as nat) == 10 * p);
        assert(acc * p + n / 10 <= u64::MAX) by (nonlinear_arith)
            requires
                acc * (10 * p) + n <= u64::MAX,
                p >= 1,
                n >= 10,
                acc >= 0,
        ;
        lemma_sp_u64_loop_dec(doc, i, acc, n / 10);
        let acc2 = ((acc * p + n / 10) as u64);
        assert(doc[i + flen] == dec_seq(n)[len - 1]);
        assert(dec_seq(n)[len - 1] == digit_char((n % 10) as int));
        assert(digit_val(doc[i + flen]) == (n % 10) as int) by {
            assert((digit_char((n % 10) as int)) as int == 48 + (n % 10) as int);
        }
        assert(is_digit(doc[i + flen]));
        let d = (n % 10) as int;
        assert(acc2 * 10 + d == acc * (10 * p) + n) by (nonlinear_arith)
            requires
                acc2 == acc * p + n / 10,
                d == n % 10,
                n >= 0,
                10 * (n / 10) + n % 10 == n,
        ;
        assert(acc2 <= (u64::MAX - d) / 10) by (nonlinear_arith)
            requires
                acc2 * 10 + d <= u64::MAX,
                0 <= d < 10,
        ;
        assert(sp_u64_loop(doc, i + flen, acc2) == sp_u64_loop(
            doc,
            i + len,
            ((acc2 * 10 + d) as u64),
        ));
    }
}

/// Parsing finds the number whose spelling sits at `i`, when what follows
/// is not a digit.
pub proof fn lemma_parse_dec(doc: Seq<char>, i: int, n: u64)
    requires
        0 <= i,
        i + dec_seq(n as nat).len() <= doc.len(),
        doc.subrange(i, i + dec_seq(n as nat).len() as int) == dec_seq(n as nat),
        i + dec_seq(n as nat).len() == doc.len() || !is_digit(
            doc[i + dec_seq(n as nat).len() as int],
        ),
    ensures
        sp_u64(doc, i) == Option::Some((n, i + dec_seq(n as nat).len() as int)),
{
    lemma_dec_seq_digits(n as nat);
    let len = dec_seq(n as nat).len() as int;
    assert(doc[i] == dec_seq(n as nat)[0]);
    if doc[i] == '0' && i + 1 < doc.len() && is_digit(doc[i + 1]) {
        // A spelling starting in `0` is the one-digit spelling of zero, so
        // the next character is past it and is not a digit.
        assert(dec_seq(n as nat)[0] as int == 48 + (if n < 10 {
            n as int
        } else {
            0
        })) by {
            if n < 10 {
                assert(dec_seq(n as nat)[0] == digit_char(n as int));
                assert(digit_char(n as int) as int == 48 + n as int);
            }
        }
        assert(('0') as int == 48);
        if n >= 10 {
            assert(dec_seq(n as nat)[0] != '0');
            assert(false);
        } else {
            assert(n == 0);
            assert(len == 1);
            assert(false);
        }
    }
    assert(0 * pow10(dec_seq(n as nat).len() as nat) + n as nat <= u64::MAX) by (nonlinear_arith)
        requires
            n <= u64::MAX,
            pow10(dec_seq(n as nat).len() as nat) >= 0,
    ;
    lemma_sp_u64_loop_dec(doc, i, 0, n as nat);
    assert(0 * pow10(dec_seq(n as nat).len() as nat) + n as nat == n as nat) by (nonlinear_arith);
    assert(sp_u64_loop(doc, i + len, n) == Option::Some((n, i + len)));
}

// ------------------------------------------------------------ u64 exec
/// Append the decimal spelling of `n`.
pub fn encode_u64(n: u64, out: &mut Vec<char>)
    ensures
        final(out)@ == old(out)@ + dec_seq(n as nat),
    decreases n,
{
    if n < 10 {
        let c = ((48 + n as u8) as char);
        out.push(c);
        proof {
            assert(c == digit_char(n as int));
            assert(final(out)@ =~= old(out)@ + dec_seq(n as nat));
        }
    } else {
        encode_u64(n / 10, out);
        let c = ((48 + (n % 10) as u8) as char);
        out.push(c);
        proof {
            assert(c == digit_char((n % 10) as int));
            assert(final(out)@ =~= old(out)@ + dec_seq(n as nat));
        }
    }
}

fn parse_u64_loop(doc: &Vec<char>, i: usize, acc: u64) -> (r: Option<(u64, usize)>)
    requires
        i <= doc@.len(),
    ensures
        match r {
            Option::Some((v, j)) => sp_u64_loop(doc@, i as int, acc) == Option::Some(
                (v, j as int),
            ) && j <= doc@.len(),
            Option::None => sp_u64_loop(doc@, i as int, acc) is None,
        },
    decreases doc@.len() - i,
{
    if i < doc.len() {
        let c = doc[i];
        if '0' <= c && c <= '9' {
            let u = c as u32;
            proof {
                assert(48 <= c as int <= 57);
                assert(u == c as int);
            }
            let d = ((u - 48) as u64);
            proof {
                assert(d == digit_val(doc@[i as int]));
            }
            if acc > (u64::MAX - d) / 10 {
                return Option::None;
            }
            return parse_u64_loop(doc, i + 1, acc * 10 + d);
        }
        proof {
            assert(!is_digit(doc@[i as int]));
        }
        return Option::Some((acc, i));
    }
    Option::Some((acc, i))
}

/// Parse a canonical decimal `u64` at `i`.
pub fn parse_u64(doc: &Vec<char>, i: usize) -> (r: Option<(u64, usize)>)
    requires
        i <= doc@.len(),
    ensures
        match r {
            Option::Some((v, j)) => sp_u64(doc@, i as int) == Option::Some((v, j as int)) && i < j
                <= doc@.len(),
            Option::None => sp_u64(doc@, i as int) is None,
        },
{
    if i >= doc.len() {
        return Option::None;
    }
    let c = doc[i];
    if !('0' <= c && c <= '9') {
        proof {
            assert(!is_digit(doc@[i as int]));
        }
        return Option::None;
    }
    if c == '0' && i + 1 < doc.len() {
        let c2 = doc[i + 1];
        if '0' <= c2 && c2 <= '9' {
            return Option::None;
        }
        proof {
            assert(!is_digit(doc@[i + 1]));
        }
    }
    let r = parse_u64_loop(doc, i, 0);
    proof {
        if r is Some {
            lemma_sp_u64_loop_bounds(doc@, i as int, 0);
        }
    }
    r
}

/// A successful digit scan never moves backwards.
proof fn lemma_sp_u64_loop_bounds(doc: Seq<char>, i: int, acc: u64)
    requires
        0 <= i <= doc.len(),
    ensures
        match sp_u64_loop(doc, i, acc) {
            Option::Some((v, j)) => i <= j <= doc.len() && (i < doc.len() && is_digit(doc[i])
                ==> i < j),
            Option::None => true,
        },
    decreases doc.len() - i,
{
    if i < doc.len() && is_digit(doc[i]) {
        let d = digit_val(doc[i]);
        if !(acc > (u64::MAX - d) / 10) {
            lemma_sp_u64_loop_bounds(doc, i + 1, ((acc * 10 + d) as u64));
        }
    }
}

// ---------------------------------------------------------------- i32
/// The decimal spelling of a signed number.
pub open spec fn enc_i32_seq(x: int) -> Seq<char> {
    if x < 0 {
        seq!['-'] + dec_seq((-x) as nat)
    } else {
        dec_seq(x as nat)
    }
}

/// Strict parse of a canonical decimal `i32` (optional `-`, magnitude in
/// range, no `-0`).
pub open spec fn sp_i32(doc: Seq<char>, i: int) -> Option<(i32, int)> {
    if 0 <= i < doc.len() && doc[i] == '-' {
        match sp_u64(doc, i + 1) {
            Option::Some((v, j)) => if 1 <= v <= 2147483648u64 {
                Option::Some(((-(v as int)) as i32, j))
            } else {
                Option::None
            },
            Option::None => Option::None,
        }
    } else {
        match sp_u64(doc, i) {
            Option::Some((v, j)) => if v <= 2147483647u64 {
                Option::Some((v as i32, j))
            } else {
                Option::None
            },
            Option::None => Option::None,
        }
    }
}

/// Parsing finds the signed number whose spelling sits at `i`.
pub proof fn lemma_parse_i32(doc: Seq<char>, i: int, x: i32)
    requires
        0 <= i,
        i + enc_i32_seq(x as int).len() <= doc.len(),
        doc.subrange(i, i + enc_i32_seq(x as int).len() as int) == enc_i32_seq(x as int),
        i + enc_i32_seq(x as int).len() == doc.len() || !is_digit(
            doc[i + enc_i32_seq(x as int).len() as int],
        ),
    ensures
        sp_i32(doc, i) == Option::Some((x, i + enc_i32_seq(x as int).len() as int)),
{
    let e = enc_i32_seq(x as int);
    let sub = doc.subrange(i, i + e.len() as int);
    assert(sub[0] == doc[i]);
    assert(sub[0] == e[0]);
    if x < 0 {
        let mag = (-(x as int)) as nat;
        let m = dec_seq(mag);
        assert(e[0] == '-');
        assert(doc[i] == '-');
        assert(doc.subrange(i + 1, i + 1 + m.len() as int) == m) by {
            assert(doc.subrange(i + 1, i + 1 + m.len() as int) =~= doc.subrange(
                i,
                i + e.len() as int,
            ).subrange(1, e.len() as int));
        }
        lemma_parse_dec(doc, i + 1, (mag as u64));
        assert(1 <= mag <= 2147483648);
    } else {
        lemma_dec_seq_digits(x as nat);
        assert(e[0] == dec_seq(x as nat)[0]);
        assert(is_digit(e[0]));
        assert(('-') as int == 45);
        assert(doc[i] != '-');
        lemma_parse_dec(doc, i, (x as u64));
    }
}

/// Append the decimal spelling of `x`.
pub fn encode_i32(x: i32, out: &mut Vec<char>)
    ensures
        final(out)@ == old(out)@ + enc_i32_seq(x as int),
{
    if x < 0 {
        out.push('-');
        let mag = ((-(x as i64)) as u64);
        encode_u64(mag, out);
        proof {
            assert(final(out)@ =~= old(out)@ + enc_i32_seq(x as int));
        }
    } else {
        encode_u64(x as u64, out);
    }
}

/// Parse a canonical decimal `i32` at `i`.
pub fn parse_i32(doc: &Vec<char>, i: usize) -> (r: Option<(i32, usize)>)
    requires
        i <= doc@.len(),
    ensures
        match r {
            Option::Some((v, j)) => sp_i32(doc@, i as int) == Option::Some((v, j as int)) && i < j
                <= doc@.len(),
            Option::None => sp_i32(doc@, i as int) is None,
        },
{
    if i < doc.len() && doc[i] == '-' {
        match parse_u64(doc, i + 1) {
            Option::Some((v, j)) => {
                if 1 <= v && v <= 2147483648u64 {
                    let x = ((-(v as i64)) as i32);
                    proof {
                        assert(x as int == -(v as int));
                    }
                    Option::Some((x, j))
                } else {
                    Option::None
                }
            },
            Option::None => Option::None,
        }
    } else {
        match parse_u64(doc, i) {
            Option::Some((v, j)) => {
                if v <= 2147483647u64 {
                    Option::Some((v as i32, j))
                } else {
                    Option::None
                }
            },
            Option::None => Option::None,
        }
    }
}

// ------------------------------------------------------------- literals
/// Strict match of an exact literal at `i`.
pub open spec fn sp_lit(doc: Seq<char>, i: int, lit: Seq<char>) -> Option<int> {
    if 0 <= i && i + lit.len() <= doc.len() && doc.subrange(i, i + lit.len() as int) == lit {
        Option::Some(i + lit.len() as int)
    } else {
        Option::None
    }
}

/// Match the literal at `i`.
pub fn match_lit(doc: &Vec<char>, i: usize, lit: &str) -> (r: Option<usize>)
    requires
        i <= doc@.len(),
    ensures
        match r {
            Option::Some(j) => sp_lit(doc@, i as int, lit@) == Option::Some(j as int) && i <= j
                <= doc@.len() && j - i == lit@.len(),
            Option::None => sp_lit(doc@, i as int, lit@) is None,
        },
{
    let m = lit.unicode_len();
    if m > doc.len() - i {
        proof {
            assert(sp_lit(doc@, i as int, lit@) is None);
        }
        return Option::None;
    }
    let n = doc.len();
    let mut k: usize = 0;
    while k < m
        invariant
            k <= m,
            i + m <= n,
            n == doc@.len(),
            m == lit@.len(),
            forall|t: int| 0 <= t < k ==> doc@[i + t] == lit@[t],
        decreases m - k,
    {
        if doc[i + k] != lit.get_char(k) {
            proof {
                assert(doc@.subrange(i as int, i + lit@.len() as int)[k as int] != lit@[k as int]);
            }
            return Option::None;
        }
        k += 1;
    }
    proof {
        assert(doc@.subrange(i as int, i + lit@.len() as int) =~= lit@);
    }
    Option::Some(i + m)
}

// ------------------------------------------------------------- booleans
pub open spec fn enc_bool_seq(b: bool) -> Seq<char> {
    if b {
        "true"@
    } else {
        "false"@
    }
}

pub open spec fn sp_bool(doc: Seq<char>, i: int) -> Option<(bool, int)> {
    match sp_lit(doc, i, "true"@) {
        Option::Some(j) => Option::Some((true, j)),
        Option::None => match sp_lit(doc, i, "false"@) {
            Option::Some(j) => Option::Some((false, j)),
            Option::None => Option::None,
        },
    }
}

/// Parsing finds the boolean whose spelling sits at `i`.
pub proof fn lemma_parse_bool(doc: Seq<char>, i: int, b: bool)
    requires
        0 <= i,
        i + enc_bool_seq(b).len() <= doc.len(),
        doc.subrange(i, i + enc_bool_seq(b).len() as int) == enc_bool_seq(b),
    ensures
        sp_bool(doc, i) == Option::Some((b, i + enc_bool_seq(b).len() as int)),
{
    reveal_strlit("true");
    reveal_strlit("false");
    let sub = doc.subrange(i, i + enc_bool_seq(b).len() as int);
    assert(sub[0] == doc[i]);
    assert(sub[0] == enc_bool_seq(b)[0]);
    if b {
    } else {
        assert(doc[i] == 'f');
        if i + 4 <= doc.len() && doc.subrange(i, i + 4) == "true"@ {
            assert(doc.subrange(i, i + 4)[0] == doc[i]);
            assert(doc.subrange(i, i + 4)[0] == 't');
            assert(false);
        }
    }
}

/// Append the spelling of `b`.
pub fn encode_bool(b: bool, out: &mut Vec<char>)
    ensures
        final(out)@ == old(out)@ + enc_bool_seq(b),
{
    if b {
        crate::strutil::append_str(out, "true");
    } else {
        crate::strutil::append_str(out, "false");
    }
}

/// Parse a boolean at `i`.
pub fn parse_bool(doc: &Vec<char>, i: usize) -> (r: Option<(bool, usize)>)
    requires
        i <= doc@.len(),
    ensures
        match r {
            Option::Some((v, j)) => sp_bool(doc@, i as int) == Option::Some((v, j as int)) && i < j
                <= doc@.len(),
            Option::None => sp_bool(doc@, i as int) is None,
        },
{
    match match_lit(doc, i, "true") {
        Option::Some(j) => {
            proof {
                reveal_strlit("true");
            }
            Option::Some((true, j))
        },
        Option::None => match match_lit(doc, i, "false") {
            Option::Some(j) => {
                proof {
                    reveal_strlit("false");
                }
                Option::Some((false, j))
            },
            Option::None => Option::None,
        },
    }
}

// -------------------------------------------------------------- strings
pub open spec fn hex_char(d: int) -> char {
    if d < 10 {
        digit_char(d)
    } else {
        ((87 + d) as char)
    }
}

pub open spec fn is_low_hex_char(c: char) -> bool {
    is_digit(c) || ('a' <= c && c <= 'f')
}

pub open spec fn hex_val(c: char) -> int {
    if is_digit(c) {
        c as int - 48
    } else {
        c as int - 87
    }
}

proof fn lemma_hex_char(d: int)
    requires
        0 <= d < 16,
    ensures
        is_low_hex_char(hex_char(d)),
        hex_val(hex_char(d)) == d,
{
    if d < 10 {
        assert(hex_char(d) as int == 48 + d);
    } else {
        assert(hex_char(d) as int == 87 + d);
    }
}

/// The escaped spelling of one character: quote and backslash get a
/// backslash, control characters become `\u00..` with two lowercase hex
/// digits, everything else stands as itself.
pub open spec fn esc_char(c: char) -> Seq<char> {
    if c == '"' {
        seq!['\\', '"']
    } else if c == '\\' {
        seq!['\\', '\\']
    } else if (c as int) >= 0 && ' ' > c {
        seq!['\\', 'u', '0', '0', hex_char((c as int) / 16), hex_char((c as int) % 16)]
    } else {
        seq![c]
    }
}

/// The escaped body of a string.
pub open spec fn esc(s: Seq<char>) -> Seq<char>
    decreases s.len(),
{
    if s.len() == 0 {
        Seq::<char>::empty()
    } else {
        esc_char(s[0]) + esc(s.drop_first())
    }
}

/// A quoted, escaped string.
pub open spec fn enc_str_seq(s: Seq<char>) -> Seq<char> {
    seq!['"'] + esc(s) + seq!['"']
}

pub proof fn lemma_esc_snoc(s: Seq<char>, c: char)
    ensures
        esc(s.push(c)) == esc(s) + esc_char(c),
    decreases s.len(),
{
    if s.len() == 0 {
        let e = s.push(c);
        assert(e[0] == c);
        assert(e.drop_first() =~= Seq::<char>::empty());
        assert(esc(e) == esc_char(c) + esc(e.drop_first()));
        assert(esc(e.drop_first()) == Seq::<char>::empty());
        assert(esc(s) == Seq::<char>::empty());
        assert(esc_char(c) + Seq::<char>::empty() =~= esc_char(c));
        assert(Seq::<char>::empty() + esc_char(c) =~= esc_char(c));
    } else {
        assert(s.push(c)[0] == s[0]);
        assert(s.push(c).drop_first() =~= s.drop_first().push(c));
        lemma_esc_snoc(s.drop_first(), c);
        assert(esc(s.push(c)) == esc_char(s[0]) + esc(s.drop_first().push(c)));
        assert(esc(s.drop_first().push(c)) == esc(s.drop_first()) + esc_char(c));
        assert(esc_char(s[0]) + (esc(s.drop_first()) + esc_char(c)) =~= (esc_char(s[0]) + esc(
            s.drop_first(),
        )) + esc_char(c));
    }
}

/// Strict scan of a string body up to and including the closing quote.
pub open spec fn sp_str_body(doc: Seq<char>, i: int) -> Option<(Seq<char>, int)>
    decreases doc.len() - i,
{
    if i < 0 || i >= doc.len() {
        Option::None
    } else if doc[i] == '"' {
        Option::Some((Seq::<char>::empty(), i + 1))
    } else if doc[i] == '\\' {
        if i + 1 < doc.len() && (doc[i + 1] == '"' || doc[i + 1] == '\\') {
            match sp_str_body(doc, i + 2) {
                Option::Some((s, j)) => Option::Some((seq![doc[i + 1]] + s, j)),
                Option::None => Option::None,
            }
        } else if i + 5 < doc.len() && doc[i + 1] == 'u' && doc[i + 2] == '0' && doc[i + 3] == '0'
            && is_low_hex_char(doc[i + 4]) && is_low_hex_char(doc[i + 5]) && hex_val(doc[i + 4])
            * 16 + hex_val(doc[i + 5]) < 32 {
            let c = ((hex_val(doc[i + 4]) * 16 + hex_val(doc[i + 5])) as char);
            match sp_str_body(doc, i + 6) {
                Option::Some((s, j)) => Option::Some((seq![c] + s, j)),
                Option::None => Option::None,
            }
        } else {
            Option::None
        }
    } else if (doc[i] as int) >= 0 && ' ' > doc[i] {
        Option::None
    } else {
        match sp_str_body(doc, i + 1) {
            Option::Some((s, j)) => Option::Some((seq![doc[i]] + s, j)),
            Option::None => Option::None,
        }
    }
}

/// Strict parse of a quoted, escaped string at `i`.
pub open spec fn sp_str(doc: Seq<char>, i: int) -> Option<(Seq<char>, int)> {
    if 0 <= i < doc.len() && doc[i] == '"' {
        sp_str_body(doc, i + 1)
    } else {
        Option::None
    }
}

proof fn lemma_parse_str_body(doc: Seq<char>, i: int, s: Seq<char>)
    requires
        0 <= i,
        i + esc(s).len() + 1 <= doc.len(),
        doc.subrange(i, i + esc(s).len() + 1) == esc(s) + seq!['"'],
    ensures
        sp_str_body(doc, i) == Option::Some((s, i + esc(s).len() + 1)),
    decreases s.len(),
{
    let whole = esc(s) + seq!['"'];
    let sub = doc.subrange(i, i + esc(s).len() + 1);
    assert(forall|k: int| 0 <= k < whole.len() ==> doc[i + k] == #[trigger] whole[k]) by {
        assert(forall|k: int| 0 <= k < whole.len() ==> #[trigger] sub[k] == doc[i + k]);
    }
    if s.len() == 0 {
        assert(whole[0] == '"');
        assert(doc[i + 0] == whole[0]);
    } else {
        let c = s[0];
        let tail = s.drop_first();
        let ec = esc_char(c);
        assert(esc(s) == ec + esc(tail));
        assert(whole =~= ec + (esc(tail) + seq!['"']));
        assert(forall|k: int| 0 <= k < ec.len() ==> doc[i + k] == #[trigger] ec[k]) by {
            assert(forall|k: int| 0 <= k < ec.len() ==> whole[k] == #[trigger] ec[k]);
        }
        assert(doc.subrange(i + ec.len(), i + ec.len() + esc(tail).len() + 1) == esc(tail)
            + seq!['"']) by {
            assert(forall|k: int|
                0 <= k < esc(tail).len() + 1 ==> doc[i + ec.len() + k] == #[trigger] (esc(tail)
                    + seq!['"'])[k]) by {
                assert(forall|k: int|
                    0 <= k < esc(tail).len() + 1 ==> whole[ec.len() + k] == #[trigger] (esc(tail)
                        + seq!['"'])[k]);
            }
            assert(doc.subrange(i + ec.len(), i + ec.len() + esc(tail).len() + 1) =~= esc(tail)
                + seq!['"']);
        }
        lemma_parse_str_body(doc, i + ec.len() as int, tail);
        if c == '"' {
            assert(ec[0] == '\\' && ec[1] == '"');
            assert(doc[i + 0] == ec[0] && doc[i + 1] == ec[1]);
            assert(!((' ') > ('\\')));
        } else if c == '\\' {
            assert(ec[0] == '\\' && ec[1] == '\\');
            assert(doc[i + 0] == ec[0] && doc[i + 1] == ec[1]);
        } else if (c as int) >= 0 && ' ' > c {
            let v = c as int;
            assert(0 <= v < 32);
            lemma_hex_char(v / 16);
            lemma_hex_char(v % 16);
            assert(ec[0] == '\\' && ec[1] == 'u' && ec[2] == '0' && ec[3] == '0');
            assert(ec[4] == hex_char(v / 16) && ec[5] == hex_char(v % 16));
            assert(doc[i + 0] == ec[0] && doc[i + 1] == ec[1] && doc[i + 2] == ec[2] && doc[i + 3]
                == ec[3] && doc[i + 4] == ec[4] && doc[i + 5] == ec[5]);
            assert(hex_val(doc[i + 4]) * 16 + hex_val(doc[i + 5]) == v) by (nonlinear_arith)
                requires
                    hex_val(doc[i + 4]) == v / 16,
                    hex_val(doc[i + 5]) == v % 16,
                    0 <= v < 32,
            ;
            assert(((v) as char) == c);
            assert(seq![c] + tail =~= s);
        } else {
            assert(ec[0] == c);
            assert(doc[i + 0] == ec[0]);
            assert(seq![c] + tail =~= s);
        }
        assert(seq![s[0]] + tail =~= s);
    }
}

/// Parsing finds the string whose quoted spelling sits at `i`.
pub proof fn lemma_parse_str(doc: Seq<char>, i: int, s: Seq<char>)
    requires
        0 <= i,
        i + enc_str_seq(s).len() <= doc.len(),
        doc.subrange(i, i + enc_str_seq(s).len() as int) == enc_str_seq(s),
    ensures
        sp_str(doc, i) == Option::Some((s, i + enc_str_seq(s).len() as int)),
{
    let whole = enc_str_seq(s);
    let sub = doc.subrange(i, i + whole.len() as int);
    assert(forall|k: int| 0 <= k < whole.len() ==> doc[i + k] == #[trigger] whole[k]) by {
        assert(forall|k: int| 0 <= k < whole.len() ==> #[trigger] sub[k] == doc[i + k]);
    }
    assert(whole =~= seq!['"'] + (esc(s) + seq!['"']));
    assert(whole[0] == '"');
    assert(doc[i + 0] == whole[0]);
    assert(doc.subrange(i + 1, i + 1 + esc(s).len() + 1) == esc(s) + seq!['"']) by {
        assert(forall|k: int|
            0 <= k < esc(s).len() + 1 ==> doc[i + 1 + k] == #[trigger] (esc(s)
                + seq!['"'])[k]) by {
            assert(forall|k: int|
                0 <= k < esc(s).len() + 1 ==> whole[1 + k] == #[trigger] (esc(s)
                    + seq!['"'])[k]);
        }
        assert(doc.subrange(i + 1, i + 1 + esc(s).len() + 1) =~= esc(s) + seq!['"']);
    }
    lemma_parse_str_body(doc, i + 1, s);
}

/// Append the quoted, escaped spelling of `s`.
pub fn encode_str(s: &str, out: &mut Vec<char>)
    ensures
        final(out)@ == old(out)@ + enc_str_seq(s@),
{
    out.push('"');
    let n = s.unicode_len();
    let mut k: usize = 0;
    while k < n
        invariant
            k <= n,
            n == s@.len(),
            out@ == old(out)@ + seq!['"'] + esc(s@.subrange(0, k as int)),
        decreases n - k,
    {
        let ghost pre = s@.subrange(0, k as int);
        let c = s.get_char(k);
        if c == '"' {
            out.push('\\');
            out.push('"');
        } else if c == '\\' {
            out.push('\\');
            out.push('\\');
        } else if '\u{0}' <= c && ' ' > c {
            let v = c as u32;
            proof {
                assert((c as int) >= 0);
                assert((c as int) < 32);
                assert(v == c as int);
            }
            out.push('\\');
            out.push('u');
            out.push('0');
            out.push('0');
            let hi = ((48 + (v / 16) as u8) as char);
            out.push(hi);
            let rem = v % 16;
            let lo = if rem < 10 {
                ((48 + rem as u8) as char)
            } else {
                ((87 + rem as u8) as char)
            };
            out.push(lo);
            proof {
                assert(hi == hex_char((c as int) / 16));
                assert(lo == hex_char((c as int) % 16));
            }
        } else {
            out.push(c);
        }
        proof {
            lemma_esc_snoc(pre, c);
            assert(pre.push(c) =~= s@.subrange(0, k + 1));
            assert(out@ =~= old(out)@ + seq!['"'] + esc(s@.subrange(0, k + 1)));
        }
        k += 1;
    }
    out.push('"');
    proof {
        assert(s@.subrange(0, n as int) =~= s@);
        assert(final(out)@ =~= old(out)@ + enc_str_seq(s@));
    }
}

fn parse_str_body(doc: &Vec<char>, i: usize) -> (r: Option<(Vec<char>, usize)>)
    requires
        i <= doc@.len(),
    ensures
        match r {
            Option::Some((v, j)) => sp_str_body(doc@, i as int) == Option::Some(
                (v@, j as int),
            ) && i < j <= doc@.len(),
            Option::None => sp_str_body(doc@, i as int) is None,
        },
    decreases doc@.len() - i,
{
    if i >= doc.len() {
        return Option::None;
    }
    let c = doc[i];
    if c == '"' {
        let v: Vec<char> = Vec::new();
        proof {
            assert(v@ =~= Seq::<char>::empty());
        }
        return Option::Some((v, i + 1));
    }
    if c == '\\' {
        if i + 1 < doc.len() && (doc[i + 1] == '"' || doc[i + 1] == '\\') {
            let e = doc[i + 1];
            match parse_str_body(doc, i + 2) {
                Option::Some((mut v, j)) => {
                    v.insert(0, e);
                    proof {
                        assert(v@ =~= seq![doc@[i + 1]] + v@.drop_first());
                    }
                    return Option::Some((v, j));
                },
                Option::None => {
                    return Option::None;
                },
            }
        }
        if doc.len() - i > 5 && doc[i + 1] == 'u' && doc[i + 2] == '0' && doc[i + 3] == '0' {
            let h1 = doc[i + 4];
            let h2 = doc[i + 5];
            let ok1 = ('0' <= h1 && h1 <= '9') || ('a' <= h1 && h1 <= 'f');
            let ok2 = ('0' <= h2 && h2 <= '9') || ('a' <= h2 && h2 <= 'f');
            if ok1 && ok2 {
                proof {
                    assert(is_low_hex_char(doc@[i + 4]));
                    assert(is_low_hex_char(doc@[i + 5]));
                }
                let v1 = if '0' <= h1 && h1 <= '9' {
                    h1 as u32 - 48
                } else {
                    h1 as u32 - 87
                };
                let v2 = if '0' <= h2 && h2 <= '9' {
                    h2 as u32 - 48
                } else {
                    h2 as u32 - 87
                };
                proof {
                    assert(v1 == hex_val(doc@[i + 4]));
                    assert(v2 == hex_val(doc@[i + 5]));
                }
                let val = v1 * 16 + v2;
                if val < 32 {
                    let e = ((val as u8) as char);
                    proof {
                        assert(e as int == hex_val(doc@[i + 4]) * 16 + hex_val(doc@[i + 5]));
                    }
                    match parse_str_body(doc, i + 6) {
                        Option::Some((mut v, j)) => {
                            v.insert(0, e);
                            proof {
                                assert(v@ =~= seq![e] + v@.drop_first());
                            }
                            return Option::Some((v, j));
                        },
                        Option::None => {
                            return Option::None;
                        },
                    }
                }
                return Option::None;
            }
            return Option::None;
        }
        return Option::None;
    }
    if '\u{0}' <= c && ' ' > c {
        proof {
            assert((c as int) >= 0);
        }
        return Option::None;
    }
    match parse_str_body(doc, i + 1) {
        Option::Some((mut v, j)) => {
            v.insert(0, c);
            proof {
                assert(v@ =~= seq![doc@[i as int]] + v@.drop_first());
            }
            Option::Some((v, j))
        },
        Option::None => Option::None,
    }
}

/// Parse a quoted, escaped string at `i`.
pub fn parse_string(doc: &Vec<char>, i: usize) -> (r: Option<(String, usize)>)
    requires
        i <= doc@.len(),
    ensures
        match r {
            Option::Some((v, j)) => sp_str(doc@, i as int) == Option::Some((v@, j as int)) && i < j
                <= doc@.len(),
            Option::None => sp_str(doc@, i as int) is None,
        },
{
    if i < doc.len() && doc[i] == '"' {
        match parse_str_body(doc, i + 1) {
            Option::Some((v, j)) => Option::Some((crate::strutil::string_of(&v), j)),
            Option::None => Option::None,
        }
    } else {
        Option::None
    }
}

} // verus!
