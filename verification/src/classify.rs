use vstd::prelude::*;
use crate::escape::contains_forced;
use crate::escape::forced_at;
use crate::escape::is_forced_cp;

verus! {

// ---------------------------------------------------------------------------
// Byte classes.
// ---------------------------------------------------------------------------

/// Whitespace, as the classifier counts it.
pub open spec fn is_ws(b: u8) -> bool {
    b == 0x20 || b == 0x09 || b == 0x0a || b == 0x0b || b == 0x0c || b == 0x0d
}

/// A control byte.
pub open spec fn is_ctl(b: u8) -> bool {
    b < 0x20
}

/// A decimal digit.
pub open spec fn is_digit(b: u8) -> bool {
    0x30 <= b && b <= 0x39
}

/// The punctuation that may not open a bare string: quotes, braces,
/// brackets, comma, colon, slash and the comment mark.
pub open spec fn bare_punct(b: u8) -> bool {
    b == 0x22 || b == 0x27 || b == 0x7b || b == 0x7d || b == 0x5b || b == 0x5d || b == 0x2c || b
        == 0x3a || b == 0x2f || b == 0x23
}

/// A byte that may follow a literal-looking prefix and still let a reader
/// see the literal: a structural delimiter or a comment opener.
pub open spec fn is_delim(b: u8) -> bool {
    b == 0x2c || b == 0x7d || b == 0x5d || b == 0x23 || b == 0x2f
}

// ---------------------------------------------------------------------------
// Literal-shaped strings.
// ---------------------------------------------------------------------------

/// The first non-whitespace position at or after `i`.
pub open spec fn skip_ws(s: Seq<u8>, i: nat) -> nat
    decreases s.len() - i,
{
    if i < s.len() && is_ws(s[i as int]) {
        skip_ws(s, i + 1)
    } else {
        i
    }
}

/// The first non-digit position at or after `i`.
pub open spec fn digits_end(s: Seq<u8>, i: nat) -> nat
    decreases s.len() - i,
{
    if i < s.len() && is_digit(s[i as int]) {
        digits_end(s, i + 1)
    } else {
        i
    }
}

/// After a literal-looking prefix ending at `i`: optional whitespace, then
/// either the end of the string or a delimiter. Only then would a reader
/// take the prefix for a bare literal.
pub open spec fn suffix_ok(s: Seq<u8>, i: nat) -> bool {
    let j = skip_ws(s, i);
    j >= s.len() || is_delim(s[j as int])
}

/// The end of an optional sign and an integer part (`0`, or a nonzero
/// digit followed by digits), if the string starts with one.
pub open spec fn int_end(s: Seq<u8>) -> Option<nat> {
    let i: nat = if s.len() > 0 && s[0] == 0x2d {
        1nat
    } else {
        0nat
    };
    if i < s.len() && s[i as int] == 0x30 {
        Some((i + 1) as nat)
    } else if i < s.len() && 0x31 <= s[i as int] && s[i as int] <= 0x39 {
        Some(digits_end(s, i + 1))
    } else {
        None
    }
}

/// The end of a fraction part (`.` and at least one digit) starting at `i`,
/// if there is one.
pub open spec fn frac_end(s: Seq<u8>, i: nat) -> Option<nat> {
    if i < s.len() && s[i as int] == 0x2e && i + 1 < s.len() && is_digit(s[i + 1 as int]) {
        Some(digits_end(s, i + 1))
    } else {
        None
    }
}

/// The end of an exponent part (`e`/`E`, optional sign, at least one digit)
/// starting at `i`, if there is one.
pub open spec fn exp_end(s: Seq<u8>, i: nat) -> Option<nat> {
    if i < s.len() && (s[i as int] == 0x65 || s[i as int] == 0x45) {
        let j: nat = if i + 1 < s.len() && (s[i + 1 as int] == 0x2b || s[i + 1 as int] == 0x2d) {
            i + 2
        } else {
            i + 1
        };
        if j < s.len() && is_digit(s[j as int]) {
            Some(digits_end(s, j))
        } else {
            None
        }
    } else {
        None
    }
}

/// The string starts with a JSON number and, after optional whitespace,
/// ends or hits a delimiter, so a reader would take it for a number.
pub open spec fn number_like(s: Seq<u8>) -> bool {
    match int_end(s) {
        Some(ie) => suffix_ok(s, ie) || (match frac_end(s, ie) {
            Some(fe) => suffix_ok(s, fe) || (match exp_end(s, fe) {
                Some(xe) => suffix_ok(s, xe),
                None => false,
            }),
            None => false,
        }) || (match exp_end(s, ie) {
            Some(xe) => suffix_ok(s, xe),
            None => false,
        }),
        None => false,
    }
}

pub open spec fn starts_kw_true(s: Seq<u8>) -> bool {
    s.len() >= 4 && s[0] == 0x74 && s[1] == 0x72 && s[2] == 0x75 && s[3] == 0x65
}

pub open spec fn starts_kw_false(s: Seq<u8>) -> bool {
    s.len() >= 5 && s[0] == 0x66 && s[1] == 0x61 && s[2] == 0x6c && s[3] == 0x73 && s[4] == 0x65
}

pub open spec fn starts_kw_null(s: Seq<u8>) -> bool {
    s.len() >= 4 && s[0] == 0x6e && s[1] == 0x75 && s[2] == 0x6c && s[3] == 0x6c
}

/// The string could be read as one of the bare literals `true`, `false`,
/// `null` or a number, followed by nothing or by a delimiter; emitted bare
/// it would not read back as a string.
pub open spec fn literal_like(s: Seq<u8>) -> bool {
    (starts_kw_true(s) && suffix_ok(s, 4)) || (starts_kw_false(s) && suffix_ok(s, 5)) || (
    starts_kw_null(s) && suffix_ok(s, 4)) || number_like(s)
}

// ---------------------------------------------------------------------------
// Bare-string safety.
// ---------------------------------------------------------------------------

/// The rest of a bare string after its opening: no control bytes anywhere,
/// and it may not end in whitespace or a double quote.
pub open spec fn tail_ok(s: Seq<u8>, i: nat) -> bool {
    i >= s.len() || ((forall|k: int| i <= k < s.len() ==> !is_ctl(s[k])) && !is_ws(s.last())
        && s.last() != 0x22)
}

/// A byte that may open a bare string.
pub open spec fn bare_head_ok(b: u8) -> bool {
    !is_ctl(b) && !is_ws(b) && !bare_punct(b)
}

/// The string may be emitted bare: it opens with a safe byte (or a slash
/// that does not begin a comment), has no control bytes, and does not end
/// in whitespace or a double quote.
pub open spec fn bare_safe(s: Seq<u8>) -> bool {
    s.len() > 0 && (if s[0] == 0x2f {
        s.len() >= 2 && !is_ctl(s[1]) && s[1] != 0x2f && s[1] != 0x2a && tail_ok(s, 2)
    } else {
        bare_head_ok(s[0]) && tail_ok(s, 1)
    })
}

/// The string is safe as a single double-quoted line: it holds no tab,
/// line break or double quote; a string of nothing but whitespace and
/// backspaces also qualifies, since those are all escaped.
pub open spec fn double_safe(s: Seq<u8>) -> bool {
    s.len() > 0 && ((forall|k: int|
        0 <= k < s.len() ==> s[k] != 0x09 && s[k] != 0x0a && s[k] != 0x22) || (forall|k: int|
        0 <= k < s.len() ==> is_ws(s[k]) || s[k] == 0x08))
}

pub open spec fn has_nl(s: Seq<u8>) -> bool {
    exists|k: int| 0 <= k < s.len() && s[k] == 0x0a
}

/// The string holds three apostrophes in a row, which would close a
/// triple-quoted block early.
pub open spec fn has_q3(s: Seq<u8>) -> bool {
    exists|k: int| 0 <= k && k + 3 <= s.len() && #[trigger] s[k] == 0x27 && s[k + 1] == 0x27 && s[k + 2] == 0x27
}

/// The string can stand verbatim in a triple-quoted block: no early
/// terminator, and no trailing apostrophe that would run into the closing
/// delimiter.
pub open spec fn ml_ok(s: Seq<u8>) -> bool {
    s.len() > 0 && !has_q3(s) && s.last() != 0x27
}

/// The string must be quoted in some form.
pub open spec fn needs_quotes(s: Seq<u8>) -> bool {
    literal_like(s) || !bare_safe(s) || contains_forced(s)
}

/// The four ways a string can be rendered in pretty mode.
#[derive(Clone, Copy, Debug, PartialEq, Eq, Structural)]
pub enum StrKind {
    Unquoted,
    DoubleQuoted,
    TripleQuoted,
    MultilineTripleQuoted,
}

/// The quoting style for a string, decided in fixed priority order: bare
/// when nothing forces quotes; double-quoted when the string is a safe
/// single line or holds a code point the escaper must rewrite; otherwise
/// triple-quoted verbatim on one line, or as a multi-line block, falling
/// back to double quotes when an early terminator forbids the block form.
pub open spec fn classify(s: Seq<u8>) -> StrKind {
    if !needs_quotes(s) {
        StrKind::Unquoted
    } else if double_safe(s) {
        StrKind::DoubleQuoted
    } else if contains_forced(s) {
        StrKind::DoubleQuoted
    } else if !has_nl(s) {
        StrKind::TripleQuoted
    } else if ml_ok(s) {
        StrKind::MultilineTripleQuoted
    } else {
        StrKind::DoubleQuoted
    }
}

// ---------------------------------------------------------------------------
// Member keys.
// ---------------------------------------------------------------------------

/// A byte allowed anywhere in a bare member key.
pub open spec fn member_a(b: u8) -> bool {
    bare_head_ok(b)
}

/// A byte allowed right after a slash in a bare member key: the comment
/// mark is harmless there, but a second slash or a star would open a
/// comment.
pub open spec fn member_b(b: u8) -> bool {
    !is_ctl(b) && !is_ws(b) && b != 0x22 && b != 0x27 && b != 0x7b && b != 0x7d && b != 0x5b && b
        != 0x5d && b != 0x2c && b != 0x3a && b != 0x2f && b != 0x2a
}

/// From position `i`, the key parses as a run of units (a plain byte, or a
/// slash pair) whose last unit is a plain byte.
pub open spec fn member_rest(s: Seq<u8>, i: nat) -> bool
    decreases s.len() - i,
{
    if i >= s.len() {
        false
    } else if s[i as int] == 0x2f {
        i + 1 < s.len() && member_b(s[i + 1 as int]) && member_rest(s, i + 2)
    } else {
        member_a(s[i as int]) && (i + 1 == s.len() || member_rest(s, i + 1))
    }
}

/// A member key may be emitted bare: it is a single unit, or a run of
/// units ending in a plain byte, and holds no code point the escaper must
/// rewrite.
pub open spec fn member_bare(s: Seq<u8>) -> bool {
    s.len() > 0 && ((s.len() == 1 && member_a(s[0])) || (s.len() == 2 && s[0] == 0x2f && member_b(
        s[1],
    )) || member_rest(s, 0)) && !contains_forced(s)
}

// ---------------------------------------------------------------------------
// Executable scanners.
// ---------------------------------------------------------------------------

pub fn is_ws_x(b: u8) -> (r: bool)
    ensures
        r == is_ws(b),
{
    b == 0x20 || b == 0x09 || b == 0x0a || b == 0x0b || b == 0x0c || b == 0x0d
}

fn skip_ws_x(s: &Vec<u8>, i: usize) -> (j: usize)
    requires
        i <= s@.len(),
    ensures
        j as nat == skip_ws(s@, i as nat),
        i <= j <= s@.len(),
{
    let mut j: usize = i;
    while j < s.len() && is_ws_x(s[j])
        invariant
            i <= j <= s@.len(),
            skip_ws(s@, i as nat) == skip_ws(s@, j as nat),
        decreases s@.len() - j,
    {
        j = j + 1;
    }
    j
}

fn digits_end_x(s: &Vec<u8>, i: usize) -> (j: usize)
    requires
        i <= s@.len(),
    ensures
        j as nat == digits_end(s@, i as nat),
        i <= j <= s@.len(),
{
    let mut j: usize = i;
    while j < s.len() && 0x30 <= s[j] && s[j] <= 0x39
        invariant
            i <= j <= s@.len(),
            digits_end(s@, i as nat) == digits_end(s@, j as nat),
        decreases s@.len() - j,
    {
        j = j + 1;
    }
    j
}

fn suffix_ok_x(s: &Vec<u8>, i: usize) -> (r: bool)
    requires
        i <= s@.len(),
    ensures
        r == suffix_ok(s@, i as nat),
{
    let j = skip_ws_x(s, i);
    if j >= s.len() {
        true
    } else {
        let b = s[j];
        b == 0x2c || b == 0x7d || b == 0x5d || b == 0x23 || b == 0x2f
    }
}

fn int_end_x(s: &Vec<u8>) -> (r: (bool, usize))
    ensures
        r.0 <==> int_end(s@) is Some,
        r.0 ==> int_end(s@) == Some(r.1 as nat) && r.1 <= s@.len(),
{
    let mut i: usize = 0;
    if s.len() > 0 && s[0] == 0x2d {
        i = 1;
    }
    if i < s.len() && s[i] == 0x30 {
        (true, i + 1)
    } else if i < s.len() && 0x31 <= s[i] && s[i] <= 0x39 {
        let e = digits_end_x(s, i + 1);
        (true, e)
    } else {
        (false, 0)
    }
}

fn frac_end_x(s: &Vec<u8>, i: usize) -> (r: (bool, usize))
    requires
        i <= s@.len(),
    ensures
        r.0 <==> frac_end(s@, i as nat) is Some,
        r.0 ==> frac_end(s@, i as nat) == Some(r.1 as nat) && r.1 <= s@.len(),
{
    if i < s.len() && s[i] == 0x2e && i + 1 < s.len() && 0x30 <= s[i + 1] && s[i + 1] <= 0x39 {
        let e = digits_end_x(s, i + 1);
        (true, e)
    } else {
        (false, 0)
    }
}

fn exp_end_x(s: &Vec<u8>, i: usize) -> (r: (bool, usize))
    requires
        i <= s@.len(),
    ensures
        r.0 <==> exp_end(s@, i as nat) is Some,
        r.0 ==> exp_end(s@, i as nat) == Some(r.1 as nat) && r.1 <= s@.len(),
{
    if i < s.len() && (s[i] == 0x65 || s[i] == 0x45) {
        let j: usize = if i + 1 < s.len() && (s[i + 1] == 0x2b || s[i + 1] == 0x2d) {
            i + 2
        } else {
            i + 1
        };
        if j < s.len() && 0x30 <= s[j] && s[j] <= 0x39 {
            let e = digits_end_x(s, j);
            (true, e)
        } else {
            (false, 0)
        }
    } else {
        (false, 0)
    }
}

fn number_like_x(s: &Vec<u8>) -> (r: bool)
    ensures
        r == number_like(s@),
{
    let (has_int, ie) = int_end_x(s);
    if !has_int {
        return false;
    }
    if suffix_ok_x(s, ie) {
        return true;
    }
    let (has_frac, fe) = frac_end_x(s, ie);
    if has_frac {
        if suffix_ok_x(s, fe) {
            return true;
        }
        let (has_exp, xe) = exp_end_x(s, fe);
        if has_exp && suffix_ok_x(s, xe) {
            return true;
        }
    }
    let (has_exp2, xe2) = exp_end_x(s, ie);
    has_exp2 && suffix_ok_x(s, xe2)
}

fn literal_like_x(s: &Vec<u8>) -> (r: bool)
    ensures
        r == literal_like(s@),
{
    if s.len() >= 4 && s[0] == 0x74 && s[1] == 0x72 && s[2] == 0x75 && s[3] == 0x65 && suffix_ok_x(
        s,
        4,
    ) {
        return true;
    }
    if s.len() >= 5 && s[0] == 0x66 && s[1] == 0x61 && s[2] == 0x6c && s[3] == 0x73 && s[4] == 0x65
        && suffix_ok_x(s, 5) {
        return true;
    }
    if s.len() >= 4 && s[0] == 0x6e && s[1] == 0x75 && s[2] == 0x6c && s[3] == 0x6c && suffix_ok_x(
        s,
        4,
    ) {
        return true;
    }
    number_like_x(s)
}

fn tail_ok_x(s: &Vec<u8>, i: usize) -> (r: bool)
    requires
        i <= s@.len(),
    ensures
        r == tail_ok(s@, i as nat),
{
    if i >= s.len() {
        return true;
    }
    let mut k: usize = i;
    while k < s.len()
        invariant
            i <= k <= s@.len(),
            forall|m: int| i <= m < k ==> !is_ctl(s@[m]),
        decreases s@.len() - k,
    {
        if s[k] < 0x20 {
            return false;
        }
        k = k + 1;
    }
    let last = s[s.len() - 1];
    !is_ws_x(last) && last != 0x22
}

fn bare_safe_x(s: &Vec<u8>) -> (r: bool)
    ensures
        r == bare_safe(s@),
{
    if s.len() == 0 {
        return false;
    }
    let b0 = s[0];
    if b0 == 0x2f {
        if s.len() < 2 {
            return false;
        }
        let b1 = s[1];
        !(b1 < 0x20) && b1 != 0x2f && b1 != 0x2a && tail_ok_x(s, 2)
    } else {
        let head = !(b0 < 0x20) && !is_ws_x(b0) && !(b0 == 0x22 || b0 == 0x27 || b0 == 0x7b || b0
            == 0x7d || b0 == 0x5b || b0 == 0x5d || b0 == 0x2c || b0 == 0x3a || b0 == 0x23);
        head && tail_ok_x(s, 1)
    }
}

fn double_safe_x(s: &Vec<u8>) -> (r: bool)
    ensures
        r == double_safe(s@),
{
    if s.len() == 0 {
        return false;
    }
    let mut no_break: bool = true;
    let mut all_ws: bool = true;
    let mut k: usize = 0;
    while k < s.len()
        invariant
            k <= s@.len(),
            no_break == (forall|m: int| 0 <= m < k ==> s@[m] != 0x09 && s@[m] != 0x0a && s@[m] != 0x22),
            all_ws == (forall|m: int| 0 <= m < k ==> is_ws(s@[m]) || s@[m] == 0x08),
        decreases s@.len() - k,
    {
        let b = s[k];
        if b == 0x09 || b == 0x0a || b == 0x22 {
            no_break = false;
        }
        if !(is_ws_x(b) || b == 0x08) {
            all_ws = false;
        }
        k = k + 1;
    }
    no_break || all_ws
}

fn has_nl_x(s: &Vec<u8>) -> (r: bool)
    ensures
        r == has_nl(s@),
{
    let mut k: usize = 0;
    while k < s.len()
        invariant
            k <= s@.len(),
            forall|m: int| 0 <= m < k ==> s@[m] != 0x0a,
        decreases s@.len() - k,
    {
        if s[k] == 0x0a {
            return true;
        }
        k = k + 1;
    }
    false
}

fn ml_ok_x(s: &Vec<u8>) -> (r: bool)
    ensures
        r == ml_ok(s@),
{
    if s.len() == 0 {
        return false;
    }
    if s[s.len() - 1] == 0x27 {
        return false;
    }
    let mut k: usize = 0;
    while k < s.len() && s.len() - k >= 3
        invariant
            k <= s@.len(),
            forall|m: int|
                0 <= m < k ==> !(m + 3 <= s@.len() && #[trigger] s@[m] == 0x27 && s@[m + 1] == 0x27
                    && s@[m + 2] == 0x27),
        decreases s@.len() - k,
    {
        if s[k] == 0x27 && s[k + 1] == 0x27 && s[k + 2] == 0x27 {
            proof {
                assert(has_q3(s@));
            }
            return false;
        }
        k = k + 1;
    }
    proof {
        assert(!has_q3(s@)) by {
            if has_q3(s@) {
                let m = choose|m: int|
                    0 <= m && m + 3 <= s@.len() && #[trigger] s@[m] == 0x27 && s@[m + 1] == 0x27
                        && s@[m + 2] == 0x27;
                assert(m < k);
            }
        }
    }
    true
}

/// Whether any position holds a code point the escaper must rewrite.
pub fn contains_forced_x(s: &Vec<u8>) -> (r: bool)
    ensures
        r == contains_forced(s@),
{
    let mut k: usize = 0;
    while k < s.len()
        invariant
            k <= s@.len(),
            forall|m: int| 0 <= m < k ==> !forced_at(s@, m),
        decreases s@.len() - k,
    {
        let b = s[k];
        if 0xc0 <= b && b < 0xe0 && s.len() - k > 1 && 0x80 <= s[k + 1] && s[k + 1] < 0xc0 {
            let cp: u32 = (b as u32 - 0xc0) * 0x40 + (s[k + 1] as u32 - 0x80);
            if is_forced_cp(cp) {
                proof {
                    assert(forced_at(s@, k as int));
                }
                return true;
            }
        }
        if 0xe0 <= b && b < 0xf0 && s.len() - k > 2 && 0x80 <= s[k + 1] && s[k + 1] < 0xc0 && 0x80
            <= s[k + 2] && s[k + 2] < 0xc0 {
            let cp: u32 = (b as u32 - 0xe0) * 0x1000 + (s[k + 1] as u32 - 0x80) * 0x40 + (s[k
                + 2] as u32 - 0x80);
            if is_forced_cp(cp) {
                proof {
                    assert(forced_at(s@, k as int));
                }
                return true;
            }
        }
        if 0xf0 <= b && b < 0xf8 && s.len() - k > 3 && 0x80 <= s[k + 1] && s[k + 1] < 0xc0 && 0x80
            <= s[k + 2] && s[k + 2] < 0xc0 && 0x80 <= s[k + 3] && s[k + 3] < 0xc0 {
            proof {
                assert(forced_at(s@, k as int));
            }
            return true;
        }
        proof {
            assert(!forced_at(s@, k as int));
        }
        k = k + 1;
    }
    false
}

/// Decides how a string value is rendered in pretty mode.
pub fn classify_str(s: &Vec<u8>) -> (k: StrKind)
    ensures
        k == classify(s@),
{
    let nq = literal_like_x(s) || !bare_safe_x(s) || contains_forced_x(s);
    if !nq {
        StrKind::Unquoted
    } else if double_safe_x(s) {
        StrKind::DoubleQuoted
    } else if contains_forced_x(s) {
        StrKind::DoubleQuoted
    } else if !has_nl_x(s) {
        StrKind::TripleQuoted
    } else if ml_ok_x(s) {
        StrKind::MultilineTripleQuoted
    } else {
        StrKind::DoubleQuoted
    }
}

fn member_rest_x(s: &Vec<u8>) -> (r: bool)
    ensures
        r == member_rest(s@, 0),
{
    let mut i: usize = 0;
    let mut last_a: bool = false;
    while i < s.len()
        invariant
            i <= s@.len(),
            i < s@.len() ==> member_rest(s@, 0) == member_rest(s@, i as nat),
            i >= s@.len() ==> member_rest(s@, 0) == last_a,
        decreases s@.len() - i,
    {
        let b = s[i];
        if b == 0x2f {
            if i + 1 < s.len() && {
                let b1 = s[i + 1];
                !(b1 < 0x20) && !is_ws_x(b1) && b1 != 0x22 && b1 != 0x27 && b1 != 0x7b && b1
                    != 0x7d && b1 != 0x5b && b1 != 0x5d && b1 != 0x2c && b1 != 0x3a && b1 != 0x2f
                    && b1 != 0x2a
            } {
                last_a = false;
                i = i + 2;
            } else {
                proof {
                    assert(!member_rest(s@, i as nat));
                }
                return false;
            }
        } else {
            let a = !(b < 0x20) && !is_ws_x(b) && !(b == 0x22 || b == 0x27 || b == 0x7b || b
                == 0x7d || b == 0x5b || b == 0x5d || b == 0x2c || b == 0x3a || b == 0x2f || b
                == 0x23);
            if a {
                last_a = true;
                i = i + 1;
            } else {
                proof {
                    assert(!member_rest(s@, i as nat));
                }
                return false;
            }
        }
    }
    if s.len() == 0 {
        proof {
            assert(!member_rest(s@, 0));
        }
    }
    last_a
}

/// Decides whether a member key may be emitted bare.
pub fn member_bare_x(s: &Vec<u8>) -> (r: bool)
    ensures
        r == member_bare(s@),
{
    if s.len() == 0 {
        return false;
    }
    let single = (s.len() == 1 && {
        let b = s[0];
        !(b < 0x20) && !is_ws_x(b) && !(b == 0x22 || b == 0x27 || b == 0x7b || b == 0x7d || b
            == 0x5b || b == 0x5d || b == 0x2c || b == 0x3a || b == 0x2f || b == 0x23)
    }) || (s.len() == 2 && s[0] == 0x2f && {
        let b1 = s[1];
        !(b1 < 0x20) && !is_ws_x(b1) && b1 != 0x22 && b1 != 0x27 && b1 != 0x7b && b1 != 0x7d && b1
            != 0x5b && b1 != 0x5d && b1 != 0x2c && b1 != 0x3a && b1 != 0x2f && b1 != 0x2a
    });
    let ok = single || member_rest_x(s);
    if !ok {
        return false;
    }
    !contains_forced_x(s)
}

} // verus!
