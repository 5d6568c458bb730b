use vstd::prelude::*;
use crate::emit::push_byte;
use crate::emit::B_BACKSLASH;
use crate::emit::B_QUOTE;
use crate::emit::B_APOS;

verus! {

// ---------------------------------------------------------------------------
// UTF-8 shape predicates and code point arithmetic.
// ---------------------------------------------------------------------------

/// A UTF-8 continuation byte.
pub open spec fn is_cont(b: u8) -> bool {
    0x80 <= b && b < 0xc0
}

/// The lead byte of a two-byte UTF-8 sequence.
pub open spec fn lead2(b: u8) -> bool {
    0xc0 <= b && b < 0xe0
}

/// The lead byte of a three-byte UTF-8 sequence.
pub open spec fn lead3(b: u8) -> bool {
    0xe0 <= b && b < 0xf0
}

/// The lead byte of a four-byte UTF-8 sequence.
pub open spec fn lead4(b: u8) -> bool {
    0xf0 <= b && b < 0xf8
}

/// The code point of a two-byte sequence.
pub open spec fn cp2(b0: u8, b1: u8) -> int {
    (b0 - 0xc0) * 0x40 + (b1 - 0x80)
}

/// The code point of a three-byte sequence.
pub open spec fn cp3(b0: u8, b1: u8, b2: u8) -> int {
    (b0 - 0xe0) * 0x1000 + (b1 - 0x80) * 0x40 + (b2 - 0x80)
}

/// The code point of a four-byte sequence.
pub open spec fn cp4(b0: u8, b1: u8, b2: u8, b3: u8) -> int {
    (b0 - 0xf0) * 0x40000 + (b1 - 0x80) * 0x1000 + (b2 - 0x80) * 0x40 + (b3 - 0x80)
}

/// The code points below the 16-bit boundary that are never emitted
/// literally: they are invisible, bidirectional or joining controls, the
/// byte-order mark, line and paragraph separators, the soft hyphen, the
/// arbitrary-width space block, or noncharacters.
pub open spec fn forced_cp(cp: int) -> bool {
    (0x7f <= cp && cp <= 0x9f) || cp == 0xad || (0x600 <= cp && cp <= 0x604) || cp == 0x70f
        || cp == 0x17b4 || cp == 0x17b5 || (0x200c <= cp && cp <= 0x200f) || (0x2028 <= cp && cp
        <= 0x202f) || (0x2060 <= cp && cp <= 0x206f) || cp == 0xfeff || (0xfff0 <= cp && cp
        <= 0xffff)
}

/// A multi-byte sequence starting at `k` decodes to a code point that the
/// escape encoder always rewrites as a `\u` escape. Four-byte sequences lie
/// above the 16-bit range and are always rewritten.
pub open spec fn forced_at(s: Seq<u8>, k: int) -> bool {
    (lead2(s[k]) && k + 1 < s.len() && is_cont(s[k + 1]) && forced_cp(cp2(s[k], s[k + 1]))) || (
    lead3(s[k]) && k + 2 < s.len() && is_cont(s[k + 1]) && is_cont(s[k + 2]) && forced_cp(
        cp3(s[k], s[k + 1], s[k + 2]),
    )) || (lead4(s[k]) && k + 3 < s.len() && is_cont(s[k + 1]) && is_cont(s[k + 2]) && is_cont(
        s[k + 3],
    ))
}

/// The string holds a code point that must be `\u`-escaped; such a string is
/// always rendered double-quoted, never bare or verbatim.
pub open spec fn contains_forced(s: Seq<u8>) -> bool {
    exists|k: int| 0 <= k < s.len() && forced_at(s, k)
}

// ---------------------------------------------------------------------------
// Escape text.
// ---------------------------------------------------------------------------

/// The lowercase hexadecimal digit for `n`.
pub open spec fn hex_digit(n: int) -> u8 {
    if n < 10 {
        (0x30 + n) as u8
    } else {
        (0x57 + n) as u8
    }
}

/// A four-digit `\uXXXX` escape.
pub open spec fn uesc4(cp: int) -> Seq<u8> {
    seq![
        B_BACKSLASH,
        0x75u8,
        hex_digit((cp / 0x1000) % 16),
        hex_digit((cp / 0x100) % 16),
        hex_digit((cp / 0x10) % 16),
        hex_digit(cp % 16),
    ]
}

/// A brace-delimited six-digit `\u{XXXXXX}` escape for code points above
/// the 16-bit range.
pub open spec fn uesc6(cp: int) -> Seq<u8> {
    seq![
        B_BACKSLASH,
        0x75u8,
        0x7bu8,
        hex_digit((cp / 0x100000) % 16),
        hex_digit((cp / 0x10000) % 16),
        hex_digit((cp / 0x1000) % 16),
        hex_digit((cp / 0x100) % 16),
        hex_digit((cp / 0x10) % 16),
        hex_digit(cp % 16),
        0x7du8,
    ]
}

/// One step of the escape encoder: the bytes emitted for the sequence
/// starting at the front of `s`, and how many input bytes that decision
/// consumed.
///
/// Single bytes: the short mnemonic escapes for backspace, tab, newline,
/// form feed, carriage return, quote and backslash; `\u00XX` for the other
/// controls; everything else below 0x80 passes through. A well-formed
/// two- or three-byte sequence is decoded and escaped exactly when its code
/// point is in the forced set; a four-byte sequence is always escaped with
/// the brace form; malformed bytes pass through singly.
#[verifier::opaque]
pub open spec fn esc_step(s: Seq<u8>) -> (Seq<u8>, nat)
    recommends
        s.len() > 0,
{
    let b = s[0];
    if b == 0x08 {
        (seq![B_BACKSLASH, 0x62u8], 1nat)
    } else if b == 0x09 {
        (seq![B_BACKSLASH, 0x74u8], 1nat)
    } else if b == 0x0a {
        (seq![B_BACKSLASH, 0x6eu8], 1nat)
    } else if b == 0x0c {
        (seq![B_BACKSLASH, 0x66u8], 1nat)
    } else if b == 0x0d {
        (seq![B_BACKSLASH, 0x72u8], 1nat)
    } else if b == B_QUOTE {
        (seq![B_BACKSLASH, B_QUOTE], 1nat)
    } else if b == B_BACKSLASH {
        (seq![B_BACKSLASH, B_BACKSLASH], 1nat)
    } else if b < 0x20 {
        (uesc4(b as int), 1nat)
    } else if b < 0x80 {
        (seq![b], 1nat)
    } else if lead2(b) && s.len() >= 2 && is_cont(s[1]) {
        let cp = cp2(b, s[1]);
        if forced_cp(cp) {
            (uesc4(cp), 2nat)
        } else {
            (seq![s[0], s[1]], 2nat)
        }
    } else if lead3(b) && s.len() >= 3 && is_cont(s[1]) && is_cont(s[2]) {
        let cp = cp3(b, s[1], s[2]);
        if forced_cp(cp) {
            (uesc4(cp), 3nat)
        } else {
            (seq![s[0], s[1], s[2]], 3nat)
        }
    } else if lead4(b) && s.len() >= 4 && is_cont(s[1]) && is_cont(s[2]) && is_cont(s[3]) {
        (uesc6(cp4(b, s[1], s[2], s[3])), 4nat)
    } else {
        (seq![b], 1nat)
    }
}

/// The body of a double-quoted string: the whole input rewritten by
/// repeated escape steps.
pub open spec fn esc_content(s: Seq<u8>) -> Seq<u8>
    decreases s.len(),
    via esc_content_decreases
{
    if s.len() == 0 {
        Seq::empty()
    } else {
        let st = esc_step(s);
        st.0 + esc_content(s.skip(st.1 as int))
    }
}

#[via_fn]
proof fn esc_content_decreases(s: Seq<u8>) {
    reveal(esc_step);
    if s.len() > 0 {
        assert(1 <= esc_step(s).1 <= s.len());
    }
}

/// A full double-quoted, escaped string.
pub open spec fn dq(s: Seq<u8>) -> Seq<u8> {
    seq![B_QUOTE] + esc_content(s) + seq![B_QUOTE]
}

/// The triple-apostrophe delimiter.
pub open spec fn q3() -> Seq<u8> {
    seq![B_APOS, B_APOS, B_APOS]
}

/// A single-line triple-quoted verbatim string.
pub open spec fn tq(s: Seq<u8>) -> Seq<u8> {
    q3() + s + q3()
}

// ---------------------------------------------------------------------------
// Executable escape encoder.
// ---------------------------------------------------------------------------

/// The lowercase hexadecimal digit for `n`.
pub fn hex_digit_x(n: u32) -> (r: u8)
    requires
        n < 16,
    ensures
        r == hex_digit(n as int),
{
    if n < 10 {
        (0x30 + n) as u8
    } else {
        (0x57 + n) as u8
    }
}

/// Whether the escape encoder must rewrite code point `cp`.
pub fn is_forced_cp(cp: u32) -> (r: bool)
    ensures
        r == forced_cp(cp as int),
{
    (0x7f <= cp && cp <= 0x9f) || cp == 0xad || (0x600 <= cp && cp <= 0x604) || cp == 0x70f
        || cp == 0x17b4 || cp == 0x17b5 || (0x200c <= cp && cp <= 0x200f) || (0x2028 <= cp && cp
        <= 0x202f) || (0x2060 <= cp && cp <= 0x206f) || cp == 0xfeff || (0xfff0 <= cp && cp
        <= 0xffff)
}

/// Writes a four-digit `\uXXXX` escape for `cp`.
pub fn push_uesc4(out: &mut Vec<u8>, cp: u32)
    requires
        cp < 0x10000,
    ensures
        final(out)@ == old(out)@ + uesc4(cp as int),
{
    out.push(B_BACKSLASH);
    out.push(0x75);
    out.push(hex_digit_x((cp / 0x1000) % 16));
    out.push(hex_digit_x((cp / 0x100) % 16));
    out.push(hex_digit_x((cp / 0x10) % 16));
    out.push(hex_digit_x(cp % 16));
    proof {
        assert(out@ =~= old(out)@ + uesc4(cp as int));
    }
}

/// Writes a brace-delimited six-digit `\u{XXXXXX}` escape for `cp`.
pub fn push_uesc6(out: &mut Vec<u8>, cp: u32)
    requires
        cp < 0x1000000,
    ensures
        final(out)@ == old(out)@ + uesc6(cp as int),
{
    out.push(B_BACKSLASH);
    out.push(0x75);
    out.push(0x7b);
    out.push(hex_digit_x((cp / 0x100000) % 16));
    out.push(hex_digit_x((cp / 0x10000) % 16));
    out.push(hex_digit_x((cp / 0x1000) % 16));
    out.push(hex_digit_x((cp / 0x100) % 16));
    out.push(hex_digit_x((cp / 0x10) % 16));
    out.push(hex_digit_x(cp % 16));
    out.push(0x7d);
    proof {
        assert(out@ =~= old(out)@ + uesc6(cp as int));
    }
}

fn push_two(out: &mut Vec<u8>, a: u8, b: u8)
    ensures
        final(out)@ == old(out)@ + seq![a, b],
{
    out.push(a);
    out.push(b);
    proof {
        assert(out@ =~= old(out)@ + seq![a, b]);
    }
}

/// Writes the escape step for the input position `i` and returns how many
/// input bytes it consumed.
#[verifier::rlimit(100)]
#[verifier::spinoff_prover]
fn write_esc_step(out: &mut Vec<u8>, s: &Vec<u8>, i: usize) -> (n: usize)
    requires
        i < s@.len(),
    ensures
        final(out)@ == old(out)@ + esc_step(s@.skip(i as int)).0,
        n as nat == esc_step(s@.skip(i as int)).1,
        1 <= n && i + n <= s@.len(),
{
    let ghost t = s@.skip(i as int);
    proof {
        reveal(esc_step);
        assert(t[0] == s@[i as int]);
    }
    let b = s[i];
    if b == 0x08 {
        push_two(out, B_BACKSLASH, 0x62);
        1
    } else if b == 0x09 {
        push_two(out, B_BACKSLASH, 0x74);
        1
    } else if b == 0x0a {
        push_two(out, B_BACKSLASH, 0x6e);
        1
    } else if b == 0x0c {
        push_two(out, B_BACKSLASH, 0x66);
        1
    } else if b == 0x0d {
        push_two(out, B_BACKSLASH, 0x72);
        1
    } else if b == B_QUOTE {
        push_two(out, B_BACKSLASH, B_QUOTE);
        1
    } else if b == B_BACKSLASH {
        push_two(out, B_BACKSLASH, B_BACKSLASH);
        1
    } else if b < 0x20 {
        push_uesc4(out, b as u32);
        1
    } else if b < 0x80 {
        push_byte(out, b);
        proof {
            assert(seq![b] =~= esc_step(t).0);
        }
        1
    } else if 0xc0 <= b && b < 0xe0 && s.len() - i > 1 && {
        let b1 = s[i + 1];
        0x80 <= b1 && b1 < 0xc0
    } {
        let b1 = s[i + 1];
        proof {
            assert(t[1] == s@[i + 1]);
        }
        let cp: u32 = (b as u32 - 0xc0) * 0x40 + (b1 as u32 - 0x80);
        if is_forced_cp(cp) {
            push_uesc4(out, cp);
        } else {
            push_two(out, b, b1);
        }
        2
    } else if 0xe0 <= b && b < 0xf0 && s.len() - i > 2 && {
        let b1 = s[i + 1];
        let b2 = s[i + 2];
        0x80 <= b1 && b1 < 0xc0 && 0x80 <= b2 && b2 < 0xc0
    } {
        let b1 = s[i + 1];
        let b2 = s[i + 2];
        proof {
            assert(t[1] == s@[i + 1]);
            assert(t[2] == s@[i + 2]);
        }
        let cp: u32 = (b as u32 - 0xe0) * 0x1000 + (b1 as u32 - 0x80) * 0x40 + (b2 as u32 - 0x80);
        if is_forced_cp(cp) {
            push_uesc4(out, cp);
        } else {
            push_byte(out, b);
            push_two(out, b1, b2);
            proof {
                assert(old(out)@ + seq![b] + seq![b1, b2] =~= old(out)@ + seq![b, b1, b2]);
                assert(seq![b, b1, b2] =~= esc_step(t).0);
            }
        }
        3
    } else if 0xf0 <= b && b < 0xf8 && s.len() - i > 3 && {
        let b1 = s[i + 1];
        let b2 = s[i + 2];
        let b3 = s[i + 3];
        0x80 <= b1 && b1 < 0xc0 && 0x80 <= b2 && b2 < 0xc0 && 0x80 <= b3 && b3 < 0xc0
    } {
        let b1 = s[i + 1];
        let b2 = s[i + 2];
        let b3 = s[i + 3];
        proof {
            assert(t[1] == s@[i + 1]);
            assert(t[2] == s@[i + 2]);
            assert(t[3] == s@[i + 3]);
        }
        let cp: u32 = (b as u32 - 0xf0) * 0x40000 + (b1 as u32 - 0x80) * 0x1000 + (b2 as u32
            - 0x80) * 0x40 + (b3 as u32 - 0x80);
        push_uesc6(out, cp);
        4
    } else {
        push_byte(out, b);
        proof {
            assert(seq![b] =~= esc_step(t).0);
        }
        1
    }
}

/// Splitting off one escape step splits the escaped body.
proof fn lemma_esc_content_step(s: Seq<u8>, i: int, n: int)
    requires
        0 <= i < s.len(),
        esc_step(s.skip(i)).1 == n,
        i + n <= s.len(),
    ensures
        esc_content(s.skip(i)) == esc_step(s.skip(i)).0 + esc_content(s.skip(i + n)),
{
    assert(s.skip(i).skip(n) =~= s.skip(i + n));
}

proof fn lemma_escape_loop_step(pre: Seq<u8>, cur: Seq<u8>, base: Seq<u8>, s: Seq<u8>, i: int, n: int)
    requires
        0 <= i < s.len(),
        1 <= n,
        i + n <= s.len(),
        esc_step(s.skip(i)).1 == n,
        cur == pre + esc_step(s.skip(i)).0,
        pre + esc_content(s.skip(i)) == base + esc_content(s),
    ensures
        cur + esc_content(s.skip(i + n)) == base + esc_content(s),
{
    lemma_esc_content_step(s, i, n);
    assert((pre + esc_step(s.skip(i)).0) + esc_content(s.skip(i + n)) =~= pre + (esc_step(
        s.skip(i),
    ).0 + esc_content(s.skip(i + n))));
}

/// Writes the escaped body of `s`, as it appears between double quotes.
#[verifier::rlimit(100)]
#[verifier::spinoff_prover]
pub fn escape_content(out: &mut Vec<u8>, s: &Vec<u8>)
    ensures
        final(out)@ == old(out)@ + esc_content(s@),
{
    let mut i: usize = 0;
    proof {
        assert(s@.skip(0) =~= s@);
    }
    while i < s.len()
        invariant
            i <= s@.len(),
            out@ + esc_content(s@.skip(i as int)) == old(out)@ + esc_content(s@),
        decreases s@.len() - i,
    {
        let ghost pre = out@;
        let n = write_esc_step(out, s, i);
        proof {
            lemma_escape_loop_step(pre, out@, old(out)@, s@, i as int, n as int);
        }
        i = i + n;
    }
    proof {
        assert(s@.skip(s@.len() as int) =~= Seq::<u8>::empty());
        assert(out@ + Seq::<u8>::empty() =~= out@);
    }
}

/// Writes a full double-quoted escaped string.
pub fn write_dq(out: &mut Vec<u8>, s: &Vec<u8>)
    ensures
        final(out)@ == old(out)@ + dq(s@),
{
    push_byte(out, B_QUOTE);
    escape_content(out, s);
    push_byte(out, B_QUOTE);
    proof {
        assert(((old(out)@ + seq![B_QUOTE]) + esc_content(s@)) + seq![B_QUOTE] =~= old(out)@ + (
        (seq![B_QUOTE] + esc_content(s@)) + seq![B_QUOTE]));
    }
}

/// Writes a single-line triple-quoted verbatim string.
pub fn write_tq(out: &mut Vec<u8>, s: &Vec<u8>)
    ensures
        final(out)@ == old(out)@ + tq(s@),
{
    push_q3(out);
    crate::emit::push_bytes(out, s);
    push_q3(out);
    proof {
        assert(((old(out)@ + q3()) + s@) + q3() =~= old(out)@ + ((q3() + s@) + q3()));
    }
}

/// Writes the triple-apostrophe delimiter.
pub fn push_q3(out: &mut Vec<u8>)
    ensures
        final(out)@ == old(out)@ + q3(),
{
    out.push(B_APOS);
    out.push(B_APOS);
    out.push(B_APOS);
    proof {
        assert(out@ =~= old(out)@ + q3());
    }
}

} // verus!
