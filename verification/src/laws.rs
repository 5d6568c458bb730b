use vstd::prelude::*;
use crate::classify::classify;
use crate::classify::bare_safe;
use crate::classify::double_safe;
use crate::classify::has_nl;
use crate::classify::has_q3;
use crate::classify::is_ws;
use crate::classify::is_ctl;
use crate::classify::literal_like;
use crate::classify::needs_quotes;
use crate::classify::tail_ok;
use crate::classify::StrKind;
use crate::emit::lit_null;
use crate::emit::sp;
use crate::emit::nl_ind;
use crate::emit::B_LBRACKET;
use crate::emit::B_RBRACKET;
use crate::emit::B_LBRACE;
use crate::emit::B_RBRACE;
use crate::escape::contains_forced;
use crate::escape::forced_at;
use crate::escape::esc_step;
use crate::escape::esc_content;
use crate::escape::dq;
use crate::escape::lead2;
use crate::escape::lead3;
use crate::escape::lead4;
use crate::escape::is_cont;
use crate::escape::cp2;
use crate::escape::cp3;
use crate::escape::cp4;
use crate::escape::uesc4;
use crate::escape::uesc6;
use crate::render::ml_block;
use crate::render::p_str;
use crate::render::p_value;
use crate::value::key_ok;
use crate::value::keys_ok;
use crate::value::Value;

verus! {

/// Law: in pretty mode an empty sequence or empty map collapses to its
/// two-byte form — preceded by one space when it stands as an object
/// member's value — with no line break, at every nesting level.
pub proof fn lemma_pretty_empty_collapses(u: Seq<u8>, v: Value, lvl: nat, in_obj: bool)
    requires
        (v matches Value::Array(es) && es@.len() == 0) || (v matches Value::Object(kvs)
            && kvs@.len() == 0),
    ensures
        v is Array ==> p_value(u, v, lvl, in_obj) == sp(in_obj) + seq![B_LBRACKET, B_RBRACKET],
        v is Object ==> p_value(u, v, lvl, in_obj) == sp(in_obj) + seq![B_LBRACE, B_RBRACE],
{
}

/// Law: a non-finite float renders as the `null` literal, in compact and
/// in pretty mode alike.
pub proof fn lemma_nonfinite_is_null(u: Seq<u8>, v: Value, lvl: nat, in_obj: bool)
    requires
        v matches Value::Float(o) && o is None,
    ensures
        crate::render::c_value(v) == lit_null(),
        p_value(u, v, lvl, in_obj) == sp(in_obj) + lit_null(),
{
}

/// Law: a string whose shape collides with a bare literal is never
/// emitted bare.
pub proof fn lemma_literal_like_quoted(s: Seq<u8>)
    requires
        literal_like(s),
    ensures
        classify(s) != StrKind::Unquoted,
{
}

/// Law: a map entry whose key is itself a sequence or a map poisons the
/// whole tree: no key-respecting encode of it can succeed, so every
/// encoding entry point returns the key error.
pub proof fn lemma_composite_key_rejected(v: Value, i: int)
    requires
        v matches Value::Object(kvs) && 0 <= i < kvs@.len() && (kvs@[i].0 is Array || kvs@[i].0
            is Object),
    ensures
        !key_ok((v.arrow_Object_0())@[i].0),
        !keys_ok(v),
{
}

/// A line break anywhere forbids the bare form.
proof fn lemma_nl_not_bare(s: Seq<u8>, k: int)
    requires
        0 <= k < s.len(),
        s[k] == 0x0a,
    ensures
        !bare_safe(s),
{
    if bare_safe(s) {
        assert(is_ctl(s[k]));
        if s[0] == 0x2f {
            if k >= 2 {
                assert(!tail_ok(s, 2));
            }
        } else {
            if k >= 1 {
                assert(!tail_ok(s, 1));
            }
        }
    }
}

/// Law: a string holding a line break and no early block terminator — no
/// three apostrophes in a row, no trailing apostrophe — and nothing that
/// forces escaping renders as a multi-line triple-quoted block, unless it
/// is whitespace only: the opening delimiter on its own line, each content
/// line re-indented to the enclosing level, and the closing delimiter
/// indented the same way. As an object member's value the block moves one
/// level deeper, below the key's line.
pub proof fn lemma_multiline_block(s: Seq<u8>, u: Seq<u8>, lvl: nat, in_obj: bool)
    requires
        has_nl(s),
        !has_q3(s),
        s.last() != 0x27,
        !contains_forced(s),
        !(forall|k: int| 0 <= k < s.len() ==> is_ws(s[k]) || s[k] == 0x08),
    ensures
        classify(s) == StrKind::MultilineTripleQuoted,
        p_str(s, u, lvl, in_obj) == (if in_obj {
            nl_ind(u, lvl + 1) + ml_block(s, u, lvl + 1)
        } else {
            ml_block(s, u, lvl)
        }),
{
    let k = choose|k: int| 0 <= k < s.len() && s[k] == 0x0a;
    lemma_nl_not_bare(s, k);
    assert(needs_quotes(s));
    assert(!double_safe(s));
}

/// Law (a round-trip witness for the block writer): at nesting level zero
/// the body of a multi-line block reproduces the input text verbatim, with
/// one trailing line break added — no byte of the text is altered.
pub proof fn lemma_ml_body_verbatim(s: Seq<u8>)
    ensures
        crate::render::ml_body(s, Seq::<u8>::empty()) == s + seq![0x0au8],
    decreases s.len(),
{
    crate::render::lemma_nl_pos(s);
    let e = crate::render::nl_pos(s);
    if s.len() == 0 {
        assert(crate::render::ml_body(s, Seq::<u8>::empty()) =~= s + seq![0x0au8]);
    } else if e >= s.len() {
        assert(Seq::<u8>::empty() + s + seq![0x0au8] =~= s + seq![0x0au8]);
    } else if e == 0 {
        lemma_ml_body_verbatim(s.skip(1));
        assert(s[0] == 0x0a);
        assert(seq![0x0au8] + (s.skip(1) + seq![0x0au8]) =~= s + seq![0x0au8]);
    } else {
        lemma_ml_body_verbatim(s.skip(e + 1 as int));
        assert(s[e as int] == 0x0a);
        assert(Seq::<u8>::empty() + s.take(e as int) + seq![0x0au8] + (s.skip(e + 1 as int)
            + seq![0x0au8]) =~= s + seq![0x0au8]);
    }
}

/// The `\u` escape that the encoder writes for the forced sequence at `k`.
pub open spec fn forced_escape_of(s: Seq<u8>, k: int) -> Seq<u8> {
    if lead2(s[k]) {
        uesc4(cp2(s[k], s[k + 1]))
    } else if lead3(s[k]) {
        uesc4(cp3(s[k], s[k + 1], s[k + 2]))
    } else {
        uesc6(cp4(s[k], s[k + 1], s[k + 2], s[k + 3]))
    }
}

/// The needle stands somewhere inside the haystack.
pub open spec fn has_sub(h: Seq<u8>, n: Seq<u8>) -> bool {
    exists|j: int| 0 <= j && j + n.len() <= h.len() && #[trigger] h.subrange(j, j + n.len()) == n
}

/// Prepending keeps a needle findable.
proof fn lemma_has_sub_prepend(a: Seq<u8>, b: Seq<u8>, n: Seq<u8>)
    requires
        has_sub(b, n),
    ensures
        has_sub(a + b, n),
{
    let j = choose|j: int| 0 <= j && j + n.len() <= b.len() && #[trigger] b.subrange(j, j + n.len())
        == n;
    assert((a + b).subrange(a.len() + j, a.len() + j + n.len()) =~= b.subrange(j, j + n.len()));
}

/// One escape step consumes at least one byte and never more than remain.
proof fn lemma_esc_step_len(s: Seq<u8>)
    requires
        s.len() > 0,
    ensures
        1 <= esc_step(s).1 <= s.len(),
{
    reveal(esc_step);
}

/// Every byte an escape step consumes past the first is a continuation
/// byte.
proof fn lemma_esc_step_cont(s: Seq<u8>)
    requires
        s.len() > 0,
    ensures
        forall|m: int| 1 <= m < esc_step(s).1 ==> is_cont(#[trigger] s[m]),
{
    reveal(esc_step);
}

/// A forced sequence at the front is escaped by the step at the front.
proof fn lemma_esc_step_forced(s: Seq<u8>)
    requires
        s.len() > 0,
        forced_at(s, 0),
    ensures
        esc_step(s).0 == forced_escape_of(s, 0),
{
    reveal(esc_step);
}

/// Law (escaper half): wherever a forced code point stands in the input,
/// the escaped body of the double-quoted rendering holds its `\u` escape.
pub proof fn lemma_forced_escaped(s: Seq<u8>, k: int)
    requires
        0 <= k < s.len(),
        forced_at(s, k),
    ensures
        has_sub(esc_content(s), forced_escape_of(s, k)),
    decreases s.len(),
{
    lemma_esc_step_len(s);
    let st = esc_step(s);
    let e = st.0;
    let n = st.1;
    if k == 0 {
        lemma_esc_step_forced(s);
        assert(esc_content(s) == e + esc_content(s.skip(n as int)));
        assert(esc_content(s).subrange(0, 0 + e.len() as int) =~= e);
        assert(has_sub(esc_content(s), e));
    } else {
        // the step never swallows a later lead byte: every byte it consumes
        // past the first is a continuation byte, and a forced position
        // starts with a lead byte
        lemma_esc_step_cont(s);
        assert(k >= n) by {
            if k < n {
                assert(is_cont(s[k]));
                assert(!lead2(s[k]) && !lead3(s[k]) && !lead4(s[k]));
            }
        }
        let t = s.skip(n as int);
        assert(t[k - n] == s[k]);
        assert(forced_at(t, k - n)) by {
            if k + 1 < s.len() {
                assert(t[k - n + 1] == s[k + 1]);
            }
            if k + 2 < s.len() {
                assert(t[k - n + 2] == s[k + 2]);
            }
            if k + 3 < s.len() {
                assert(t[k - n + 3] == s[k + 3]);
            }
        }
        lemma_forced_escaped(t, k - n);
        assert(forced_escape_of(t, k - n) == forced_escape_of(s, k)) by {
            if k + 1 < s.len() {
                assert(t[k - n + 1] == s[k + 1]);
            }
            if k + 2 < s.len() {
                assert(t[k - n + 2] == s[k + 2]);
            }
            if k + 3 < s.len() {
                assert(t[k - n + 3] == s[k + 3]);
            }
        }
        assert(esc_content(s) == e + esc_content(t));
        lemma_has_sub_prepend(e, esc_content(t), forced_escape_of(s, k));
    }
}

/// Law (classifier half): a string holding a code point that the escape
/// encoder must rewrite — the byte-order mark, a bidirectional control, a
/// joiner and the rest of the forced set — is always rendered
/// double-quoted and escaped, never bare and never verbatim.
pub proof fn lemma_forced_always_double(s: Seq<u8>, u: Seq<u8>, lvl: nat, in_obj: bool)
    requires
        contains_forced(s),
    ensures
        classify(s) == StrKind::DoubleQuoted,
        p_str(s, u, lvl, in_obj) == sp(in_obj) + dq(s),
{
}

/// Law (member half): a member key holding a forced code point is never
/// bare either; it is rendered double-quoted and escaped.
pub proof fn lemma_forced_member_double(s: Seq<u8>)
    requires
        contains_forced(s),
    ensures
        crate::render::p_mstr(s) == dq(s),
{
}

/// Law (both halves): the rendering of a string holding a forced code
/// point is double-quoted — in compact mode, in pretty mode and as a
/// member key alike — and holds that code point's `\u` escape.
pub proof fn lemma_forced_escape_visible(s: Seq<u8>, u: Seq<u8>, lvl: nat, in_obj: bool, k: int)
    requires
        0 <= k < s.len(),
        forced_at(s, k),
    ensures
        p_str(s, u, lvl, in_obj) == sp(in_obj) + dq(s),
        has_sub(dq(s), forced_escape_of(s, k)),
        has_sub(p_str(s, u, lvl, in_obj), forced_escape_of(s, k)),
{
    assert(contains_forced(s));
    lemma_forced_always_double(s, u, lvl, in_obj);
    lemma_forced_escaped(s, k);
    let n = forced_escape_of(s, k);
    let j = choose|j: int| 0 <= j && j + n.len() <= esc_content(s).len() && #[trigger] esc_content(
        s,
    ).subrange(j, j + n.len()) == n;
    assert(dq(s).subrange(1 + j, 1 + j + n.len()) =~= esc_content(s).subrange(j, j + n.len()));
    let pre = sp(in_obj) + seq![crate::emit::B_QUOTE];
    assert(p_str(s, u, lvl, in_obj).subrange(pre.len() + j, pre.len() + j + n.len())
        =~= esc_content(s).subrange(j, j + n.len()));
}

} // verus!
