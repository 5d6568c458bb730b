use vstd::prelude::*;
use crate::emit::lit_null;
use crate::emit::lit_true;
use crate::emit::lit_false;
use crate::emit::sp;
use crate::emit::ind;
use crate::emit::nl_ind;
use crate::emit::B_QUOTE;
use crate::emit::B_COMMA;
use crate::emit::B_COLON;
use crate::emit::B_LBRACKET;
use crate::emit::B_RBRACKET;
use crate::emit::B_LBRACE;
use crate::emit::B_RBRACE;
use crate::emit::B_NL;
use crate::escape::dq;
use crate::escape::tq;
use crate::escape::q3;
use crate::classify::classify;
use crate::classify::member_bare;
use crate::classify::StrKind;
use crate::numfmt::dec_nat;
use crate::numfmt::dec_u64;
use crate::numfmt::dec_i64;
use crate::value::Value;

verus! {

// ---------------------------------------------------------------------------
// Shared pieces.
// ---------------------------------------------------------------------------

/// The UTF-8 bytes of code point `cp`.
pub open spec fn utf8_of_cp(cp: int) -> Seq<u8> {
    if cp < 0x80 {
        seq![cp as u8]
    } else if cp < 0x800 {
        seq![(0xc0 + cp / 0x40) as u8, (0x80 + cp % 0x40) as u8]
    } else if cp < 0x10000 {
        seq![
            (0xe0 + cp / 0x1000) as u8,
            (0x80 + (cp / 0x40) % 0x40) as u8,
            (0x80 + cp % 0x40) as u8,
        ]
    } else {
        seq![
            (0xf0 + cp / 0x40000) as u8,
            (0x80 + (cp / 0x1000) % 0x40) as u8,
            (0x80 + (cp / 0x40) % 0x40) as u8,
            (0x80 + cp % 0x40) as u8,
        ]
    }
}

/// The UTF-8 bytes of a character, fed to the string rendering paths.
pub open spec fn utf8_char(c: char) -> Seq<u8> {
    utf8_of_cp(c as int)
}

// ---------------------------------------------------------------------------
// Compact rendering: plain JSON punctuation, no whitespace, every string
// double-quoted and escaped.
// ---------------------------------------------------------------------------

/// A compact member key. Only string-representable keys are rendered;
/// ineligible keys make the encoder fail before emitting the entry.
pub open spec fn c_key(k: Value) -> Seq<u8>
    decreases k,
{
    match k {
        Value::Str(s) => dq(s@),
        Value::Int(i) => seq![B_QUOTE] + dec_i64(i) + seq![B_QUOTE],
        Value::Uint(n) => seq![B_QUOTE] + dec_u64(n) + seq![B_QUOTE],
        Value::UnitVariant(n) => dq(n@),
        Value::NewtypeStruct(b) => c_key(*b),
        _ => Seq::empty(),
    }
}

/// Array elements joined by commas.
pub open spec fn c_elems(es: Seq<Value>, first: bool) -> Seq<u8>
    decreases es,
{
    if es.len() == 0 {
        Seq::empty()
    } else {
        (if first {
            Seq::empty()
        } else {
            seq![B_COMMA]
        }) + c_value(es[0]) + c_elems(es.drop_first(), false)
    }
}

/// Object entries joined by commas.
pub open spec fn c_entries(kvs: Seq<(Value, Value)>, first: bool) -> Seq<u8>
    decreases kvs,
{
    if kvs.len() == 0 {
        Seq::empty()
    } else {
        (if first {
            Seq::empty()
        } else {
            seq![B_COMMA]
        }) + c_key(kvs[0].0) + seq![B_COLON] + c_value(kvs[0].1) + c_entries(
            kvs.drop_first(),
            false,
        )
    }
}

/// Named fields of a struct variant joined by commas.
pub open spec fn c_fields(fs: Seq<(Vec<u8>, Value)>, first: bool) -> Seq<u8>
    decreases fs,
{
    if fs.len() == 0 {
        Seq::empty()
    } else {
        (if first {
            Seq::empty()
        } else {
            seq![B_COMMA]
        }) + dq(fs[0].0@) + seq![B_COLON] + c_value(fs[0].1) + c_fields(fs.drop_first(), false)
    }
}

/// Raw bytes rendered as decimal scalars joined by commas.
pub open spec fn c_byte_elems(bs: Seq<u8>, first: bool) -> Seq<u8>
    decreases bs,
{
    if bs.len() == 0 {
        Seq::empty()
    } else {
        (if first {
            Seq::empty()
        } else {
            seq![B_COMMA]
        }) + dec_nat(bs[0] as nat) + c_byte_elems(bs.drop_first(), false)
    }
}

/// The compact rendering of a value.
pub open spec fn c_value(v: Value) -> Seq<u8>
    decreases v,
{
    match v {
        Value::Null => lit_null(),
        Value::Bool(b) => if b {
            lit_true()
        } else {
            lit_false()
        },
        Value::Int(i) => dec_i64(i),
        Value::Uint(n) => dec_u64(n),
        Value::Float(o) => match o {
            None => lit_null(),
            Some(t) => t@,
        },
        Value::Char(c) => dq(utf8_char(c)),
        Value::Str(s) => dq(s@),
        Value::Bytes(bs) => seq![B_LBRACKET] + c_byte_elems(bs@, true) + seq![B_RBRACKET],
        Value::Array(es) => seq![B_LBRACKET] + c_elems(es@, true) + seq![B_RBRACKET],
        Value::Object(kvs) => seq![B_LBRACE] + c_entries(kvs@, true) + seq![B_RBRACE],
        Value::UnitVariant(n) => dq(n@),
        Value::NewtypeStruct(b) => c_value(*b),
        Value::NewtypeVariant(n, b) => seq![B_LBRACE] + dq(n@) + seq![B_COLON] + c_value(*b)
            + seq![B_RBRACE],
        Value::TupleVariant(n, es) => seq![B_LBRACE] + dq(n@) + seq![B_COLON] + seq![B_LBRACKET]
            + c_elems(es@, true) + seq![B_RBRACKET] + seq![B_RBRACE],
        Value::StructVariant(n, fs) => seq![B_LBRACE] + dq(n@) + seq![B_COLON] + seq![B_LBRACE]
            + c_fields(fs@, true) + seq![B_RBRACE] + seq![B_RBRACE],
    }
}

// ---------------------------------------------------------------------------
// Pretty rendering.
// ---------------------------------------------------------------------------

/// The first line break at or after the front of `s`, or its length.
pub open spec fn nl_pos(s: Seq<u8>) -> nat
    decreases s.len(),
{
    if s.len() == 0 {
        0
    } else if s[0] == B_NL {
        0
    } else {
        1 + nl_pos(s.drop_first())
    }
}

pub proof fn lemma_nl_pos(s: Seq<u8>)
    ensures
        nl_pos(s) <= s.len(),
        nl_pos(s) < s.len() ==> s[nl_pos(s) as int] == B_NL,
        forall|k: int| 0 <= k < nl_pos(s) ==> s[k] != B_NL,
    decreases s.len(),
{
    if s.len() > 0 && s[0] != B_NL {
        lemma_nl_pos(s.drop_first());
        assert forall|k: int| 0 <= k < nl_pos(s) implies s[k] != B_NL by {
            if k > 0 {
                assert(s.drop_first()[k - 1] != B_NL);
            }
        }
    }
}

/// The lines of a multi-line block: every line of the input in order, each
/// ending in a line break; a line with content is preceded by the indent
/// prefix, an empty line stands as a bare line break.
pub open spec fn ml_body(s: Seq<u8>, pre: Seq<u8>) -> Seq<u8>
    decreases s.len(),
    via ml_body_decreases
{
    let e = nl_pos(s);
    if s.len() == 0 {
        seq![B_NL]
    } else if e >= s.len() {
        pre + s + seq![B_NL]
    } else if e == 0 {
        seq![B_NL] + ml_body(s.skip(1), pre)
    } else {
        pre + s.take(e as int) + seq![B_NL] + ml_body(s.skip(e + 1 as int), pre)
    }
}

#[via_fn]
proof fn ml_body_decreases(s: Seq<u8>, pre: Seq<u8>) {
    lemma_nl_pos(s);
}

/// A multi-line triple-quoted block at level `lvl`: the opening delimiter
/// on its own line, the content lines, and the closing delimiter indented
/// to the same level.
pub open spec fn ml_block(s: Seq<u8>, u: Seq<u8>, lvl: nat) -> Seq<u8> {
    q3() + seq![B_NL] + ml_body(s, ind(u, lvl)) + ind(u, lvl) + q3()
}

/// The pretty rendering of a string value at level `lvl`. A multi-line
/// block opened as an object member's value moves to its own line one
/// level deeper; the other styles stand inline after a single space.
pub open spec fn p_str(s: Seq<u8>, u: Seq<u8>, lvl: nat, in_obj: bool) -> Seq<u8> {
    match classify(s) {
        StrKind::Unquoted => sp(in_obj) + s,
        StrKind::DoubleQuoted => sp(in_obj) + dq(s),
        StrKind::TripleQuoted => sp(in_obj) + tq(s),
        StrKind::MultilineTripleQuoted => {
            let lvl2: nat = if in_obj {
                lvl + 1
            } else {
                lvl
            };
            (if in_obj {
                nl_ind(u, lvl2)
            } else {
                Seq::empty()
            }) + ml_block(s, u, lvl2)
        },
    }
}

/// The pretty rendering of a member key: bare when the stricter member
/// test allows it, double-quoted otherwise.
pub open spec fn p_mstr(s: Seq<u8>) -> Seq<u8> {
    if member_bare(s) {
        s
    } else {
        dq(s)
    }
}

/// The pretty rendering of a map key. Integers are always double-quoted;
/// a unit variant name takes the full string path.
pub open spec fn p_key(u: Seq<u8>, k: Value, lvl: nat) -> Seq<u8>
    decreases k,
{
    match k {
        Value::Str(s) => p_mstr(s@),
        Value::Int(i) => seq![B_QUOTE] + dec_i64(i) + seq![B_QUOTE],
        Value::Uint(n) => seq![B_QUOTE] + dec_u64(n) + seq![B_QUOTE],
        Value::UnitVariant(n) => p_str(n@, u, lvl, false),
        Value::NewtypeStruct(b) => p_key(u, *b, lvl),
        _ => Seq::empty(),
    }
}

/// The prefix before a non-empty container's opening bracket: on a new
/// line at the current level when the container is an object member's
/// value, nothing otherwise.
pub open spec fn p_prefix(u: Seq<u8>, lvl: nat, in_obj: bool) -> Seq<u8> {
    if in_obj {
        nl_ind(u, lvl)
    } else {
        Seq::empty()
    }
}

/// Array elements, each on its own line at level `lvl`.
pub open spec fn p_elems(u: Seq<u8>, es: Seq<Value>, lvl: nat) -> Seq<u8>
    decreases es,
{
    if es.len() == 0 {
        Seq::empty()
    } else {
        nl_ind(u, lvl) + p_value(u, es[0], lvl, false) + p_elems(u, es.drop_first(), lvl)
    }
}

/// Object entries, each `key: value` on its own line at level `lvl`.
pub open spec fn p_entries(u: Seq<u8>, kvs: Seq<(Value, Value)>, lvl: nat) -> Seq<u8>
    decreases kvs,
{
    if kvs.len() == 0 {
        Seq::empty()
    } else {
        nl_ind(u, lvl) + p_key(u, kvs[0].0, lvl) + seq![B_COLON] + p_value(u, kvs[0].1, lvl, true)
            + p_entries(u, kvs.drop_first(), lvl)
    }
}

/// Struct variant fields, each on its own line at level `lvl`.
pub open spec fn p_fields(u: Seq<u8>, fs: Seq<(Vec<u8>, Value)>, lvl: nat) -> Seq<u8>
    decreases fs,
{
    if fs.len() == 0 {
        Seq::empty()
    } else {
        nl_ind(u, lvl) + p_mstr(fs[0].0@) + seq![B_COLON] + p_value(u, fs[0].1, lvl, true)
            + p_fields(u, fs.drop_first(), lvl)
    }
}

/// Raw bytes as decimal scalars, each on its own line at level `lvl`.
pub open spec fn p_byte_elems(bs: Seq<u8>, u: Seq<u8>, lvl: nat) -> Seq<u8>
    decreases bs,
{
    if bs.len() == 0 {
        Seq::empty()
    } else {
        nl_ind(u, lvl) + dec_nat(bs[0] as nat) + p_byte_elems(bs.drop_first(), u, lvl)
    }
}

/// The single-key wrapper object around a tagged variant's payload.
pub open spec fn p_variant_open(u: Seq<u8>, name: Seq<u8>, lvl: nat, in_obj: bool) -> Seq<u8> {
    p_prefix(u, lvl, in_obj) + seq![B_LBRACE] + nl_ind(u, lvl + 1) + p_str(name, u, lvl + 1, false)
        + seq![B_COLON]
}

/// The pretty rendering of a value standing at nesting level `lvl`;
/// `in_obj` says whether it is an object member's value, which an inline
/// scalar follows after one space and a container or multi-line block
/// follows on a new line. An empty container collapses to its two-byte
/// form in place.
pub open spec fn p_value(u: Seq<u8>, v: Value, lvl: nat, in_obj: bool) -> Seq<u8>
    decreases v,
{
    match v {
        Value::Null => sp(in_obj) + lit_null(),
        Value::Bool(b) => sp(in_obj) + (if b {
            lit_true()
        } else {
            lit_false()
        }),
        Value::Int(i) => sp(in_obj) + dec_i64(i),
        Value::Uint(n) => sp(in_obj) + dec_u64(n),
        Value::Float(o) => match o {
            None => sp(in_obj) + lit_null(),
            Some(t) => sp(in_obj) + t@,
        },
        Value::Char(c) => p_str(utf8_char(c), u, lvl, in_obj),
        Value::Str(s) => p_str(s@, u, lvl, in_obj),
        Value::Bytes(bs) => if bs@.len() == 0 {
            sp(in_obj) + seq![B_LBRACKET, B_RBRACKET]
        } else {
            p_prefix(u, lvl, in_obj) + seq![B_LBRACKET] + p_byte_elems(bs@, u, lvl + 1) + nl_ind(
                u,
                lvl,
            ) + seq![B_RBRACKET]
        },
        Value::Array(es) => if es@.len() == 0 {
            sp(in_obj) + seq![B_LBRACKET, B_RBRACKET]
        } else {
            p_prefix(u, lvl, in_obj) + seq![B_LBRACKET] + p_elems(u, es@, lvl + 1) + nl_ind(u, lvl)
                + seq![B_RBRACKET]
        },
        Value::Object(kvs) => if kvs@.len() == 0 {
            sp(in_obj) + seq![B_LBRACE, B_RBRACE]
        } else {
            p_prefix(u, lvl, in_obj) + seq![B_LBRACE] + p_entries(u, kvs@, lvl + 1) + nl_ind(
                u,
                lvl,
            ) + seq![B_RBRACE]
        },
        Value::UnitVariant(n) => p_str(n@, u, lvl, in_obj),
        Value::NewtypeStruct(b) => p_value(u, *b, lvl, in_obj),
        Value::NewtypeVariant(n, b) => p_variant_open(u, n@, lvl, in_obj) + p_value(
            u,
            *b,
            lvl + 1,
            true,
        ) + nl_ind(u, lvl) + seq![B_RBRACE],
        Value::TupleVariant(n, es) => p_variant_open(u, n@, lvl, in_obj) + (if es@.len() == 0 {
            sp(true) + seq![B_LBRACKET, B_RBRACKET]
        } else {
            nl_ind(u, lvl + 1) + seq![B_LBRACKET] + p_elems(u, es@, lvl + 2) + nl_ind(u, lvl + 1)
                + seq![B_RBRACKET]
        }) + nl_ind(u, lvl) + seq![B_RBRACE],
        Value::StructVariant(n, fs) => p_variant_open(u, n@, lvl, in_obj) + (if fs@.len() == 0 {
            sp(true) + seq![B_LBRACE, B_RBRACE]
        } else {
            nl_ind(u, lvl + 1) + seq![B_LBRACE] + p_fields(u, fs@, lvl + 2) + nl_ind(u, lvl + 1)
                + seq![B_RBRACE]
        }) + nl_ind(u, lvl) + seq![B_RBRACE],
    }
}

} // verus!
