use vstd::prelude::*;
use crate::classify::classify_str;
use crate::classify::member_bare_x;
use crate::classify::StrKind;
use crate::emit::push_byte;
use crate::emit::push_bytes;
use crate::emit::push_nl_ind;
use crate::emit::push_null;
use crate::emit::push_bool;
use crate::emit::push_sp;
use crate::emit::indent;
use crate::emit::ind;
use crate::emit::nl_ind;
use crate::emit::sp;
use crate::emit::B_QUOTE;
use crate::emit::B_COMMA;
use crate::emit::B_COLON;
use crate::emit::B_LBRACKET;
use crate::emit::B_RBRACKET;
use crate::emit::B_LBRACE;
use crate::emit::B_RBRACE;
use crate::emit::B_NL;
use crate::escape::write_dq;
use crate::escape::write_tq;
use crate::escape::push_q3;
use crate::escape::dq;
use crate::escape::tq;
use crate::escape::q3;
use crate::numfmt::write_u64_text;
use crate::numfmt::write_i64_text;
use crate::render::c_value;
use crate::render::c_key;
use crate::render::c_elems;
use crate::render::c_entries;
use crate::render::c_fields;
use crate::render::c_byte_elems;
use crate::render::p_value;
use crate::render::p_key;
use crate::render::p_str;
use crate::render::p_mstr;
use crate::render::p_prefix;
use crate::render::p_elems;
use crate::render::p_entries;
use crate::render::p_fields;
use crate::render::p_byte_elems;
use crate::render::p_variant_open;
use crate::render::ml_body;
use crate::render::ml_block;
use crate::render::nl_pos;
use crate::render::utf8_char;
use crate::render::utf8_of_cp;
use crate::value::Value;
use crate::value::key_ok;
use crate::value::keys_ok;
use crate::value::nest_depth;
use crate::value::list_depth;
use crate::value::entries_depth;
use crate::value::fields_depth;
use crate::value::lemma_nest_depth_pos;

verus! {

/// Why an encode call failed.
///
/// The sink here is an in-memory buffer, so a write cannot fail, and the
/// closed value tree cannot signal a failure of its own; the one error left
/// is a map key that no string can represent.
#[derive(Clone, Copy, Debug, PartialEq, Eq, Structural)]
pub enum EncodeError {
    KeyMustBeAString,
}

/// The error returned when a map key is not representable as a string.
pub fn key_must_be_a_string() -> (e: EncodeError)
    ensures
        e == EncodeError::KeyMustBeAString,
{
    EncodeError::KeyMustBeAString
}

/// Where a container stands in its traversal: `Empty` when its length was
/// zero at open time, `First` before its first child is written, `Rest`
/// afterwards.
#[derive(Clone, Copy, Debug, PartialEq, Eq, Structural)]
pub enum State {
    Empty,
    First,
    Rest,
}

/// The per-container cursor: one per open container, deciding the
/// collapsed empty form and the placement of separators between children.
pub struct Compound {
    pub state: State,
}

impl Compound {
    /// Opens a container holding `len` children.
    pub fn begin(len: usize) -> (c: Compound)
        ensures
            c.state == (if len == 0 {
                State::Empty
            } else {
                State::First
            }),
    {
        if len == 0 {
            Compound { state: State::Empty }
        } else {
            Compound { state: State::First }
        }
    }

    /// The container was empty at open time.
    pub fn is_empty(&self) -> (b: bool)
        ensures
            b == (self.state is Empty),
    {
        match self.state {
            State::Empty => true,
            _ => false,
        }
    }

    /// Steps the cursor past one child; returns whether that child is the
    /// first one.
    pub fn advance(&mut self) -> (first: bool)
        ensures
            first == (old(self).state is First),
            final(self).state == (if old(self).state is Empty {
                State::Empty
            } else {
                State::Rest
            }),
    {
        match self.state {
            State::First => {
                self.state = State::Rest;
                true
            }
            State::Rest => false,
            State::Empty => false,
        }
    }
}

/// The compact policy: plain JSON punctuation and no whitespace.
pub struct CompactFormatter;

/// The pretty policy: indentation by a fixed unit, collapsed empty
/// containers, and the classifier-driven string styles.
pub struct PrettyFormatter {
    /// The indent unit repeated once per nesting level.
    pub indent: Vec<u8>,
}

/// The two-space default indent unit.
pub open spec fn default_indent() -> Seq<u8> {
    seq![0x20u8, 0x20u8]
}

impl PrettyFormatter {
    /// A pretty printer indenting by two spaces per level.
    pub fn new() -> (f: PrettyFormatter)
        ensures
            f.indent@ == default_indent(),
    {
        let mut u: Vec<u8> = Vec::new();
        u.push(0x20);
        u.push(0x20);
        proof {
            assert(u@ =~= default_indent());
        }
        PrettyFormatter { indent: u }
    }

    /// A pretty printer indenting by the given unit per level.
    pub fn with_indent(indent: Vec<u8>) -> (f: PrettyFormatter)
        ensures
            f.indent == indent,
    {
        PrettyFormatter { indent }
    }
}

/// The emission policy of one serializer: compact or pretty.
pub enum Formatter {
    Compact(CompactFormatter),
    Pretty(PrettyFormatter),
}

/// Owns the output buffer and the formatter for the duration of one
/// top-level encode call.
pub struct Serializer {
    pub writer: Vec<u8>,
    pub formatter: Formatter,
}

// ---------------------------------------------------------------------------
// String writers.
// ---------------------------------------------------------------------------

/// The absolute position of the first line break at or after `i`, or the
/// length of `s`.
fn find_nl(s: &Vec<u8>, i: usize) -> (e: usize)
    requires
        i <= s@.len(),
    ensures
        i <= e <= s@.len(),
        e - i == nl_pos(s@.skip(i as int)),
{
    let mut j: usize = i;
    while j < s.len() && s[j] != 0x0a
        invariant
            i <= j <= s@.len(),
            nl_pos(s@.skip(i as int)) == (j - i) + nl_pos(s@.skip(j as int)),
        decreases s@.len() - j,
    {
        proof {
            assert(s@.skip(j as int)[0] == s@[j as int]);
            assert(s@.skip(j as int).drop_first() =~= s@.skip(j + 1));
        }
        j = j + 1;
    }
    proof {
        if j < s.len() {
            assert(s@.skip(j as int)[0] == s@[j as int]);
        } else {
            assert(s@.skip(j as int).len() == 0);
        }
    }
    j
}

/// Writes the bytes of `s` from `from` (inclusive) to `to` (exclusive).
fn push_range(out: &mut Vec<u8>, s: &Vec<u8>, from: usize, to: usize)
    requires
        from <= to <= s@.len(),
    ensures
        final(out)@ == old(out)@ + s@.subrange(from as int, to as int),
{
    let mut k: usize = from;
    while k < to
        invariant
            from <= k <= to <= s@.len(),
            out@ == old(out)@ + s@.subrange(from as int, k as int),
        decreases to - k,
    {
        let b = s[k];
        out.push(b);
        proof {
            assert(s@.subrange(from as int, k + 1) =~= s@.subrange(from as int, k as int).push(
                s@[k as int],
            ));
        }
        k = k + 1;
    }
}

/// Writes the line of a multi-line block that starts at `i`, then the rest
/// of the block's lines.
fn write_ml_seg(out: &mut Vec<u8>, s: &Vec<u8>, i: usize, n: usize, u: &Vec<u8>)
    requires
        i <= s@.len(),
    ensures
        final(out)@ == old(out)@ + ml_body(s@.skip(i as int), ind(u@, n as nat)),
    decreases s@.len() - i,
{
    let ghost t = s@.skip(i as int);
    let ghost pre = ind(u@, n as nat);
    let e = find_nl(s, i);
    if e >= s.len() {
        if i == s.len() {
            push_byte(out, B_NL);
            proof {
                assert(t.len() == 0);
                assert(ml_body(t, pre) =~= seq![B_NL]);
            }
        } else {
            indent(out, n, u);
            push_range(out, s, i, s.len());
            push_byte(out, B_NL);
            proof {
                assert(nl_pos(t) >= t.len());
                assert(s@.subrange(i as int, s@.len() as int) =~= t);
                assert(((old(out)@ + pre) + t) + seq![B_NL] =~= old(out)@ + (pre + t + seq![B_NL]));
            }
        }
    } else if e == i {
        push_byte(out, B_NL);
        write_ml_seg(out, s, i + 1, n, u);
        proof {
            assert(nl_pos(t) == 0);
            assert(t.len() > 0);
            assert(t.skip(1) =~= s@.skip(i + 1));
            assert((old(out)@ + seq![B_NL]) + ml_body(s@.skip(i + 1), pre) =~= old(out)@ + (
            seq![B_NL] + ml_body(s@.skip(i + 1), pre)));
        }
    } else {
        indent(out, n, u);
        push_range(out, s, i, e);
        push_byte(out, B_NL);
        write_ml_seg(out, s, e + 1, n, u);
        proof {
            let erel = nl_pos(t);
            assert(erel == e - i);
            assert(0 < erel < t.len());
            assert(t.take(erel as int) =~= s@.subrange(i as int, e as int));
            assert(t.skip(erel + 1 as int) =~= s@.skip(e + 1));
            assert((((old(out)@ + pre) + t.take(erel as int)) + seq![B_NL]) + ml_body(
                s@.skip(e + 1),
                pre,
            ) =~= old(out)@ + (pre + t.take(erel as int) + seq![B_NL] + ml_body(
                s@.skip(e + 1),
                pre,
            )));
        }
    }
}

/// Writes a multi-line triple-quoted block at level `n`: the opening
/// delimiter, each line of `s` re-indented, and the closing delimiter on
/// its own line at the same level.
pub fn write_ml_block(out: &mut Vec<u8>, s: &Vec<u8>, n: usize, u: &Vec<u8>)
    ensures
        final(out)@ == old(out)@ + ml_block(s@, u@, n as nat),
{
    push_q3(out);
    push_byte(out, B_NL);
    proof {
        assert(s@.skip(0) =~= s@);
    }
    write_ml_seg(out, s, 0, n, u);
    indent(out, n, u);
    push_q3(out);
    proof {
        assert((((((old(out)@ + q3()) + seq![B_NL]) + ml_body(s@, ind(u@, n as nat))) + ind(
            u@,
            n as nat,
        )) + q3()) =~= old(out)@ + (q3() + seq![B_NL] + ml_body(s@, ind(u@, n as nat)) + ind(
            u@,
            n as nat,
        ) + q3()));
    }
}

/// Writes a string value in pretty mode, in the style the classifier picks.
pub fn write_pretty_str(out: &mut Vec<u8>, s: &Vec<u8>, lvl: usize, in_obj: bool, u: &Vec<u8>)
    requires
        in_obj ==> lvl < usize::MAX,
    ensures
        final(out)@ == old(out)@ + p_str(s@, u@, lvl as nat, in_obj),
{
    let kind = classify_str(s);
    match kind {
        StrKind::Unquoted => {
            push_sp(out, in_obj);
            push_bytes(out, s);
            proof {
                assert((old(out)@ + sp(in_obj)) + s@ =~= old(out)@ + (sp(in_obj) + s@));
            }
        }
        StrKind::DoubleQuoted => {
            push_sp(out, in_obj);
            write_dq(out, s);
            proof {
                assert((old(out)@ + sp(in_obj)) + dq(s@) =~= old(out)@ + (sp(in_obj) + dq(s@)));
            }
        }
        StrKind::TripleQuoted => {
            push_sp(out, in_obj);
            write_tq(out, s);
            proof {
                assert((old(out)@ + sp(in_obj)) + tq(s@) =~= old(out)@ + (sp(in_obj) + tq(s@)));
            }
        }
        StrKind::MultilineTripleQuoted => {
            if in_obj {
                let lvl2 = lvl + 1;
                push_nl_ind(out, lvl2, u);
                write_ml_block(out, s, lvl2, u);
                proof {
                    assert((old(out)@ + nl_ind(u@, lvl2 as nat)) + ml_block(s@, u@, lvl2 as nat)
                        =~= old(out)@ + (nl_ind(u@, lvl2 as nat) + ml_block(s@, u@, lvl2 as nat)));
                }
            } else {
                write_ml_block(out, s, lvl, u);
                proof {
                    assert(old(out)@ + ml_block(s@, u@, lvl as nat) =~= old(out)@ + (
                    Seq::<u8>::empty() + ml_block(s@, u@, lvl as nat)));
                }
            }
        }
    }
}

/// Writes a member key string: bare when the stricter member test allows
/// it, double-quoted otherwise.
pub fn write_member_str(out: &mut Vec<u8>, s: &Vec<u8>)
    ensures
        final(out)@ == old(out)@ + p_mstr(s@),
{
    if member_bare_x(s) {
        push_bytes(out, s);
    } else {
        write_dq(out, s);
    }
}

/// Appends the UTF-8 bytes of `c`, which then take the string path.
pub fn utf8_push(out: &mut Vec<u8>, c: char)
    ensures
        final(out)@ == old(out)@ + utf8_char(c),
{
    let cp: u32 = c as u32;
    if cp < 0x80 {
        out.push(cp as u8);
        proof {
            assert(out@ =~= old(out)@ + utf8_of_cp(cp as int));
        }
    } else if cp < 0x800 {
        out.push((0xc0 + cp / 0x40) as u8);
        out.push((0x80 + cp % 0x40) as u8);
        proof {
            assert(out@ =~= old(out)@ + utf8_of_cp(cp as int));
        }
    } else if cp < 0x10000 {
        out.push((0xe0 + cp / 0x1000) as u8);
        out.push((0x80 + (cp / 0x40) % 0x40) as u8);
        out.push((0x80 + cp % 0x40) as u8);
        proof {
            assert(out@ =~= old(out)@ + utf8_of_cp(cp as int));
        }
    } else {
        out.push((0xf0 + cp / 0x40000) as u8);
        out.push((0x80 + (cp / 0x1000) % 0x40) as u8);
        out.push((0x80 + (cp / 0x40) % 0x40) as u8);
        out.push((0x80 + cp % 0x40) as u8);
        proof {
            assert(out@ =~= old(out)@ + utf8_of_cp(cp as int));
        }
    }
}

// ---------------------------------------------------------------------------
// Compact encoding.
// ---------------------------------------------------------------------------

/// Encodes a map key in compact mode: strings, variant names and integers
/// only; integers are always double-quoted.
fn enc_key_compact(out: &mut Vec<u8>, k: &Value) -> (r: Result<(), EncodeError>)
    ensures
        r is Ok <==> key_ok(*k),
        key_ok(*k) ==> final(out)@ == old(out)@ + c_key(*k),
        r is Err ==> r == Err::<(), EncodeError>(EncodeError::KeyMustBeAString),
    decreases *k,
{
    match k {
        Value::Str(s) => {
            write_dq(out, s);
            Ok(())
        }
        Value::Int(i) => {
            push_byte(out, B_QUOTE);
            write_i64_text(out, *i);
            push_byte(out, B_QUOTE);
            proof {
                assert(out@ =~= old(out)@ + c_key(*k));
            }
            Ok(())
        }
        Value::Uint(n) => {
            push_byte(out, B_QUOTE);
            write_u64_text(out, *n);
            push_byte(out, B_QUOTE);
            proof {
                assert(out@ =~= old(out)@ + c_key(*k));
            }
            Ok(())
        }
        Value::UnitVariant(n) => {
            write_dq(out, n);
            Ok(())
        }
        Value::NewtypeStruct(b) => enc_key_compact(out, b),
        _ => Err(key_must_be_a_string()),
    }
}

/// Writes the comma-joined compact renderings of raw bytes.
#[verifier::loop_isolation(false)]
fn write_c_bytes(out: &mut Vec<u8>, bs: &Vec<u8>)
    ensures
        final(out)@ == old(out)@ + c_byte_elems(bs@, true),
{
    let mut comp = Compound::begin(bs.len());
    let mut i: usize = 0;
    proof {
        assert(bs@.skip(0) =~= bs@);
    }
    while i < bs.len()
        invariant
            i <= bs@.len(),
            comp.state == (if bs@.len() == 0 {
                State::Empty
            } else if i == 0 {
                State::First
            } else {
                State::Rest
            }),
            out@ + c_byte_elems(bs@.skip(i as int), i == 0) == old(out)@ + c_byte_elems(bs@, true),
        decreases bs@.len() - i,
    {
        let ghost fi = i == 0;
        let first = comp.advance();
        if !first {
            push_byte(out, B_COMMA);
        }
        let b = bs[i];
        write_u64_text(out, b as u64);
        proof {
            assert(bs@.skip(i as int)[0] == bs@[i as int]);
            assert(bs@.skip(i as int).drop_first() =~= bs@.skip(i + 1));
            assert(out@ + c_byte_elems(bs@.skip(i + 1), false) =~= old(out)@ + c_byte_elems(
                bs@,
                true,
            ));
        }
        i = i + 1;
    }
    proof {
        assert(bs@.skip(bs@.len() as int) =~= Seq::<u8>::empty());
        assert(out@ + Seq::<u8>::empty() =~= out@);
    }
}

/// Writes the comma-joined compact renderings of array elements.
#[verifier::loop_isolation(false)]
fn write_c_elems(out: &mut Vec<u8>, es: &Vec<Value>) -> (r: Result<(), EncodeError>)
    ensures
        r is Ok <==> (forall|j: int| 0 <= j < es@.len() ==> keys_ok(#[trigger] es@[j])),
        (forall|j: int| 0 <= j < es@.len() ==> keys_ok(#[trigger] es@[j])) ==> final(out)@ == old(
            out,
        )@ + c_elems(es@, true),
        r is Err ==> r == Err::<(), EncodeError>(EncodeError::KeyMustBeAString),
    decreases es@,
{
    let mut comp = Compound::begin(es.len());
    let mut i: usize = 0;
    proof {
        assert(es@.skip(0) =~= es@);
    }
    while i < es.len()
        invariant
            i <= es@.len(),
            comp.state == (if es@.len() == 0 {
                State::Empty
            } else if i == 0 {
                State::First
            } else {
                State::Rest
            }),
            forall|j: int| 0 <= j < i ==> keys_ok(#[trigger] es@[j]),
            out@ + c_elems(es@.skip(i as int), i == 0) == old(out)@ + c_elems(es@, true),
        decreases es@.len() - i,
    {
        let first = comp.advance();
        if !first {
            push_byte(out, B_COMMA);
        }
        match enc_compact(out, &es[i]) {
            Ok(_) => {}
            Err(e) => {
                proof {
                    assert(!keys_ok(es@[i as int]));
                }
                return Err(e);
            }
        }
        proof {
            assert(es@.skip(i as int)[0] == es@[i as int]);
            assert(es@.skip(i as int).drop_first() =~= es@.skip(i + 1));
            assert(out@ + c_elems(es@.skip(i + 1), false) =~= old(out)@ + c_elems(es@, true));
        }
        i = i + 1;
    }
    proof {
        assert(es@.skip(es@.len() as int) =~= Seq::<Value>::empty());
        assert(out@ + Seq::<u8>::empty() =~= out@);
    }
    Ok(())
}

/// Writes the comma-joined compact renderings of object entries.
#[verifier::loop_isolation(false)]
fn write_c_entries(out: &mut Vec<u8>, kvs: &Vec<(Value, Value)>) -> (r: Result<(), EncodeError>)
    ensures
        r is Ok <==> (forall|j: int|
            0 <= j < kvs@.len() ==> key_ok((#[trigger] kvs@[j]).0) && keys_ok(kvs@[j].1)),
        (forall|j: int| 0 <= j < kvs@.len() ==> key_ok((#[trigger] kvs@[j]).0) && keys_ok(
            kvs@[j].1,
        )) ==> final(out)@ == old(out)@ + c_entries(kvs@, true),
        r is Err ==> r == Err::<(), EncodeError>(EncodeError::KeyMustBeAString),
    decreases kvs@,
{
    let mut comp = Compound::begin(kvs.len());
    let mut i: usize = 0;
    proof {
        assert(kvs@.skip(0) =~= kvs@);
    }
    while i < kvs.len()
        invariant
            i <= kvs@.len(),
            comp.state == (if kvs@.len() == 0 {
                State::Empty
            } else if i == 0 {
                State::First
            } else {
                State::Rest
            }),
            forall|j: int| 0 <= j < i ==> key_ok((#[trigger] kvs@[j]).0) && keys_ok(kvs@[j].1),
            out@ + c_entries(kvs@.skip(i as int), i == 0) == old(out)@ + c_entries(kvs@, true),
        decreases kvs@.len() - i,
    {
        let first = comp.advance();
        if !first {
            push_byte(out, B_COMMA);
        }
        match enc_key_compact(out, &kvs[i].0) {
            Ok(_) => {}
            Err(e) => {
                proof {
                    assert(!key_ok(kvs@[i as int].0));
                }
                return Err(e);
            }
        }
        push_byte(out, B_COLON);
        match enc_compact(out, &kvs[i].1) {
            Ok(_) => {}
            Err(e) => {
                proof {
                    assert(!keys_ok(kvs@[i as int].1));
                }
                return Err(e);
            }
        }
        proof {
            assert(kvs@.skip(i as int)[0] == kvs@[i as int]);
            assert(kvs@.skip(i as int).drop_first() =~= kvs@.skip(i + 1));
            assert(out@ + c_entries(kvs@.skip(i + 1), false) =~= old(out)@ + c_entries(
                kvs@,
                true,
            ));
        }
        i = i + 1;
    }
    proof {
        assert(kvs@.skip(kvs@.len() as int) =~= Seq::<(Value, Value)>::empty());
        assert(out@ + Seq::<u8>::empty() =~= out@);
    }
    Ok(())
}

/// Writes the comma-joined compact renderings of struct variant fields.
#[verifier::loop_isolation(false)]
fn write_c_fields(out: &mut Vec<u8>, fs: &Vec<(Vec<u8>, Value)>) -> (r: Result<(), EncodeError>)
    ensures
        r is Ok <==> (forall|j: int| 0 <= j < fs@.len() ==> keys_ok((#[trigger] fs@[j]).1)),
        (forall|j: int| 0 <= j < fs@.len() ==> keys_ok((#[trigger] fs@[j]).1)) ==> final(out)@
            == old(out)@ + c_fields(fs@, true),
        r is Err ==> r == Err::<(), EncodeError>(EncodeError::KeyMustBeAString),
    decreases fs@,
{
    let mut comp = Compound::begin(fs.len());
    let mut i: usize = 0;
    proof {
        assert(fs@.skip(0) =~= fs@);
    }
    while i < fs.len()
        invariant
            i <= fs@.len(),
            comp.state == (if fs@.len() == 0 {
                State::Empty
            } else if i == 0 {
                State::First
            } else {
                State::Rest
            }),
            forall|j: int| 0 <= j < i ==> keys_ok((#[trigger] fs@[j]).1),
            out@ + c_fields(fs@.skip(i as int), i == 0) == old(out)@ + c_fields(fs@, true),
        decreases fs@.len() - i,
    {
        let first = comp.advance();
        if !first {
            push_byte(out, B_COMMA);
        }
        write_dq(out, &fs[i].0);
        push_byte(out, B_COLON);
        match enc_compact(out, &fs[i].1) {
            Ok(_) => {}
            Err(e) => {
                proof {
                    assert(!keys_ok(fs@[i as int].1));
                }
                return Err(e);
            }
        }
        proof {
            assert(fs@.skip(i as int)[0] == fs@[i as int]);
            assert(fs@.skip(i as int).drop_first() =~= fs@.skip(i + 1));
            assert(out@ + c_fields(fs@.skip(i + 1), false) =~= old(out)@ + c_fields(fs@, true));
        }
        i = i + 1;
    }
    proof {
        assert(fs@.skip(fs@.len() as int) =~= Seq::<(Vec<u8>, Value)>::empty());
        assert(out@ + Seq::<u8>::empty() =~= out@);
    }
    Ok(())
}

/// Encodes a value in compact mode, appending exactly its compact
/// rendering; fails exactly when a map key is not string-representable.
pub fn enc_compact(out: &mut Vec<u8>, v: &Value) -> (r: Result<(), EncodeError>)
    ensures
        r is Ok <==> keys_ok(*v),
        keys_ok(*v) ==> final(out)@ == old(out)@ + c_value(*v),
        r is Err ==> r == Err::<(), EncodeError>(EncodeError::KeyMustBeAString),
    decreases *v,
{
    match v {
        Value::Null => {
            push_null(out);
            Ok(())
        }
        Value::Bool(b) => {
            push_bool(out, *b);
            Ok(())
        }
        Value::Int(i) => {
            write_i64_text(out, *i);
            Ok(())
        }
        Value::Uint(n) => {
            write_u64_text(out, *n);
            Ok(())
        }
        Value::Float(o) => {
            match o {
                None => push_null(out),
                Some(t) => push_bytes(out, t),
            }
            Ok(())
        }
        Value::Char(c) => {
            let mut cb: Vec<u8> = Vec::new();
            utf8_push(&mut cb, *c);
            write_dq(out, &cb);
            Ok(())
        }
        Value::Str(s) => {
            write_dq(out, s);
            Ok(())
        }
        Value::Bytes(bs) => {
            push_byte(out, B_LBRACKET);
            write_c_bytes(out, bs);
            push_byte(out, B_RBRACKET);
            proof {
                assert(out@ =~= old(out)@ + c_value(*v));
            }
            Ok(())
        }
        Value::Array(es) => {
            push_byte(out, B_LBRACKET);
            match write_c_elems(out, es) {
                Ok(_) => {}
                Err(e) => {
                    return Err(e);
                }
            }
            push_byte(out, B_RBRACKET);
            proof {
                assert(out@ =~= old(out)@ + c_value(*v));
            }
            Ok(())
        }
        Value::Object(kvs) => {
            push_byte(out, B_LBRACE);
            match write_c_entries(out, kvs) {
                Ok(_) => {}
                Err(e) => {
                    return Err(e);
                }
            }
            push_byte(out, B_RBRACE);
            proof {
                assert(out@ =~= old(out)@ + c_value(*v));
            }
            Ok(())
        }
        Value::UnitVariant(n) => {
            write_dq(out, n);
            Ok(())
        }
        Value::NewtypeStruct(b) => enc_compact(out, b),
        Value::NewtypeVariant(n, b) => {
            push_byte(out, B_LBRACE);
            write_dq(out, n);
            push_byte(out, B_COLON);
            match enc_compact(out, b) {
                Ok(_) => {}
                Err(e) => {
                    return Err(e);
                }
            }
            push_byte(out, B_RBRACE);
            proof {
                assert(out@ =~= old(out)@ + c_value(*v));
            }
            Ok(())
        }
        Value::TupleVariant(n, es) => {
            push_byte(out, B_LBRACE);
            write_dq(out, n);
            push_byte(out, B_COLON);
            push_byte(out, B_LBRACKET);
            match write_c_elems(out, es) {
                Ok(_) => {}
                Err(e) => {
                    return Err(e);
                }
            }
            push_byte(out, B_RBRACKET);
            push_byte(out, B_RBRACE);
            proof {
                assert(out@ =~= old(out)@ + c_value(*v));
            }
            Ok(())
        }
        Value::StructVariant(n, fs) => {
            push_byte(out, B_LBRACE);
            write_dq(out, n);
            push_byte(out, B_COLON);
            push_byte(out, B_LBRACE);
            match write_c_fields(out, fs) {
                Ok(_) => {}
                Err(e) => {
                    return Err(e);
                }
            }
            push_byte(out, B_RBRACE);
            push_byte(out, B_RBRACE);
            proof {
                assert(out@ =~= old(out)@ + c_value(*v));
            }
            Ok(())
        }
    }
}

// ---------------------------------------------------------------------------
// Pretty encoding.
// ---------------------------------------------------------------------------

/// Encodes a map key in pretty mode: a string through the member-key
/// classifier, an integer always double-quoted, a unit variant name through
/// the full string path.
fn enc_key_pretty(out: &mut Vec<u8>, k: &Value, lvl: usize, u: &Vec<u8>) -> (r: Result<
    (),
    EncodeError,
>)
    ensures
        r is Ok <==> key_ok(*k),
        key_ok(*k) ==> final(out)@ == old(out)@ + p_key(u@, *k, lvl as nat),
        r is Err ==> r == Err::<(), EncodeError>(EncodeError::KeyMustBeAString),
    decreases *k,
{
    match k {
        Value::Str(s) => {
            write_member_str(out, s);
            Ok(())
        }
        Value::Int(i) => {
            push_byte(out, B_QUOTE);
            write_i64_text(out, *i);
            push_byte(out, B_QUOTE);
            proof {
                assert(out@ =~= old(out)@ + p_key(u@, *k, lvl as nat));
            }
            Ok(())
        }
        Value::Uint(n) => {
            push_byte(out, B_QUOTE);
            write_u64_text(out, *n);
            push_byte(out, B_QUOTE);
            proof {
                assert(out@ =~= old(out)@ + p_key(u@, *k, lvl as nat));
            }
            Ok(())
        }
        Value::UnitVariant(n) => {
            write_pretty_str(out, n, lvl, false, u);
            Ok(())
        }
        Value::NewtypeStruct(b) => enc_key_pretty(out, b, lvl, u),
        _ => Err(key_must_be_a_string()),
    }
}

/// Writes raw bytes as decimal scalars, one per line at level `lvl`.
#[verifier::loop_isolation(false)]
fn write_p_bytes(out: &mut Vec<u8>, bs: &Vec<u8>, lvl: usize, u: &Vec<u8>)
    ensures
        final(out)@ == old(out)@ + p_byte_elems(bs@, u@, lvl as nat),
{
    let mut i: usize = 0;
    proof {
        assert(bs@.skip(0) =~= bs@);
    }
    while i < bs.len()
        invariant
            i <= bs@.len(),
            out@ + p_byte_elems(bs@.skip(i as int), u@, lvl as nat) == old(out)@ + p_byte_elems(
                bs@,
                u@,
                lvl as nat,
            ),
        decreases bs@.len() - i,
    {
        push_nl_ind(out, lvl, u);
        let b = bs[i];
        write_u64_text(out, b as u64);
        proof {
            assert(bs@.skip(i as int)[0] == bs@[i as int]);
            assert(bs@.skip(i as int).drop_first() =~= bs@.skip(i + 1));
            assert(out@ + p_byte_elems(bs@.skip(i + 1), u@, lvl as nat) =~= old(out)@
                + p_byte_elems(bs@, u@, lvl as nat));
        }
        i = i + 1;
    }
    proof {
        assert(bs@.skip(bs@.len() as int) =~= Seq::<u8>::empty());
        assert(out@ + Seq::<u8>::empty() =~= out@);
    }
}

/// Writes array elements, one per line at level `lvl`.
#[verifier::loop_isolation(false)]
fn write_p_elems(out: &mut Vec<u8>, es: &Vec<Value>, lvl: usize, u: &Vec<u8>) -> (r: Result<
    (),
    EncodeError,
>)
    requires
        lvl as nat + list_depth(es@) <= usize::MAX as nat,
    ensures
        r is Ok <==> (forall|j: int| 0 <= j < es@.len() ==> keys_ok(#[trigger] es@[j])),
        (forall|j: int| 0 <= j < es@.len() ==> keys_ok(#[trigger] es@[j])) ==> final(out)@ == old(
            out,
        )@ + p_elems(u@, es@, lvl as nat),
        r is Err ==> r == Err::<(), EncodeError>(EncodeError::KeyMustBeAString),
    decreases es@, 0nat,
{
    let mut i: usize = 0;
    proof {
        assert(es@.skip(0) =~= es@);
    }
    while i < es.len()
        invariant
            i <= es@.len(),
            forall|j: int| 0 <= j < i ==> keys_ok(#[trigger] es@[j]),
            out@ + p_elems(u@, es@.skip(i as int), lvl as nat) == old(out)@ + p_elems(
                u@,
                es@,
                lvl as nat,
            ),
        decreases es@.len() - i,
    {
        push_nl_ind(out, lvl, u);
        proof {
            crate::value::lemma_list_depth(es@, i as int);
        }
        match enc_pretty(out, &es[i], lvl, false, u) {
            Ok(_) => {}
            Err(e) => {
                proof {
                    assert(!keys_ok(es@[i as int]));
                }
                return Err(e);
            }
        }
        proof {
            assert(es@.skip(i as int)[0] == es@[i as int]);
            assert(es@.skip(i as int).drop_first() =~= es@.skip(i + 1));
            assert(out@ + p_elems(u@, es@.skip(i + 1), lvl as nat) =~= old(out)@ + p_elems(
                u@,
                es@,
                lvl as nat,
            ));
        }
        i = i + 1;
    }
    proof {
        assert(es@.skip(es@.len() as int) =~= Seq::<Value>::empty());
        assert(out@ + Seq::<u8>::empty() =~= out@);
    }
    Ok(())
}

/// Writes object entries, one `key: value` per line at level `lvl`.
#[verifier::loop_isolation(false)]
fn write_p_entries(out: &mut Vec<u8>, kvs: &Vec<(Value, Value)>, lvl: usize, u: &Vec<u8>) -> (r:
    Result<(), EncodeError>)
    requires
        lvl as nat + entries_depth(kvs@) <= usize::MAX as nat,
    ensures
        r is Ok <==> (forall|j: int|
            0 <= j < kvs@.len() ==> key_ok((#[trigger] kvs@[j]).0) && keys_ok(kvs@[j].1)),
        (forall|j: int| 0 <= j < kvs@.len() ==> key_ok((#[trigger] kvs@[j]).0) && keys_ok(
            kvs@[j].1,
        )) ==> final(out)@ == old(out)@ + p_entries(u@, kvs@, lvl as nat),
        r is Err ==> r == Err::<(), EncodeError>(EncodeError::KeyMustBeAString),
    decreases kvs@, 0nat,
{
    let mut i: usize = 0;
    proof {
        assert(kvs@.skip(0) =~= kvs@);
    }
    while i < kvs.len()
        invariant
            i <= kvs@.len(),
            forall|j: int| 0 <= j < i ==> key_ok((#[trigger] kvs@[j]).0) && keys_ok(kvs@[j].1),
            out@ + p_entries(u@, kvs@.skip(i as int), lvl as nat) == old(out)@ + p_entries(
                u@,
                kvs@,
                lvl as nat,
            ),
        decreases kvs@.len() - i,
    {
        push_nl_ind(out, lvl, u);
        match enc_key_pretty(out, &kvs[i].0, lvl, u) {
            Ok(_) => {}
            Err(e) => {
                proof {
                    assert(!key_ok(kvs@[i as int].0));
                }
                return Err(e);
            }
        }
        push_byte(out, B_COLON);
        proof {
            crate::value::lemma_entries_depth(kvs@, i as int);
        }
        match enc_pretty(out, &kvs[i].1, lvl, true, u) {
            Ok(_) => {}
            Err(e) => {
                proof {
                    assert(!keys_ok(kvs@[i as int].1));
                }
                return Err(e);
            }
        }
        proof {
            assert(kvs@.skip(i as int)[0] == kvs@[i as int]);
            assert(kvs@.skip(i as int).drop_first() =~= kvs@.skip(i + 1));
            assert(out@ + p_entries(u@, kvs@.skip(i + 1), lvl as nat) =~= old(out)@ + p_entries(
                u@,
                kvs@,
                lvl as nat,
            ));
        }
        i = i + 1;
    }
    proof {
        assert(kvs@.skip(kvs@.len() as int) =~= Seq::<(Value, Value)>::empty());
        assert(out@ + Seq::<u8>::empty() =~= out@);
    }
    Ok(())
}

/// Writes struct variant fields, one per line at level `lvl`.
#[verifier::loop_isolation(false)]
fn write_p_fields(out: &mut Vec<u8>, fs: &Vec<(Vec<u8>, Value)>, lvl: usize, u: &Vec<u8>) -> (r:
    Result<(), EncodeError>)
    requires
        lvl as nat + fields_depth(fs@) <= usize::MAX as nat,
    ensures
        r is Ok <==> (forall|j: int| 0 <= j < fs@.len() ==> keys_ok((#[trigger] fs@[j]).1)),
        (forall|j: int| 0 <= j < fs@.len() ==> keys_ok((#[trigger] fs@[j]).1)) ==> final(out)@
            == old(out)@ + p_fields(u@, fs@, lvl as nat),
        r is Err ==> r == Err::<(), EncodeError>(EncodeError::KeyMustBeAString),
    decreases fs@, 0nat,
{
    let mut i: usize = 0;
    proof {
        assert(fs@.skip(0) =~= fs@);
    }
    while i < fs.len()
        invariant
            i <= fs@.len(),
            forall|j: int| 0 <= j < i ==> keys_ok((#[trigger] fs@[j]).1),
            out@ + p_fields(u@, fs@.skip(i as int), lvl as nat) == old(out)@ + p_fields(
                u@,
                fs@,
                lvl as nat,
            ),
        decreases fs@.len() - i,
    {
        push_nl_ind(out, lvl, u);
        write_member_str(out, &fs[i].0);
        push_byte(out, B_COLON);
        proof {
            crate::value::lemma_fields_depth(fs@, i as int);
        }
        match enc_pretty(out, &fs[i].1, lvl, true, u) {
            Ok(_) => {}
            Err(e) => {
                proof {
                    assert(!keys_ok(fs@[i as int].1));
                }
                return Err(e);
            }
        }
        proof {
            assert(fs@.skip(i as int)[0] == fs@[i as int]);
            assert(fs@.skip(i as int).drop_first() =~= fs@.skip(i + 1));
            assert(out@ + p_fields(u@, fs@.skip(i + 1), lvl as nat) =~= old(out)@ + p_fields(
                u@,
                fs@,
                lvl as nat,
            ));
        }
        i = i + 1;
    }
    proof {
        assert(fs@.skip(fs@.len() as int) =~= Seq::<(Vec<u8>, Value)>::empty());
        assert(out@ + Seq::<u8>::empty() =~= out@);
    }
    Ok(())
}

/// Writes the opening of a tagged variant's single-key wrapper: the brace
/// on its own line when the wrapper is an object member's value, then the
/// variant name as a key one level deeper, and its colon.
fn write_variant_open(out: &mut Vec<u8>, n: &Vec<u8>, lvl: usize, in_obj: bool, u: &Vec<u8>)
    requires
        lvl < usize::MAX,
    ensures
        final(out)@ == old(out)@ + p_variant_open(u@, n@, lvl as nat, in_obj),
{
    if in_obj {
        push_nl_ind(out, lvl, u);
    }
    push_byte(out, B_LBRACE);
    push_nl_ind(out, lvl + 1, u);
    write_pretty_str(out, n, lvl + 1, false, u);
    push_byte(out, B_COLON);
    proof {
        assert(out@ =~= old(out)@ + p_variant_open(u@, n@, lvl as nat, in_obj));
    }
}

/// Writes a pretty array: the collapsed empty form in place, or the
/// bracketed elements one per line.
fn write_p_array(out: &mut Vec<u8>, es: &Vec<Value>, lvl: usize, in_obj: bool, u: &Vec<u8>) -> (r:
    Result<(), EncodeError>)
    requires
        lvl as nat + 1 + list_depth(es@) <= usize::MAX as nat,
    ensures
        r is Ok <==> (forall|j: int| 0 <= j < es@.len() ==> keys_ok(#[trigger] es@[j])),
        (forall|j: int| 0 <= j < es@.len() ==> keys_ok(#[trigger] es@[j])) ==> final(out)@ == old(
            out,
        )@ + (if es@.len() == 0 {
            sp(in_obj) + seq![B_LBRACKET, B_RBRACKET]
        } else {
            p_prefix(u@, lvl as nat, in_obj) + seq![B_LBRACKET] + p_elems(
                u@,
                es@,
                lvl as nat + 1,
            ) + nl_ind(u@, lvl as nat) + seq![B_RBRACKET]
        }),
        r is Err ==> r == Err::<(), EncodeError>(EncodeError::KeyMustBeAString),
    decreases es@, 1nat,
{
    let comp = Compound::begin(es.len());
    if comp.is_empty() {
        push_sp(out, in_obj);
        push_byte(out, B_LBRACKET);
        push_byte(out, B_RBRACKET);
        proof {
            assert(out@ =~= old(out)@ + (sp(in_obj) + seq![B_LBRACKET, B_RBRACKET]));
        }
        Ok(())
    } else {
        if in_obj {
            push_nl_ind(out, lvl, u);
        }
        push_byte(out, B_LBRACKET);
        match write_p_elems(out, es, lvl + 1, u) {
            Ok(_) => {}
            Err(e) => {
                return Err(e);
            }
        }
        push_nl_ind(out, lvl, u);
        push_byte(out, B_RBRACKET);
        proof {
            assert(out@ =~= old(out)@ + (p_prefix(u@, lvl as nat, in_obj) + seq![B_LBRACKET]
                + p_elems(u@, es@, lvl as nat + 1) + nl_ind(u@, lvl as nat) + seq![B_RBRACKET]));
        }
        Ok(())
    }
}

/// Writes a pretty object: the collapsed empty form in place, or the braced
/// entries one per line.
fn write_p_object(out: &mut Vec<u8>, kvs: &Vec<(Value, Value)>, lvl: usize, in_obj: bool, u: &Vec<
    u8,
>) -> (r: Result<(), EncodeError>)
    requires
        lvl as nat + 1 + entries_depth(kvs@) <= usize::MAX as nat,
    ensures
        r is Ok <==> (forall|j: int|
            0 <= j < kvs@.len() ==> key_ok((#[trigger] kvs@[j]).0) && keys_ok(kvs@[j].1)),
        (forall|j: int| 0 <= j < kvs@.len() ==> key_ok((#[trigger] kvs@[j]).0) && keys_ok(
            kvs@[j].1,
        )) ==> final(out)@ == old(out)@ + (if kvs@.len() == 0 {
            sp(in_obj) + seq![B_LBRACE, B_RBRACE]
        } else {
            p_prefix(u@, lvl as nat, in_obj) + seq![B_LBRACE] + p_entries(
                u@,
                kvs@,
                lvl as nat + 1,
            ) + nl_ind(u@, lvl as nat) + seq![B_RBRACE]
        }),
        r is Err ==> r == Err::<(), EncodeError>(EncodeError::KeyMustBeAString),
    decreases kvs@, 1nat,
{
    let comp = Compound::begin(kvs.len());
    if comp.is_empty() {
        push_sp(out, in_obj);
        push_byte(out, B_LBRACE);
        push_byte(out, B_RBRACE);
        proof {
            assert(out@ =~= old(out)@ + (sp(in_obj) + seq![B_LBRACE, B_RBRACE]));
        }
        Ok(())
    } else {
        if in_obj {
            push_nl_ind(out, lvl, u);
        }
        push_byte(out, B_LBRACE);
        match write_p_entries(out, kvs, lvl + 1, u) {
            Ok(_) => {}
            Err(e) => {
                return Err(e);
            }
        }
        push_nl_ind(out, lvl, u);
        push_byte(out, B_RBRACE);
        proof {
            assert(out@ =~= old(out)@ + (p_prefix(u@, lvl as nat, in_obj) + seq![B_LBRACE]
                + p_entries(u@, kvs@, lvl as nat + 1) + nl_ind(u@, lvl as nat) + seq![B_RBRACE]));
        }
        Ok(())
    }
}

/// Writes the payload of a tuple variant: a collapsed empty sequence after
/// one space, or a bracketed sequence on its own lines one level deeper.
fn write_tuple_payload(out: &mut Vec<u8>, es: &Vec<Value>, lvl: usize, u: &Vec<u8>) -> (r: Result<
    (),
    EncodeError,
>)
    requires
        lvl as nat + 2 + list_depth(es@) <= usize::MAX as nat,
    ensures
        r is Ok <==> (forall|j: int| 0 <= j < es@.len() ==> keys_ok(#[trigger] es@[j])),
        (forall|j: int| 0 <= j < es@.len() ==> keys_ok(#[trigger] es@[j])) ==> final(out)@ == old(
            out,
        )@ + (if es@.len() == 0 {
            sp(true) + seq![B_LBRACKET, B_RBRACKET]
        } else {
            nl_ind(u@, lvl as nat + 1) + seq![B_LBRACKET] + p_elems(u@, es@, lvl as nat + 2)
                + nl_ind(u@, lvl as nat + 1) + seq![B_RBRACKET]
        }),
        r is Err ==> r == Err::<(), EncodeError>(EncodeError::KeyMustBeAString),
    decreases es@, 1nat,
{
    let comp = Compound::begin(es.len());
    if comp.is_empty() {
        push_sp(out, true);
        push_byte(out, B_LBRACKET);
        push_byte(out, B_RBRACKET);
        proof {
            assert(out@ =~= old(out)@ + (sp(true) + seq![B_LBRACKET, B_RBRACKET]));
        }
        Ok(())
    } else {
        push_nl_ind(out, lvl + 1, u);
        push_byte(out, B_LBRACKET);
        match write_p_elems(out, es, lvl + 2, u) {
            Ok(_) => {}
            Err(e) => {
                return Err(e);
            }
        }
        push_nl_ind(out, lvl + 1, u);
        push_byte(out, B_RBRACKET);
        proof {
            assert(out@ =~= old(out)@ + (nl_ind(u@, lvl as nat + 1) + seq![B_LBRACKET] + p_elems(
                u@,
                es@,
                lvl as nat + 2,
            ) + nl_ind(u@, lvl as nat + 1) + seq![B_RBRACKET]));
        }
        Ok(())
    }
}

/// Writes the payload of a struct variant: a collapsed empty object after
/// one space, or braced fields on their own lines one level deeper.
fn write_struct_payload(out: &mut Vec<u8>, fs: &Vec<(Vec<u8>, Value)>, lvl: usize, u: &Vec<u8>) -> (
    r: Result<(), EncodeError>)
    requires
        lvl as nat + 2 + fields_depth(fs@) <= usize::MAX as nat,
    ensures
        r is Ok <==> (forall|j: int| 0 <= j < fs@.len() ==> keys_ok((#[trigger] fs@[j]).1)),
        (forall|j: int| 0 <= j < fs@.len() ==> keys_ok((#[trigger] fs@[j]).1)) ==> final(out)@
            == old(out)@ + (if fs@.len() == 0 {
            sp(true) + seq![B_LBRACE, B_RBRACE]
        } else {
            nl_ind(u@, lvl as nat + 1) + seq![B_LBRACE] + p_fields(u@, fs@, lvl as nat + 2)
                + nl_ind(u@, lvl as nat + 1) + seq![B_RBRACE]
        }),
        r is Err ==> r == Err::<(), EncodeError>(EncodeError::KeyMustBeAString),
    decreases fs@, 1nat,
{
    let comp = Compound::begin(fs.len());
    if comp.is_empty() {
        push_sp(out, true);
        push_byte(out, B_LBRACE);
        push_byte(out, B_RBRACE);
        proof {
            assert(out@ =~= old(out)@ + (sp(true) + seq![B_LBRACE, B_RBRACE]));
        }
        Ok(())
    } else {
        push_nl_ind(out, lvl + 1, u);
        push_byte(out, B_LBRACE);
        match write_p_fields(out, fs, lvl + 2, u) {
            Ok(_) => {}
            Err(e) => {
                return Err(e);
            }
        }
        push_nl_ind(out, lvl + 1, u);
        push_byte(out, B_RBRACE);
        proof {
            assert(out@ =~= old(out)@ + (nl_ind(u@, lvl as nat + 1) + seq![B_LBRACE] + p_fields(
                u@,
                fs@,
                lvl as nat + 2,
            ) + nl_ind(u@, lvl as nat + 1) + seq![B_RBRACE]));
        }
        Ok(())
    }
}

/// Encodes a value in pretty mode at level `lvl`, appending exactly its
/// pretty rendering; fails exactly when a map key is not
/// string-representable. `in_obj` says the value stands after an object
/// key's colon.
#[verifier::rlimit(100)]
#[verifier::spinoff_prover]
pub fn enc_pretty(out: &mut Vec<u8>, v: &Value, lvl: usize, in_obj: bool, u: &Vec<u8>) -> (r:
    Result<(), EncodeError>)
    requires
        lvl as nat + nest_depth(*v) <= usize::MAX as nat,
    ensures
        r is Ok <==> keys_ok(*v),
        keys_ok(*v) ==> final(out)@ == old(out)@ + p_value(u@, *v, lvl as nat, in_obj),
        r is Err ==> r == Err::<(), EncodeError>(EncodeError::KeyMustBeAString),
    decreases *v,
{
    proof {
        lemma_nest_depth_pos(*v);
    }
    match v {
        Value::Null => {
            push_sp(out, in_obj);
            push_null(out);
            proof {
                assert(out@ =~= old(out)@ + p_value(u@, *v, lvl as nat, in_obj));
            }
            Ok(())
        }
        Value::Bool(b) => {
            push_sp(out, in_obj);
            push_bool(out, *b);
            proof {
                assert(out@ =~= old(out)@ + p_value(u@, *v, lvl as nat, in_obj));
            }
            Ok(())
        }
        Value::Int(i) => {
            push_sp(out, in_obj);
            write_i64_text(out, *i);
            proof {
                assert(out@ =~= old(out)@ + p_value(u@, *v, lvl as nat, in_obj));
            }
            Ok(())
        }
        Value::Uint(n) => {
            push_sp(out, in_obj);
            write_u64_text(out, *n);
            proof {
                assert(out@ =~= old(out)@ + p_value(u@, *v, lvl as nat, in_obj));
            }
            Ok(())
        }
        Value::Float(o) => {
            push_sp(out, in_obj);
            match o {
                None => push_null(out),
                Some(t) => push_bytes(out, t),
            }
            proof {
                assert(out@ =~= old(out)@ + p_value(u@, *v, lvl as nat, in_obj));
            }
            Ok(())
        }
        Value::Char(c) => {
            let mut cb: Vec<u8> = Vec::new();
            utf8_push(&mut cb, *c);
            write_pretty_str(out, &cb, lvl, in_obj, u);
            Ok(())
        }
        Value::Str(s) => {
            write_pretty_str(out, s, lvl, in_obj, u);
            Ok(())
        }
        Value::Bytes(bs) => {
            let comp = Compound::begin(bs.len());
            if comp.is_empty() {
                push_sp(out, in_obj);
                push_byte(out, B_LBRACKET);
                push_byte(out, B_RBRACKET);
                proof {
                    assert(out@ =~= old(out)@ + p_value(u@, *v, lvl as nat, in_obj));
                }
            } else {
                if in_obj {
                    push_nl_ind(out, lvl, u);
                }
                push_byte(out, B_LBRACKET);
                write_p_bytes(out, bs, lvl + 1, u);
                push_nl_ind(out, lvl, u);
                push_byte(out, B_RBRACKET);
                proof {
                    assert(out@ =~= old(out)@ + p_value(u@, *v, lvl as nat, in_obj));
                }
            }
            Ok(())
        }
        Value::Array(es) => {
            let r = write_p_array(out, es, lvl, in_obj, u);
            proof {
                if keys_ok(*v) {
                    assert(out@ == old(out)@ + p_value(u@, *v, lvl as nat, in_obj));
                }
            }
            r
        }
        Value::Object(kvs) => {
            let r = write_p_object(out, kvs, lvl, in_obj, u);
            proof {
                if keys_ok(*v) {
                    assert(out@ == old(out)@ + p_value(u@, *v, lvl as nat, in_obj));
                }
            }
            r
        }
        Value::UnitVariant(n) => {
            write_pretty_str(out, n, lvl, in_obj, u);
            Ok(())
        }
        Value::NewtypeStruct(b) => enc_pretty(out, b, lvl, in_obj, u),
        Value::NewtypeVariant(n, b) => {
            write_variant_open(out, n, lvl, in_obj, u);
            match enc_pretty(out, b, lvl + 1, true, u) {
                Ok(_) => {}
                Err(e) => {
                    return Err(e);
                }
            }
            push_nl_ind(out, lvl, u);
            push_byte(out, B_RBRACE);
            proof {
                assert(out@ =~= old(out)@ + p_value(u@, *v, lvl as nat, in_obj));
            }
            Ok(())
        }
        Value::TupleVariant(n, es) => {
            write_variant_open(out, n, lvl, in_obj, u);
            match write_tuple_payload(out, es, lvl, u) {
                Ok(_) => {}
                Err(e) => {
                    return Err(e);
                }
            }
            push_nl_ind(out, lvl, u);
            push_byte(out, B_RBRACE);
            proof {
                assert(out@ =~= old(out)@ + p_value(u@, *v, lvl as nat, in_obj));
            }
            Ok(())
        }
        Value::StructVariant(n, fs) => {
            write_variant_open(out, n, lvl, in_obj, u);
            match write_struct_payload(out, fs, lvl, u) {
                Ok(_) => {}
                Err(e) => {
                    return Err(e);
                }
            }
            push_nl_ind(out, lvl, u);
            push_byte(out, B_RBRACE);
            proof {
                assert(out@ =~= old(out)@ + p_value(u@, *v, lvl as nat, in_obj));
            }
            Ok(())
        }
    }
}

// ---------------------------------------------------------------------------
// Top-level entry points.
// ---------------------------------------------------------------------------

/// The bytes a formatter produces for a whole value.
pub open spec fn rendering(f: Formatter, v: Value) -> Seq<u8> {
    match f {
        Formatter::Compact(_) => c_value(v),
        Formatter::Pretty(p) => p_value(p.indent@, v, 0, false),
    }
}

/// Pretty encoding counts nesting levels in a machine word; the tree's
/// depth must fit in one. Compact encoding never counts levels.
pub open spec fn fmt_depth_ok(f: Formatter, v: Value) -> bool {
    match f {
        Formatter::Compact(_) => true,
        Formatter::Pretty(_) => nest_depth(v) <= usize::MAX as nat,
    }
}

impl Serializer {
    /// A serializer writing compact text into `writer`.
    pub fn new(writer: Vec<u8>) -> (s: Serializer)
        ensures
            s.writer == writer,
            s.formatter is Compact,
    {
        Serializer { writer, formatter: Formatter::Compact(CompactFormatter) }
    }

    /// A serializer pretty printing into `writer` with the default indent.
    pub fn pretty(writer: Vec<u8>) -> (s: Serializer)
        ensures
            s.writer == writer,
            s.formatter matches Formatter::Pretty(p) && p.indent@ == default_indent(),
    {
        Serializer { writer, formatter: Formatter::Pretty(PrettyFormatter::new()) }
    }

    /// A serializer writing into `writer` with the given formatter.
    pub fn with_formatter(writer: Vec<u8>, formatter: Formatter) -> (s: Serializer)
        ensures
            s.writer == writer,
            s.formatter == formatter,
    {
        Serializer { writer, formatter }
    }

    /// Takes the output buffer back out of the serializer.
    pub fn into_inner(self) -> (w: Vec<u8>)
        ensures
            w == self.writer,
    {
        self.writer
    }

    /// Encodes one value, appending exactly its rendering to the output
    /// buffer. Fails, with the buffer in an unspecified partial state,
    /// exactly when the tree holds a map key that no string represents.
    pub fn serialize(&mut self, v: &Value) -> (r: Result<(), EncodeError>)
        requires
            fmt_depth_ok(old(self).formatter, *v),
        ensures
            final(self).formatter == old(self).formatter,
            r is Ok <==> keys_ok(*v),
            keys_ok(*v) ==> final(self).writer@ == old(self).writer@ + rendering(
                old(self).formatter,
                *v,
            ),
            r is Err ==> r == Err::<(), EncodeError>(EncodeError::KeyMustBeAString),
    {
        match &self.formatter {
            Formatter::Compact(_) => enc_compact(&mut self.writer, v),
            Formatter::Pretty(p) => enc_pretty(&mut self.writer, v, 0, false, &p.indent),
        }
    }
}

/// Encodes the value as compact text into a byte buffer.
pub fn to_vec(value: &Value) -> (r: Result<Vec<u8>, EncodeError>)
    ensures
        r is Ok <==> keys_ok(*value),
        r matches Ok(b) ==> b@ == c_value(*value),
        r is Err ==> r == Err::<Vec<u8>, EncodeError>(EncodeError::KeyMustBeAString),
{
    let mut ser = Serializer::new(Vec::new());
    match ser.serialize(value) {
        Ok(_) => Ok(ser.into_inner()),
        Err(e) => Err(e),
    }
}

/// Encodes the value as pretty text into a byte buffer, indenting by two
/// spaces per level.
pub fn to_vec_pretty(value: &Value) -> (r: Result<Vec<u8>, EncodeError>)
    requires
        nest_depth(*value) <= usize::MAX as nat,
    ensures
        r is Ok <==> keys_ok(*value),
        r matches Ok(b) ==> b@ == p_value(default_indent(), *value, 0, false),
        r is Err ==> r == Err::<Vec<u8>, EncodeError>(EncodeError::KeyMustBeAString),
{
    let mut ser = Serializer::pretty(Vec::new());
    match ser.serialize(value) {
        Ok(_) => Ok(ser.into_inner()),
        Err(e) => Err(e),
    }
}

/// The text that decoding a byte buffer yields; it depends on the bytes
/// alone.
pub uninterp spec fn decoded_text(b: Seq<u8>) -> Seq<char>;

/// Relies on String::from_utf8_lossy: its result is a function of the
/// bytes alone (well-formed sequences decode to their code points, the
/// rest to replacement characters).
#[verifier::external_body]
fn bytes_to_text(b: Vec<u8>) -> (r: String)
    ensures
        r@ == decoded_text(b@),
{
    String::from_utf8_lossy(&b).into_owned()
}

/// Encodes the value as a compact text string.
pub fn to_string(value: &Value) -> (r: Result<String, EncodeError>)
    ensures
        r is Ok <==> keys_ok(*value),
        r matches Ok(t) ==> t@ == decoded_text(c_value(*value)),
        r is Err ==> r == Err::<String, EncodeError>(EncodeError::KeyMustBeAString),
{
    match to_vec(value) {
        Ok(b) => Ok(bytes_to_text(b)),
        Err(e) => Err(e),
    }
}

/// Encodes the value as a pretty text string with the default indent.
pub fn to_string_pretty(value: &Value) -> (r: Result<String, EncodeError>)
    requires
        nest_depth(*value) <= usize::MAX as nat,
    ensures
        r is Ok <==> keys_ok(*value),
        r matches Ok(t) ==> t@ == decoded_text(p_value(default_indent(), *value, 0, false)),
        r is Err ==> r == Err::<String, EncodeError>(EncodeError::KeyMustBeAString),
{
    match to_vec_pretty(value) {
        Ok(b) => Ok(bytes_to_text(b)),
        Err(e) => Err(e),
    }
}

} // verus!
