use vstd::prelude::*;

verus! {

/// The closed tree of encodable values.
///
/// Text is carried as UTF-8 bytes. A floating-point number enters the tree
/// already classified and rendered: `Float(None)` stands for a non-finite
/// number (not-a-number or an infinity), `Float(Some(text))` carries the
/// decimal rendering of a finite number, produced by the caller's
/// float-to-text routine.
#[derive(Debug)]
pub enum Value {
    /// The `null` literal; also stands for unit and for an absent option.
    Null,
    Bool(bool),
    /// Any signed integer width, widened to 64 bits.
    Int(i64),
    /// Any unsigned integer width, widened to 64 bits.
    Uint(u64),
    /// A floating-point number: `None` when non-finite, otherwise its
    /// pre-rendered decimal text.
    Float(Option<Vec<u8>>),
    /// A single character, encoded on the string path as its UTF-8 bytes.
    Char(char),
    /// A text string as UTF-8 bytes.
    Str(Vec<u8>),
    /// A raw byte sequence, encoded as a sequence of unsigned-byte scalars.
    Bytes(Vec<u8>),
    /// A sequence of values.
    Array(Vec<Value>),
    /// A map; keys are checked for string-representability when encoding.
    Object(Vec<(Value, Value)>),
    /// A unit variant of a tagged union: encoded as its bare name string.
    UnitVariant(Vec<u8>),
    /// A transparent newtype wrapper: encoded as the wrapped value.
    NewtypeStruct(Box<Value>),
    /// A newtype variant: encoded as a single-key object.
    NewtypeVariant(Vec<u8>, Box<Value>),
    /// A tuple variant: a single-key object whose value is a sequence.
    TupleVariant(Vec<u8>, Vec<Value>),
    /// A struct variant: a single-key object whose value is an object of
    /// the named fields.
    StructVariant(Vec<u8>, Vec<(Vec<u8>, Value)>),
}

/// A value is eligible as a map key when it is representable as a single
/// scalar string: a string, an integer of either sign, a unit variant name,
/// or a newtype wrapper around another eligible key.
pub open spec fn key_ok(k: Value) -> bool
    decreases k,
{
    match k {
        Value::Str(_) => true,
        Value::Int(_) => true,
        Value::Uint(_) => true,
        Value::UnitVariant(_) => true,
        Value::NewtypeStruct(inner) => key_ok(*inner),
        _ => false,
    }
}

/// Every map key in the tree is eligible (`key_ok`); encoding succeeds
/// exactly on such trees.
pub open spec fn keys_ok(v: Value) -> bool
    decreases v,
{
    match v {
        Value::Array(es) => forall|i: int| 0 <= i < es@.len() ==> keys_ok(#[trigger] es@[i]),
        Value::Object(kvs) => forall|i: int|
            0 <= i < kvs@.len() ==> key_ok((#[trigger] kvs@[i]).0) && keys_ok(kvs@[i].1),
        Value::NewtypeStruct(b) => keys_ok(*b),
        Value::NewtypeVariant(_, b) => keys_ok(*b),
        Value::TupleVariant(_, es) => forall|i: int| 0 <= i < es@.len() ==> keys_ok(#[trigger] es@[i]),
        Value::StructVariant(_, fs) => forall|i: int|
            0 <= i < fs@.len() ==> keys_ok((#[trigger] fs@[i]).1),
        _ => true,
    }
}

pub open spec fn nmax(a: nat, b: nat) -> nat {
    if a >= b {
        a
    } else {
        b
    }
}

/// An upper bound on the nesting levels the pretty printer reaches below a
/// value: pretty encoding a value at level `lvl` only ever computes indent
/// levels up to `lvl + nest_depth(v)`. Used to rule out overflow of the
/// machine-sized level counter.
pub open spec fn nest_depth(v: Value) -> nat
    decreases v,
{
    match v {
        Value::Bytes(_) => 2,
        Value::Array(es) => 1 + list_depth(es@),
        Value::Object(kvs) => 1 + entries_depth(kvs@),
        Value::NewtypeStruct(b) => nest_depth(*b),
        Value::NewtypeVariant(_, b) => 1 + nest_depth(*b),
        Value::TupleVariant(_, es) => 2 + list_depth(es@),
        Value::StructVariant(_, fs) => 2 + fields_depth(fs@),
        _ => 1,
    }
}

pub open spec fn list_depth(es: Seq<Value>) -> nat
    decreases es,
{
    if es.len() == 0 {
        0
    } else {
        nmax(nest_depth(es[0]), list_depth(es.drop_first()))
    }
}

pub open spec fn entries_depth(kvs: Seq<(Value, Value)>) -> nat
    decreases kvs,
{
    if kvs.len() == 0 {
        0
    } else {
        nmax(
            nmax(nest_depth(kvs[0].0), nest_depth(kvs[0].1)),
            entries_depth(kvs.drop_first()),
        )
    }
}

pub open spec fn fields_depth(fs: Seq<(Vec<u8>, Value)>) -> nat
    decreases fs,
{
    if fs.len() == 0 {
        0
    } else {
        nmax(nest_depth(fs[0].1), fields_depth(fs.drop_first()))
    }
}

/// A list member needs no more levels than the list.
pub proof fn lemma_list_depth(es: Seq<Value>, i: int)
    requires
        0 <= i < es.len(),
    ensures
        nest_depth(es[i]) <= list_depth(es),
    decreases es.len(),
{
    if i > 0 {
        lemma_list_depth(es.drop_first(), i - 1);
        assert(es.drop_first()[i - 1] == es[i]);
    }
}

/// An entry's key and value need no more levels than the entry list.
pub proof fn lemma_entries_depth(kvs: Seq<(Value, Value)>, i: int)
    requires
        0 <= i < kvs.len(),
    ensures
        nest_depth(kvs[i].0) <= entries_depth(kvs),
        nest_depth(kvs[i].1) <= entries_depth(kvs),
    decreases kvs.len(),
{
    if i > 0 {
        lemma_entries_depth(kvs.drop_first(), i - 1);
        assert(kvs.drop_first()[i - 1] == kvs[i]);
    }
}

/// A field's value needs no more levels than the field list.
pub proof fn lemma_fields_depth(fs: Seq<(Vec<u8>, Value)>, i: int)
    requires
        0 <= i < fs.len(),
    ensures
        nest_depth(fs[i].1) <= fields_depth(fs),
    decreases fs.len(),
{
    if i > 0 {
        lemma_fields_depth(fs.drop_first(), i - 1);
        assert(fs.drop_first()[i - 1] == fs[i]);
    }
}

/// Every value needs at least one nesting level.
pub proof fn lemma_nest_depth_pos(v: Value)
    ensures
        nest_depth(v) >= 1,
    decreases v,
{
    match v {
        Value::NewtypeStruct(b) => {
            lemma_nest_depth_pos(*b);
        }
        _ => {}
    }
}

} // verus!
