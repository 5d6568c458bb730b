use vstd::prelude::*;

verus! {

// Byte constants for the punctuation the encoder emits.
pub const B_QUOTE: u8 = 0x22;
pub const B_APOS: u8 = 0x27;
pub const B_COMMA: u8 = 0x2c;
pub const B_COLON: u8 = 0x3a;
pub const B_LBRACKET: u8 = 0x5b;
pub const B_RBRACKET: u8 = 0x5d;
pub const B_LBRACE: u8 = 0x7b;
pub const B_RBRACE: u8 = 0x7d;
pub const B_SPACE: u8 = 0x20;
pub const B_NL: u8 = 0x0a;
pub const B_BACKSLASH: u8 = 0x5c;
pub const B_MINUS: u8 = 0x2d;

/// The bytes of the `null` literal.
pub open spec fn lit_null() -> Seq<u8> {
    seq![0x6eu8, 0x75u8, 0x6cu8, 0x6cu8]
}

/// The bytes of the `true` literal.
pub open spec fn lit_true() -> Seq<u8> {
    seq![0x74u8, 0x72u8, 0x75u8, 0x65u8]
}

/// The bytes of the `false` literal.
pub open spec fn lit_false() -> Seq<u8> {
    seq![0x66u8, 0x61u8, 0x6cu8, 0x73u8, 0x65u8]
}

/// A single space when the value stands inline after an object key's colon,
/// nothing otherwise.
pub open spec fn sp(in_obj: bool) -> Seq<u8> {
    if in_obj {
        seq![B_SPACE]
    } else {
        Seq::empty()
    }
}

/// The indent unit repeated `n` times.
pub open spec fn ind(u: Seq<u8>, n: nat) -> Seq<u8>
    decreases n,
{
    if n == 0 {
        Seq::empty()
    } else {
        ind(u, (n - 1) as nat) + u
    }
}

/// A line break followed by indentation at level `n`.
pub open spec fn nl_ind(u: Seq<u8>, n: nat) -> Seq<u8> {
    seq![B_NL] + ind(u, n)
}

pub fn push_byte(out: &mut Vec<u8>, b: u8)
    ensures
        final(out)@ == old(out)@ + seq![b],
{
    out.push(b);
}

pub fn push_bytes(out: &mut Vec<u8>, s: &Vec<u8>)
    ensures
        final(out)@ == old(out)@ + s@,
{
    let mut i: usize = 0;
    while i < s.len()
        invariant
            i <= s@.len(),
            out@ == old(out)@ + s@.take(i as int),
        decreases s@.len() - i,
    {
        let b = s[i];
        out.push(b);
        proof {
            assert(s@.take(i + 1) =~= s@.take(i as int).push(s@[i as int]));
        }
        i = i + 1;
    }
    proof {
        assert(s@.take(s@.len() as int) =~= s@);
    }
}

/// Writes the indent unit `n` times, as the pretty layout requires at
/// nesting level `n`.
pub fn indent(out: &mut Vec<u8>, n: usize, u: &Vec<u8>)
    ensures
        final(out)@ == old(out)@ + ind(u@, n as nat),
{
    let mut k: usize = 0;
    while k < n
        invariant
            k <= n,
            out@ == old(out)@ + ind(u@, k as nat),
        decreases n - k,
    {
        push_bytes(out, u);
        k = k + 1;
    }
}

/// Writes a line break and then indentation at level `n`.
pub fn push_nl_ind(out: &mut Vec<u8>, n: usize, u: &Vec<u8>)
    ensures
        final(out)@ == old(out)@ + nl_ind(u@, n as nat),
{
    push_byte(out, B_NL);
    indent(out, n, u);
    proof {
        assert(old(out)@ + seq![B_NL] + ind(u@, n as nat) =~= old(out)@ + (seq![B_NL] + ind(
            u@,
            n as nat,
        )));
    }
}

pub fn push_null(out: &mut Vec<u8>)
    ensures
        final(out)@ == old(out)@ + lit_null(),
{
    out.push(0x6e);
    out.push(0x75);
    out.push(0x6c);
    out.push(0x6c);
    proof {
        assert(out@ =~= old(out)@ + lit_null());
    }
}

pub fn push_bool(out: &mut Vec<u8>, b: bool)
    ensures
        final(out)@ == old(out)@ + (if b {
            lit_true()
        } else {
            lit_false()
        }),
{
    if b {
        out.push(0x74);
        out.push(0x72);
        out.push(0x75);
        out.push(0x65);
        proof {
            assert(out@ =~= old(out)@ + lit_true());
        }
    } else {
        out.push(0x66);
        out.push(0x61);
        out.push(0x6c);
        out.push(0x73);
        out.push(0x65);
        proof {
            assert(out@ =~= old(out)@ + lit_false());
        }
    }
}

/// Writes the single space that precedes an inline scalar standing as an
/// object member's value.
pub fn push_sp(out: &mut Vec<u8>, in_obj: bool)
    ensures
        final(out)@ == old(out)@ + sp(in_obj),
{
    if in_obj {
        out.push(B_SPACE);
        proof {
            assert(out@ =~= old(out)@ + sp(in_obj));
        }
    } else {
        proof {
            assert(out@ =~= old(out)@ + sp(in_obj));
        }
    }
}

} // verus!
