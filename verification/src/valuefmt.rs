//! Rendering of single decoded tag values into table text.
//!
//! Integers render in decimal, with the missing sentinel as an empty field.
//! Floating-point values reach this crate already rendered to text by the
//! decoding layer, as `Option<Vec<u8>>` with `None` for the missing
//! sentinel, so a float cell is the text or an empty field. Flags render as
//! `true`/`false` and have no missing state.

use vstd::prelude::*;

use crate::MISSING_INTEGER;

verus! {

/// Decimal digits of `n`, most significant first.
pub open spec fn dec_bytes(n: nat) -> Seq<u8>
    decreases n,
{
    if n < 10 {
        seq![(n + 48) as u8]
    } else {
        dec_bytes(n / 10) + seq![(n % 10 + 48) as u8]
    }
}

/// Decimal text of a (possibly negative) integer.
pub open spec fn int_bytes(v: int) -> Seq<u8> {
    if v < 0 {
        seq![45u8] + dec_bytes((-v) as nat)
    } else {
        dec_bytes(v as nat)
    }
}

/// An integer cell: empty for the missing sentinel, decimal text otherwise.
pub open spec fn fmt_int(v: int) -> Seq<u8> {
    if v == MISSING_INTEGER as int {
        Seq::empty()
    } else {
        int_bytes(v)
    }
}

/// A flag cell: the literal `true` or `false`.
pub open spec fn flag_bytes(b: bool) -> Seq<u8> {
    if b {
        seq![116u8, 114u8, 117u8, 101u8]
    } else {
        seq![102u8, 97u8, 108u8, 115u8, 101u8]
    }
}

/// A cell holding optional pre-rendered text: the text, or empty when the
/// value is missing. Used for float values and for the quality column.
pub open spec fn opt_text_cell(v: Option<Vec<u8>>) -> Seq<u8> {
    match v {
        Option::None => Seq::empty(),
        Option::Some(t) => t@,
    }
}

/// Appends the bytes of `src` to `dst`.
pub fn append_bytes(dst: &mut Vec<u8>, src: &[u8])
    ensures
        final(dst)@ == old(dst)@ + src@,
{
    let mut j: usize = 0;
    while j < src.len()
        invariant
            j <= src@.len(),
            dst@ == old(dst)@ + src@.subrange(0, j as int),
        decreases src@.len() - j,
    {
        dst.push(src[j]);
        assert(src@.subrange(0, j + 1) =~= src@.subrange(0, j as int).push(src@[j as int]));
        j += 1;
    }
    assert(src@.subrange(0, src@.len() as int) =~= src@);
}

/// An owned copy of a byte string.
pub fn copy_bytes(src: &Vec<u8>) -> (r: Vec<u8>)
    ensures
        r@ == src@,
{
    let mut out: Vec<u8> = Vec::new();
    append_bytes(&mut out, src.as_slice());
    out
}

/// Renders an integer value: empty text for the missing sentinel, decimal
/// text otherwise.
pub fn int_to_text(v: i32) -> (r: Vec<u8>)
    ensures
        r@ == fmt_int(v as int),
{
    if v == MISSING_INTEGER {
        Vec::new()
    } else {
        let neg = v < 0;
        let abs: u32 = if v < 0 {
            assert(v > i32::MIN);
            (-(v as i64)) as u32
        } else {
            v as u32
        };
        assert(abs as int == if v < 0 { -(v as int) } else { v as int });
        // Low-order digits first.
        let mut rev: Vec<u8> = Vec::new();
        let mut m: u32 = abs;
        rev.push((m % 10) as u8 + 48);
        proof {
            assert(rev@.reverse() =~= seq![((abs as nat % 10) + 48) as u8]);
        }
        m = m / 10;
        while m > 0
            invariant
                dec_bytes(abs as nat) == if m > 0 {
                    dec_bytes(m as nat) + rev@.reverse()
                } else {
                    rev@.reverse()
                },
            decreases m,
        {
            let d: u8 = (m % 10) as u8 + 48;
            proof {
                assert(rev@.push(d).reverse() =~= seq![d] + rev@.reverse());
            }
            rev.push(d);
            m = m / 10;
        }
        // Reverse into the output, with a leading sign for negatives.
        let mut out: Vec<u8> = Vec::new();
        let ghost prefix: Seq<u8> = if neg { seq![45u8] } else { Seq::empty() };
        if neg {
            out.push(45);
        }
        assert(out@ =~= prefix + rev@.subrange(rev@.len() as int, rev@.len() as int).reverse());
        let mut k: usize = rev.len();
        while k > 0
            invariant
                k <= rev@.len(),
                out@ == prefix + rev@.subrange(k as int, rev@.len() as int).reverse(),
            decreases k,
        {
            k -= 1;
            out.push(rev[k]);
            proof {
                let tail = rev@.subrange(k as int, rev@.len() as int);
                assert(tail.reverse() =~= rev@.subrange(k + 1, rev@.len() as int).reverse().push(
                    rev@[k as int],
                ));
            }
        }
        proof {
            assert(rev@.subrange(0, rev@.len() as int) =~= rev@);
            assert(out@ == prefix + dec_bytes(abs as nat));
            if neg {
                assert(fmt_int(v as int) == seq![45u8] + dec_bytes((-(v as int)) as nat));
            }
        }
        out
    }
}

/// Renders a flag value as `true` or `false`.
pub fn flag_to_text(b: bool) -> (r: Vec<u8>)
    ensures
        r@ == flag_bytes(b),
{
    let mut out: Vec<u8> = Vec::new();
    if b {
        out.push(116);
        out.push(114);
        out.push(117);
        out.push(101);
    } else {
        out.push(102);
        out.push(97);
        out.push(108);
        out.push(115);
        out.push(101);
    }
    proof {
        assert(out@ =~= flag_bytes(b));
    }
    out
}

/// Renders optional pre-rendered text: the text, or empty when missing.
pub fn opt_to_text(v: &Option<Vec<u8>>) -> (r: Vec<u8>)
    ensures
        r@ == opt_text_cell(*v),
{
    match v {
        Option::None => Vec::new(),
        Option::Some(t) => copy_bytes(t),
    }
}

} // verus!
