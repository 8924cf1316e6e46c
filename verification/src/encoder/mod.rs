//! Machine code: the block that holds it, the encoders that produce it, and
//! what they share, the sizing of immediates and the order of their bytes.

use vstd::prelude::*;

pub mod arm64;
pub mod code_block;
pub mod x86_64;

pub use code_block::{CodeBlock, CodeBlockView, LabelRef, LabelState, RelOpcode};

verus! {

/// An address inside (or outside) generated code.
#[derive(Clone, Copy, PartialEq, Eq, Debug, Structural)]
pub struct CodePtr(pub u64);

/// The smallest of 8, 16, 32 and 64 bits in which a signed value fits.
pub open spec fn spec_imm_num_bits(imm: i64) -> u8 {
    if -0x80 <= imm <= 0x7f {
        8
    } else if -0x8000 <= imm <= 0x7fff {
        16
    } else if -0x8000_0000 <= imm <= 0x7fff_ffff {
        32
    } else {
        64
    }
}

/// The smallest of 8, 16, 32 and 64 bits in which an unsigned value fits.
pub open spec fn spec_uimm_num_bits(uimm: u64) -> u8 {
    if uimm <= 0xff {
        8
    } else if uimm <= 0xffff {
        16
    } else if uimm <= 0xffff_ffff {
        32
    } else {
        64
    }
}

/// Number of bits needed to encode a signed immediate.
pub fn imm_num_bits(imm: i64) -> (n: u8)
    ensures
        n == spec_imm_num_bits(imm),
{
    if imm >= -0x80 && imm <= 0x7f {
        return 8;
    }
    if imm >= -0x8000 && imm <= 0x7fff {
        return 16;
    }
    if imm >= -0x8000_0000 && imm <= 0x7fff_ffff {
        return 32;
    }
    64
}

/// Number of bits needed to encode an unsigned immediate.
pub fn uimm_num_bits(uimm: u64) -> (n: u8)
    ensures
        n == spec_uimm_num_bits(uimm),
{
    if uimm <= 0xff {
        8
    } else if uimm <= 0xffff {
        16
    } else if uimm <= 0xffff_ffff {
        32
    } else {
        64
    }
}

/// The `n` low bytes of `v`, least significant first.
pub open spec fn le_bytes(v: u64, n: nat) -> Seq<u8>
    decreases n,
{
    if n == 0 {
        Seq::empty()
    } else {
        seq![(v % 256) as u8] + le_bytes(v / 256, (n - 1) as nat)
    }
}

/// `le_bytes` yields as many bytes as asked for.
pub proof fn lemma_le_bytes_len(v: u64, n: nat)
    ensures
        le_bytes(v, n).len() == n,
    decreases n,
{
    if n > 0 {
        lemma_le_bytes_len(v / 256, (n - 1) as nat);
    }
}

/// A distance between two positions as the four bytes of its 32-bit two's
/// complement encoding.
pub open spec fn rel32_bytes(d: int) -> Seq<u8> {
    le_bytes((d as i64) as u64, 4)
}

/// The `num_bytes` low bytes of `val`, least significant first.
pub fn int_bytes(val: u64, num_bytes: usize) -> (out: Vec<u8>)
    ensures
        out@ == le_bytes(val, num_bytes as nat),
{
    let mut out: Vec<u8> = Vec::new();
    let mut cur = val;
    let mut i: usize = 0;
    while i < num_bytes
        invariant
            i <= num_bytes,
            out@ + le_bytes(cur, (num_bytes - i) as nat) == le_bytes(val, num_bytes as nat),
        decreases num_bytes - i,
    {
        let ghost prev = out@;
        out.push((cur % 256) as u8);
        proof {
            assert(out@ + le_bytes(cur / 256, (num_bytes - i - 1) as nat) =~= prev + le_bytes(
                cur,
                (num_bytes - i) as nat,
            ));
        }
        cur = cur / 256;
        i += 1;
    }
    assert(out@ + le_bytes(cur, 0) =~= out@);
    out
}

/// A vector of one byte.
pub(crate) fn bytes1(a: u8) -> (out: Vec<u8>)
    ensures
        out@ == seq![a],
{
    let mut out: Vec<u8> = Vec::new();
    out.push(a);
    assert(out@ =~= seq![a]);
    out
}

/// A vector of two bytes.
pub(crate) fn bytes2(a: u8, b: u8) -> (out: Vec<u8>)
    ensures
        out@ == seq![a, b],
{
    let mut out: Vec<u8> = Vec::new();
    out.push(a);
    out.push(b);
    assert(out@ =~= seq![a, b]);
    out
}

/// A vector of three bytes.
pub(crate) fn bytes3(a: u8, b: u8, c: u8) -> (out: Vec<u8>)
    ensures
        out@ == seq![a, b, c],
{
    let mut out: Vec<u8> = Vec::new();
    out.push(a);
    out.push(b);
    out.push(c);
    assert(out@ =~= seq![a, b, c]);
    out
}

/// The concatenation of two vectors.
pub(crate) fn concat(a: Vec<u8>, b: Vec<u8>) -> (out: Vec<u8>)
    ensures
        out@ == a@ + b@,
{
    let mut out = a;
    let mut b = b;
    out.append(&mut b);
    out
}

} // verus!
