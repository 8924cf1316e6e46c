//! The runtime's 64-bit encoded value, as far as the backend looks into it.

use vstd::prelude::*;

verus! {

/// Low bits that tag an immediate (small integer, float or static symbol).
pub const IMMEDIATE_MASK: u64 = 0x07;

/// The bit pattern of `nil`; `false` is the all-zero pattern.
pub const QNIL: u64 = 0x08;

/// A value of the dynamic language in its machine encoding.
#[derive(Clone, Copy, PartialEq, Eq, Debug, Structural)]
pub struct Value(pub u64);

impl Value {
    /// The value carries an immediate tag in its low bits.
    pub open spec fn is_immediate(self) -> bool {
        self.0 & IMMEDIATE_MASK != 0
    }

    /// The value is neither `false` nor `nil`.
    pub open spec fn is_truthy(self) -> bool {
        self.0 & !QNIL != 0
    }

    /// The value is stored in the word itself: an immediate, `nil` or `false`.
    pub open spec fn is_special_const(self) -> bool {
        self.is_immediate() || !self.is_truthy()
    }

    /// The word of the value read as a signed integer.
    pub open spec fn spec_as_i64(self) -> i64 {
        self.0 as i64
    }

    /// True for immediates, `nil` and `false`: values the garbage collector
    /// never moves.
    pub fn special_const_p(self) -> (b: bool)
        ensures
            b == self.is_special_const(),
    {
        (self.0 & IMMEDIATE_MASK) != 0 || (self.0 & !QNIL) == 0
    }

    /// True for references to heap objects.
    pub fn heap_object_p(self) -> (b: bool)
        ensures
            b == !self.is_special_const(),
    {
        !self.special_const_p()
    }

    /// The raw word, reinterpreted as signed.
    pub fn as_i64(self) -> (r: i64)
        ensures
            r == self.spec_as_i64(),
    {
        self.0 as i64
    }

    /// The raw word.
    pub fn as_u64(self) -> (r: u64)
        ensures
            r == self.0,
    {
        self.0
    }
}

} // verus!
