//! Reading and writing bit fields of unsigned integers.

use vstd::prelude::*;

verus! {

/// Bit-field access on an unsigned integer type: overwrite or read a run
/// of `length` bits starting `shift` bits above the least significant one.
pub trait BitManipulation: Sized {
    /// Whether a field of `length` bits at `shift` lies inside the type.
    spec fn args_ok(shift: Self, length: Self) -> bool;

    /// Whether a single bit at `shift` lies inside the type.
    spec fn shift_ok(shift: Self) -> bool;

    /// The value after overwriting the field with `val`'s low bits.
    spec fn spec_set_bits(self, shift: Self, length: Self, val: Self) -> Self;

    /// The value after setting or clearing the single bit at `shift`.
    spec fn spec_set_bit(self, shift: Self, enable: bool) -> Self;

    /// The field's bits, moved down to the least significant positions.
    spec fn spec_get_bits(self, shift: Self, length: Self) -> Self;

    /// Overwrites the field with `val`'s low bits.
    fn set_bits(&mut self, shift: Self, length: Self, val: Self)
        requires
            Self::args_ok(shift, length),
        ensures
            *final(self) == old(self).spec_set_bits(shift, length, val),
    ;

    /// Sets or clears the single bit at `shift`.
    fn set_bit(&mut self, shift: Self, enable: bool)
        requires
            Self::shift_ok(shift),
        ensures
            *final(self) == old(self).spec_set_bit(shift, enable),
    ;

    /// Reads the field.
    fn get_bits(&self, shift: Self, length: Self) -> (r: Self)
        requires
            Self::args_ok(shift, length),
        ensures
            r == self.spec_get_bits(shift, length),
    ;
}

impl BitManipulation for u64 {
    open spec fn args_ok(shift: u64, length: u64) -> bool {
        shift < 64 && length < 64 && shift + length <= 64
    }

    open spec fn shift_ok(shift: u64) -> bool {
        shift < 64
    }

    open spec fn spec_set_bits(self, shift: u64, length: u64, val: u64) -> u64 {
        let mask = ((((1u64 << length) - 1) as u64) << shift) as u64;
        ((self & !mask) | (((val << shift) as u64) & mask)) as u64
    }

    open spec fn spec_set_bit(self, shift: u64, enable: bool) -> u64 {
        self.spec_set_bits(
            shift,
            1u64,
            if enable {
                1u64
            } else {
                0u64
            },
        )
    }

    open spec fn spec_get_bits(self, shift: u64, length: u64) -> u64 {
        ((self >> shift) & (((1u64 << length) - 1) as u64)) as u64
    }

    fn set_bits(&mut self, shift: u64, length: u64, val: u64) {
        proof {
            assert(1u64 << length >= 1) by (bit_vector)
                requires
                    length < 64,
            ;
        }
        let mut mask: u64 = (1u64 << length) - 1;
        mask <<= shift;

        *self &= !mask;  // Clear the bits in the specified range
        *self |= (val << shift) & mask;  // Set the bits to the new value
    }

    fn set_bit(&mut self, shift: u64, enable: bool) {
        self.set_bits(shift, 1, enable as u64);
    }

    fn get_bits(&self, shift: u64, length: u64) -> u64 {
        proof {
            assert(1u64 << length >= 1) by (bit_vector)
                requires
                    length < 64,
            ;
        }
        let mask: u64 = (1u64 << length) - 1;
        (*self >> shift) & mask
    }
}

impl BitManipulation for u8 {
    open spec fn args_ok(shift: u8, length: u8) -> bool {
        shift < 8 && length < 8 && shift + length <= 8
    }

    open spec fn shift_ok(shift: u8) -> bool {
        shift < 8
    }

    open spec fn spec_set_bits(self, shift: u8, length: u8, val: u8) -> u8 {
        let mask = ((((1u8 << length) - 1) as u8) << shift) as u8;
        ((self & !mask) | (((val << shift) as u8) & mask)) as u8
    }

    open spec fn spec_set_bit(self, shift: u8, enable: bool) -> u8 {
        self.spec_set_bits(
            shift,
            1u8,
            if enable {
                1u8
            } else {
                0u8
            },
        )
    }

    open spec fn spec_get_bits(self, shift: u8, length: u8) -> u8 {
        ((self >> shift) & (((1u8 << length) - 1) as u8)) as u8
    }

    fn set_bits(&mut self, shift: u8, length: u8, val: u8) {
        proof {
            assert(1u8 << length >= 1) by (bit_vector)
                requires
                    length < 8,
            ;
        }
        let mut mask: u8 = (1u8 << length) - 1;
        mask <<= shift;

        *self &= !mask;  // Clear the bits in the specified range
        *self |= (val << shift) & mask;  // Set the bits to the new value
    }

    fn set_bit(&mut self, shift: u8, enable: bool) {
        self.set_bits(shift, 1, enable as u8);
    }

    fn get_bits(&self, shift: u8, length: u8) -> u8 {
        proof {
            assert(1u8 << length >= 1) by (bit_vector)
                requires
                    length < 8,
            ;
        }
        let mask: u8 = (1u8 << length) - 1;
        (*self >> shift) & mask
    }
}

} // verus!
