use crate::encoding::{is_code, LetterState};
use crate::packing::{
    all_codes, codes_of, lemma_pack_fits, lemma_unpack_codes, lemma_unpack_len_u16, pack, unpack,
};
use crate::wire::{is_double_of, read_whole, whole_number_up_to, write_whole, EXACT_LIMIT};
use vstd::prelude::*;

verus! {

/// The widths of the bounded integers.
#[derive(Debug, PartialEq, Eq, Clone, Copy, Structural)]
pub enum Width {
    /// Eight bits.
    W8,
    /// Sixteen bits.
    W16,
    /// Thirty-two bits.
    W32,
    /// Fifty-four bits.
    W54,
}

impl Width {
    /// The largest value that fits.
    pub open spec fn max(self) -> int {
        match self {
            Width::W8 => 0xFF,
            Width::W16 => 0xFFFF,
            Width::W32 => 0xFFFF_FFFF,
            Width::W54 => 0x3F_FFFF_FFFF_FFFF,
        }
    }

    /// Whether `value` is an unsigned integer of this width.
    pub open spec fn holds(self, value: int) -> bool {
        0 <= value <= self.max()
    }
}

/// A value was asked for that is no unsigned integer of the width.
#[derive(Debug, PartialEq, Eq, Clone, Copy, Structural)]
pub struct RangeError {
    /// The width that the value had to fit.
    pub width: Width,
}

impl RangeError {
    /// The text of the error.
    pub open spec fn text(self) -> Seq<char> {
        match self.width {
            Width::W8 => "expected an unsigned 8-bit integer"@,
            Width::W16 => "expected an unsigned 16-bit integer"@,
            Width::W32 => "expected an unsigned 32-bit integer"@,
            Width::W54 => "expected an unsigned 54-bit integer"@,
        }
    }

    /// The text of the error.
    pub fn message(&self) -> (text: String)
        ensures
            text@ == self.text(),
    {
        match self.width {
            Width::W8 => String::from_str("expected an unsigned 8-bit integer"),
            Width::W16 => String::from_str("expected an unsigned 16-bit integer"),
            Width::W32 => String::from_str("expected an unsigned 32-bit integer"),
            Width::W54 => String::from_str("expected an unsigned 54-bit integer"),
        }
    }
}

/// The largest 32-bit integer.
pub const U32_MAX: u64 = 0xFFFF_FFFF;

/// An unsigned 8-bit integer that never wraps.
#[derive(Debug, PartialEq, Eq, Clone, Copy, Structural)]
pub struct U8 {
    value: u8,
}

impl U8 {
    /// The integer held.
    pub closed spec fn value(self) -> u8 {
        self.value
    }

    /// Two bounded integers that hold the same integer are the same.
    pub proof fn lemma_same_value(self, other: U8)
        requires
            self.value() == other.value(),
        ensures
            self == other,
    {
    }

    /// The bounded integer that holds `value`.
    pub fn new(value: u8) -> (n: U8)
        ensures
            n.value() == value,
    {
        U8 { value }
    }

    /// `value` as a bounded integer, or the error where it is negative or
    /// too large.
    pub fn from_i32(value: i32) -> (r: Result<U8, RangeError>)
        ensures
            match r {
                Ok(n) => Width::W8.holds(value as int) && n.value() == value,
                Err(e) => !Width::W8.holds(value as int) && e.width == Width::W8,
            },
    {
        if 0 <= value && value as i64 <= 0xFF {
            Ok(U8 { value: value as u8 })
        } else {
            Err(RangeError { width: Width::W8 })
        }
    }

    /// The integer held.
    pub fn get(&self) -> (value: u8)
        ensures
            value == self.value(),
            Width::W8.holds(value as int),
    {
        self.value
    }

    /// The sum of the integer and `rhs`, or `None` where it is negative or
    /// too large for the width.
    pub fn checked_add(&self, rhs: i32) -> (sum: Option<U8>)
        ensures
            match sum {
                Some(n) => Width::W8.holds(self.value() + rhs) && n.value() == self.value()
                    + rhs,
                None => !Width::W8.holds(self.value() + rhs),
            },
    {
        let sum: i64 = self.value as i64 + rhs as i64;
        if 0 <= sum && sum <= 0xFF {
            Some(U8 { value: sum as u8 })
        } else {
            None
        }
    }

    /// The integer less `rhs`, or `None` where that is negative or too large
    /// for the width.
    pub fn checked_sub(&self, rhs: i32) -> (difference: Option<U8>)
        ensures
            match difference {
                Some(n) => Width::W8.holds(self.value() - rhs) && n.value() == self.value()
                    - rhs,
                None => !Width::W8.holds(self.value() - rhs),
            },
    {
        let difference: i64 = self.value as i64 - rhs as i64;
        if 0 <= difference && difference <= 0xFF {
            Some(U8 { value: difference as u8 })
        } else {
            None
        }
    }

    /// Adds `rhs`. The sum has to fit the width.
    pub fn add_assign(&mut self, rhs: i32)
        requires
            Width::W8.holds(old(self).value() + rhs),
        ensures
            final(self).value() == old(self).value() + rhs,
    {
        let sum: i64 = self.value as i64 + rhs as i64;
        self.value = sum as u8;
    }

    /// Takes `rhs` away. The difference has to fit the width.
    pub fn sub_assign(&mut self, rhs: i32)
        requires
            Width::W8.holds(old(self).value() - rhs),
        ensures
            final(self).value() == old(self).value() - rhs,
    {
        let difference: i64 = self.value as i64 - rhs as i64;
        self.value = difference as u8;
    }

    /// Adds `rhs`. The sum has to fit the width.
    pub fn add_assign_u8(&mut self, rhs: u8)
        requires
            Width::W8.holds(old(self).value() + rhs),
        ensures
            final(self).value() == old(self).value() + rhs,
    {
        self.value = self.value + rhs;
    }

    /// Takes `rhs` away. The difference must not be negative.
    pub fn sub_assign_u8(&mut self, rhs: u8)
        requires
            Width::W8.holds(old(self).value() - rhs),
        ensures
            final(self).value() == old(self).value() - rhs,
    {
        self.value = self.value - rhs;
    }

    /// Reads the integer from a wire integer: `None` stands for a wire value
    /// that is no integer at all.
    pub fn from_input(wire: Option<i32>) -> (r: Result<U8, RangeError>)
        ensures
            match r {
                Ok(n) => wire matches Some(v) && Width::W8.holds(v as int) && n.value() == v,
                Err(e) => e.width == Width::W8 && (wire matches Some(v) ==> !Width::W8.holds(
                    v as int,
                )),
            },
    {
        match wire {
            None => Err(RangeError { width: Width::W8 }),
            Some(v) => U8::from_i32(v),
        }
    }

    /// The integer as a wire integer.
    pub fn to_output(&self) -> (wire: i32)
        ensures
            wire == self.value(),
    {
        self.value as i32
    }
}

/// An unsigned 16-bit integer that never wraps.
#[derive(Debug, PartialEq, Eq, Clone, Copy, Structural)]
pub struct U16 {
    value: u16,
}

impl U16 {
    /// The integer held.
    pub closed spec fn value(self) -> u16 {
        self.value
    }

    /// Two bounded integers that hold the same integer are the same.
    pub proof fn lemma_same_value(self, other: U16)
        requires
            self.value() == other.value(),
        ensures
            self == other,
    {
    }

    /// The bounded integer that holds `value`.
    pub fn new(value: u16) -> (n: U16)
        ensures
            n.value() == value,
    {
        U16 { value }
    }

    /// `value` as a bounded integer, or the error where it is negative or
    /// too large.
    pub fn from_i32(value: i32) -> (r: Result<U16, RangeError>)
        ensures
            match r {
                Ok(n) => Width::W16.holds(value as int) && n.value() == value,
                Err(e) => !Width::W16.holds(value as int) && e.width == Width::W16,
            },
    {
        if 0 <= value && value as i64 <= 0xFFFF {
            Ok(U16 { value: value as u16 })
        } else {
            Err(RangeError { width: Width::W16 })
        }
    }

    /// The integer held.
    pub fn get(&self) -> (value: u16)
        ensures
            value == self.value(),
            Width::W16.holds(value as int),
    {
        self.value
    }

    /// The sum of the integer and `rhs`, or `None` where it is negative or
    /// too large for the width.
    pub fn checked_add(&self, rhs: i32) -> (sum: Option<U16>)
        ensures
            match sum {
                Some(n) => Width::W16.holds(self.value() + rhs) && n.value() == self.value()
                    + rhs,
                None => !Width::W16.holds(self.value() + rhs),
            },
    {
        let sum: i64 = self.value as i64 + rhs as i64;
        if 0 <= sum && sum <= 0xFFFF {
            Some(U16 { value: sum as u16 })
        } else {
            None
        }
    }

    /// The integer less `rhs`, or `None` where that is negative or too large
    /// for the width.
    pub fn checked_sub(&self, rhs: i32) -> (difference: Option<U16>)
        ensures
            match difference {
                Some(n) => Width::W16.holds(self.value() - rhs) && n.value() == self.value()
                    - rhs,
                None => !Width::W16.holds(self.value() - rhs),
            },
    {
        let difference: i64 = self.value as i64 - rhs as i64;
        if 0 <= difference && difference <= 0xFFFF {
            Some(U16 { value: difference as u16 })
        } else {
            None
        }
    }

    /// Adds `rhs`. The sum has to fit the width.
    pub fn add_assign(&mut self, rhs: i32)
        requires
            Width::W16.holds(old(self).value() + rhs),
        ensures
            final(self).value() == old(self).value() + rhs,
    {
        let sum: i64 = self.value as i64 + rhs as i64;
        self.value = sum as u16;
    }

    /// Takes `rhs` away. The difference has to fit the width.
    pub fn sub_assign(&mut self, rhs: i32)
        requires
            Width::W16.holds(old(self).value() - rhs),
        ensures
            final(self).value() == old(self).value() - rhs,
    {
        let difference: i64 = self.value as i64 - rhs as i64;
        self.value = difference as u16;
    }

    /// Adds `rhs`. The sum has to fit the width.
    pub fn add_assign_u16(&mut self, rhs: u16)
        requires
            Width::W16.holds(old(self).value() + rhs),
        ensures
            final(self).value() == old(self).value() + rhs,
    {
        self.value = self.value + rhs;
    }

    /// Takes `rhs` away. The difference must not be negative.
    pub fn sub_assign_u16(&mut self, rhs: u16)
        requires
            Width::W16.holds(old(self).value() - rhs),
        ensures
            final(self).value() == old(self).value() - rhs,
    {
        self.value = self.value - rhs;
    }

    /// Reads the integer from a wire integer: `None` stands for a wire value
    /// that is no integer at all.
    pub fn from_input(wire: Option<i32>) -> (r: Result<U16, RangeError>)
        ensures
            match r {
                Ok(n) => wire matches Some(v) && Width::W16.holds(v as int) && n.value() == v,
                Err(e) => e.width == Width::W16 && (wire matches Some(v) ==> !Width::W16.holds(
                    v as int,
                )),
            },
    {
        match wire {
            None => Err(RangeError { width: Width::W16 }),
            Some(v) => U16::from_i32(v),
        }
    }

    /// The integer as a wire integer.
    pub fn to_output(&self) -> (wire: i32)
        ensures
            wire == self.value(),
    {
        self.value as i32
    }

    /// `value` as a bounded integer, or the error where it is too large.
    pub fn from_u64(value: u64) -> (r: Result<U16, RangeError>)
        ensures
            match r {
                Ok(n) => Width::W16.holds(value as int) && n.value() == value,
                Err(e) => !Width::W16.holds(value as int) && e.width == Width::W16,
            },
    {
        if value <= 0xFFFF {
            Ok(U16 { value: value as u16 })
        } else {
            Err(RangeError { width: Width::W16 })
        }
    }

    /// The bounded integer that holds `value`.
    pub fn from_u8(value: u8) -> (n: U16)
        ensures
            n.value() == value,
    {
        U16 { value: value as u16 }
    }

    /// The integer held.
    pub fn to_u64(&self) -> (value: u64)
        ensures
            value == self.value(),
    {
        self.value as u64
    }

    /// The codes that the integer packs, lowest first, as far as the
    /// integer reaches.
    pub open spec fn codes(self) -> Seq<u8> {
        unpack(self.value() as nat)
    }

    /// Packs up to eight codes, the first one lowest.
    pub fn from_codes(value: Vec<u8>) -> (n: U16)
        requires
            value@.len() <= 8,
            all_codes(value@),
        ensures
            n.value() == pack(value@),
    {
        let mut num: u16 = 0;
        let mut i: usize = value.len();
        proof {
            assert(value@.skip(i as int) =~= Seq::<u8>::empty());
        }
        while i > 0
            invariant
                i <= value@.len() <= 8,
                all_codes(value@),
                num == pack(value@.skip(i as int)),
            decreases i,
        {
            proof {
                let tail = value@.skip(i as int - 1);
                assert(tail.drop_first() =~= value@.skip(i as int));
                assert(tail[0] == value@[i as int - 1]);
                assert(is_code(value@[i as int - 1] as int));
                assert forall|j: int| 0 <= j < tail.len() implies is_code(
                    #[trigger] tail[j] as int,
                ) by {
                    assert(tail[j] == value@[i as int - 1 + j]);
                }
                lemma_pack_fits(tail);
            }
            i = i - 1;
            num = num * 4 + value[i] as u16;
        }
        proof {
            assert(value@.skip(0) =~= value@);
        }
        U16 { value: num }
    }

    /// Packs the codes of up to eight states, the first one lowest.
    pub fn from_states(value: Vec<LetterState>) -> (n: U16)
        requires
            value@.len() <= 8,
        ensures
            n.value() == pack(codes_of(value@)),
    {
        let mut codes: Vec<u8> = Vec::new();
        let mut i: usize = 0;
        while i < value.len()
            invariant
                i <= value@.len(),
                codes@ == codes_of(value@.take(i as int)),
            decreases value@.len() - i,
        {
            codes.push(value[i].to_u8());
            proof {
                assert(codes@ =~= codes_of(value@.take(i as int + 1)));
            }
            i = i + 1;
        }
        proof {
            assert(value@.take(value@.len() as int) =~= value@);
        }
        U16::from_codes(codes)
    }

    /// Unpacks the codes, lowest first, as far as the integer reaches.
    pub fn to_codes(&self) -> (codes: Vec<u8>)
        ensures
            codes@ == self.codes(),
            codes@.len() <= 8,
            all_codes(codes@),
    {
        let mut states: Vec<u8> = Vec::new();
        let mut num: u16 = self.value;
        proof {
            assert(Seq::<u8>::empty() + unpack(num as nat) =~= unpack(num as nat));
        }
        while num > 0
            invariant
                unpack(self.value as nat) == states@ + unpack(num as nat),
            decreases num,
        {
            let state_value: u8 = (num & 0b11) as u8;
            proof {
                assert(num & 0b11 == num % 4) by (bit_vector);
                assert(num >> 2 == num / 4) by (bit_vector);
                assert(states@.push(state_value) + unpack((num / 4) as nat) =~= states@ + unpack(
                    num as nat,
                ));
            }
            states.push(state_value);
            num = num >> 2;
        }
        proof {
            assert(states@ + Seq::<u8>::empty() =~= states@);
            lemma_unpack_codes(self.value as nat);
            lemma_unpack_len_u16(self.value);
        }
        states
    }

    /// Unpacks the states, lowest first, as far as the integer reaches.
    pub fn to_states(&self) -> (states: Vec<LetterState>)
        ensures
            codes_of(states@) == self.codes(),
    {
        let codes = self.to_codes();
        let mut states: Vec<LetterState> = Vec::new();
        let mut i: usize = 0;
        while i < codes.len()
            invariant
                i <= codes@.len(),
                all_codes(codes@),
                states@.len() == i,
                codes_of(states@) == codes@.take(i as int),
            decreases codes@.len() - i,
        {
            let ghost before = states@;
            states.push(LetterState::from_u8(codes[i]));
            proof {
                assert forall|j: int| 0 <= j < i + 1 implies codes_of(states@)[j] == codes@[j] by {
                    if j < i {
                        assert(codes_of(before)[j] == codes@.take(i as int)[j]);
                    }
                }
                assert(codes_of(states@) =~= codes@.take(i as int + 1));
            }
            i = i + 1;
        }
        proof {
            assert(codes@.take(codes@.len() as int) =~= codes@);
        }
        states
    }

    /// Takes the lowest code off the integer, where the integer is not zero.
    pub fn next(&mut self) -> (code: Option<u8>)
        ensures
            old(self).value() == 0 ==> code is None && final(self).value() == 0,
            old(self).value() != 0 ==> code == Some((old(self).value() % 4) as u8)
                && final(self).value() == old(self).value() / 4,
            old(self).codes() == match code {
                Some(c) => seq![c] + final(self).codes(),
                None => Seq::empty(),
            },
    {
        if self.value == 0 {
            None
        } else {
            let num: u16 = self.value;
            proof {
                assert(num & 0b11 == num % 4) by (bit_vector);
                assert(num >> 2 == num / 4) by (bit_vector);
            }
            let state_value: u8 = (num & 0b11) as u8;
            self.value = num >> 2;
            Some(state_value)
        }
    }
}

/// An unsigned 32-bit integer that never wraps.
#[derive(Debug, PartialEq, Eq, Clone, Copy, Structural)]
pub struct U32 {
    value: u32,
}

impl U32 {
    /// The integer held.
    pub closed spec fn value(self) -> u32 {
        self.value
    }

    /// Two bounded integers that hold the same integer are the same.
    pub proof fn lemma_same_value(self, other: U32)
        requires
            self.value() == other.value(),
        ensures
            self == other,
    {
    }

    /// The bounded integer that holds `value`.
    pub fn new(value: u32) -> (n: U32)
        ensures
            n.value() == value,
    {
        U32 { value }
    }

    /// `value` as a bounded integer, or the error where it is negative or
    /// too large.
    pub fn from_i32(value: i32) -> (r: Result<U32, RangeError>)
        ensures
            match r {
                Ok(n) => Width::W32.holds(value as int) && n.value() == value,
                Err(e) => !Width::W32.holds(value as int) && e.width == Width::W32,
            },
    {
        if 0 <= value && value as i64 <= 0xFFFF_FFFF {
            Ok(U32 { value: value as u32 })
        } else {
            Err(RangeError { width: Width::W32 })
        }
    }

    /// The integer held.
    pub fn get(&self) -> (value: u32)
        ensures
            value == self.value(),
            Width::W32.holds(value as int),
    {
        self.value
    }

    /// The sum of the integer and `rhs`, or `None` where it is negative or
    /// too large for the width.
    pub fn checked_add(&self, rhs: i32) -> (sum: Option<U32>)
        ensures
            match sum {
                Some(n) => Width::W32.holds(self.value() + rhs) && n.value() == self.value()
                    + rhs,
                None => !Width::W32.holds(self.value() + rhs),
            },
    {
        let sum: i64 = self.value as i64 + rhs as i64;
        if 0 <= sum && sum <= 0xFFFF_FFFF {
            Some(U32 { value: sum as u32 })
        } else {
            None
        }
    }

    /// The integer less `rhs`, or `None` where that is negative or too large
    /// for the width.
    pub fn checked_sub(&self, rhs: i32) -> (difference: Option<U32>)
        ensures
            match difference {
                Some(n) => Width::W32.holds(self.value() - rhs) && n.value() == self.value()
                    - rhs,
                None => !Width::W32.holds(self.value() - rhs),
            },
    {
        let difference: i64 = self.value as i64 - rhs as i64;
        if 0 <= difference && difference <= 0xFFFF_FFFF {
            Some(U32 { value: difference as u32 })
        } else {
            None
        }
    }

    /// Adds `rhs`. The sum has to fit the width.
    pub fn add_assign(&mut self, rhs: i32)
        requires
            Width::W32.holds(old(self).value() + rhs),
        ensures
            final(self).value() == old(self).value() + rhs,
    {
        let sum: i64 = self.value as i64 + rhs as i64;
        self.value = sum as u32;
    }

    /// Takes `rhs` away. The difference has to fit the width.
    pub fn sub_assign(&mut self, rhs: i32)
        requires
            Width::W32.holds(old(self).value() - rhs),
        ensures
            final(self).value() == old(self).value() - rhs,
    {
        let difference: i64 = self.value as i64 - rhs as i64;
        self.value = difference as u32;
    }

    /// Adds `rhs`. The sum has to fit the width.
    pub fn add_assign_u32(&mut self, rhs: u32)
        requires
            Width::W32.holds(old(self).value() + rhs),
        ensures
            final(self).value() == old(self).value() + rhs,
    {
        self.value = self.value + rhs;
    }

    /// Takes `rhs` away. The difference must not be negative.
    pub fn sub_assign_u32(&mut self, rhs: u32)
        requires
            Width::W32.holds(old(self).value() - rhs),
        ensures
            final(self).value() == old(self).value() - rhs,
    {
        self.value = self.value - rhs;
    }

    /// The whole number that a double is, given by its bit pattern, as a
    /// bounded integer; or the error where the double is negative, has a
    /// fractional part, is infinite or no number, or is too large.
    pub fn from_double(bits: u64) -> (r: Result<U32, RangeError>)
        ensures
            match r {
                Ok(n) => whole_number_up_to(bits, Width::W32.max()) == Some(n.value() as u64),
                Err(e) => e.width == Width::W32 && whole_number_up_to(
                    bits,
                    Width::W32.max(),
                ) is None,
            },
    {
        match read_whole(bits, U32_MAX) {
            Some(n) => Ok(U32 { value: n as u32 }),
            None => Err(RangeError { width: Width::W32 }),
        }
    }

    /// The largest integer that is read from the wire.
    pub open spec fn wire_limit() -> int {
        U32_MAX as int
    }

    /// Reads the integer from a wire scalar, a double given by its bit
    /// pattern: `None` stands for a wire value that is no number at all.
    /// The double has to be a whole number from zero up to the limit.
    pub fn from_input(wire: Option<u64>) -> (r: Result<U32, RangeError>)
        ensures
            match r {
                Ok(n) => wire matches Some(bits) && whole_number_up_to(bits, U32::wire_limit())
                    == Some(n.value() as u64),
                Err(e) => e.width == Width::W32 && (wire matches Some(bits)
                    ==> whole_number_up_to(bits, U32::wire_limit()) is None),
            },
    {
        match wire {
            None => Err(RangeError { width: Width::W32 }),
            Some(bits) => match read_whole(bits, U32_MAX) {
                Some(n) => Ok(U32 { value: n as u32 }),
                None => Err(RangeError { width: Width::W32 }),
            },
        }
    }

    /// The integer as a wire scalar: the bit pattern of the double nearest
    /// to it, which up to two to the power 53 is the integer itself.
    pub fn to_output(&self) -> (wire: u64)
        ensures
            is_double_of(self.value() as int, wire),
    {
        write_whole(self.value as u64)
    }
}

/// An unsigned 54-bit integer that never wraps.
#[derive(Debug, PartialEq, Eq, Clone, Copy, Structural)]
pub struct U54 {
    value: u64,
}

impl U54 {
    #[verifier::type_invariant]
    spec fn in_range(self) -> bool {
        self.value <= 0x3F_FFFF_FFFF_FFFF
    }

    /// The integer held.
    pub closed spec fn value(self) -> u64 {
        self.value
    }

    /// Two bounded integers that hold the same integer are the same.
    pub proof fn lemma_same_value(self, other: U54)
        requires
            self.value() == other.value(),
        ensures
            self == other,
    {
    }

    /// The bounded integer that holds `value`, or the error where `value`
    /// takes more than 54 bits.
    pub fn new(value: u64) -> (r: Result<U54, RangeError>)
        ensures
            match r {
                Ok(n) => Width::W54.holds(value as int) && n.value() == value,
                Err(e) => !Width::W54.holds(value as int) && e.width == Width::W54,
            },
    {
        if value <= 0x3F_FFFF_FFFF_FFFF {
            Ok(U54 { value })
        } else {
            Err(RangeError { width: Width::W54 })
        }
    }

    /// `value` as a bounded integer, or the error where it is negative or
    /// too large.
    pub fn from_i32(value: i32) -> (r: Result<U54, RangeError>)
        ensures
            match r {
                Ok(n) => Width::W54.holds(value as int) && n.value() == value,
                Err(e) => !Width::W54.holds(value as int) && e.width == Width::W54,
            },
    {
        if 0 <= value && value as i64 <= 0x3F_FFFF_FFFF_FFFF {
            Ok(U54 { value: value as u64 })
        } else {
            Err(RangeError { width: Width::W54 })
        }
    }

    /// The integer held.
    pub fn get(&self) -> (value: u64)
        ensures
            value == self.value(),
            Width::W54.holds(value as int),
    {
        proof {
            use_type_invariant(&*self);
        }
        self.value
    }

    /// The sum of the integer and `rhs`, or `None` where it is negative or
    /// too large for the width.
    pub fn checked_add(&self, rhs: i32) -> (sum: Option<U54>)
        ensures
            match sum {
                Some(n) => Width::W54.holds(self.value() + rhs) && n.value() == self.value()
                    + rhs,
                None => !Width::W54.holds(self.value() + rhs),
            },
    {
        proof {
            use_type_invariant(&*self);
        }
        let sum: i64 = self.value as i64 + rhs as i64;
        if 0 <= sum && sum <= 0x3F_FFFF_FFFF_FFFF {
            Some(U54 { value: sum as u64 })
        } else {
            None
        }
    }

    /// The integer less `rhs`, or `None` where that is negative or too large
    /// for the width.
    pub fn checked_sub(&self, rhs: i32) -> (difference: Option<U54>)
        ensures
            match difference {
                Some(n) => Width::W54.holds(self.value() - rhs) && n.value() == self.value()
                    - rhs,
                None => !Width::W54.holds(self.value() - rhs),
            },
    {
        proof {
            use_type_invariant(&*self);
        }
        let difference: i64 = self.value as i64 - rhs as i64;
        if 0 <= difference && difference <= 0x3F_FFFF_FFFF_FFFF {
            Some(U54 { value: difference as u64 })
        } else {
            None
        }
    }

    /// Adds `rhs`. The sum has to fit the width.
    pub fn add_assign(&mut self, rhs: i32)
        requires
            Width::W54.holds(old(self).value() + rhs),
        ensures
            final(self).value() == old(self).value() + rhs,
    {
        proof {
            use_type_invariant(&*self);
        }
        let sum: i64 = self.value as i64 + rhs as i64;
        self.value = sum as u64;
    }

    /// Takes `rhs` away. The difference has to fit the width.
    pub fn sub_assign(&mut self, rhs: i32)
        requires
            Width::W54.holds(old(self).value() - rhs),
        ensures
            final(self).value() == old(self).value() - rhs,
    {
        proof {
            use_type_invariant(&*self);
        }
        let difference: i64 = self.value as i64 - rhs as i64;
        self.value = difference as u64;
    }

    /// Adds `rhs`. The sum has to fit the width.
    pub fn add_assign_u64(&mut self, rhs: u64)
        requires
            Width::W54.holds(old(self).value() + rhs),
        ensures
            final(self).value() == old(self).value() + rhs,
    {
        self.value = self.value + rhs;
    }

    /// Takes `rhs` away. The difference must not be negative.
    pub fn sub_assign_u64(&mut self, rhs: u64)
        requires
            Width::W54.holds(old(self).value() - rhs),
        ensures
            final(self).value() == old(self).value() - rhs,
    {
        proof {
            use_type_invariant(&*self);
        }
        self.value = self.value - rhs;
    }

    /// The whole number that a double is, given by its bit pattern, as a
    /// bounded integer; or the error where the double is negative, has a
    /// fractional part, is infinite or no number, or is too large.
    pub fn from_double(bits: u64) -> (r: Result<U54, RangeError>)
        ensures
            match r {
                Ok(n) => whole_number_up_to(bits, Width::W54.max()) == Some(n.value() as u64),
                Err(e) => e.width == Width::W54 && whole_number_up_to(
                    bits,
                    Width::W54.max(),
                ) is None,
            },
    {
        match read_whole(bits, 0x3F_FFFF_FFFF_FFFF) {
            Some(n) => Ok(U54 { value: n as u64 }),
            None => Err(RangeError { width: Width::W54 }),
        }
    }

    /// The largest integer that is read from the wire.
    pub open spec fn wire_limit() -> int {
        EXACT_LIMIT as int
    }

    /// Reads the integer from a wire scalar, a double given by its bit
    /// pattern: `None` stands for a wire value that is no number at all.
    /// The double has to be a whole number from zero up to the limit.
    pub fn from_input(wire: Option<u64>) -> (r: Result<U54, RangeError>)
        ensures
            match r {
                Ok(n) => wire matches Some(bits) && whole_number_up_to(bits, U54::wire_limit())
                    == Some(n.value() as u64),
                Err(e) => e.width == Width::W54 && (wire matches Some(bits)
                    ==> whole_number_up_to(bits, U54::wire_limit()) is None),
            },
    {
        match wire {
            None => Err(RangeError { width: Width::W54 }),
            Some(bits) => match read_whole(bits, EXACT_LIMIT) {
                Some(n) => Ok(U54 { value: n as u64 }),
                None => Err(RangeError { width: Width::W54 }),
            },
        }
    }

    /// The integer as a wire scalar: the bit pattern of the double nearest
    /// to it, which up to two to the power 53 is the integer itself.
    pub fn to_output(&self) -> (wire: u64)
        ensures
            is_double_of(self.value() as int, wire),
    {
        proof {
            use_type_invariant(&*self);
        }
        write_whole(self.value as u64)
    }

    /// The integer zero: a pool that knows nothing of any letter.
    pub fn zero() -> (n: U54)
        ensures
            n.value() == 0,
    {
        U54 { value: 0 }
    }

    /// Holds `value` from now on, or keeps the integer and gives the error
    /// where `value` takes more than 54 bits.
    pub fn set(&mut self, value: u64) -> (r: Result<(), RangeError>)
        ensures
            match r {
                Ok(_) => Width::W54.holds(value as int) && final(self).value() == value,
                Err(e) => !Width::W54.holds(value as int) && e.width == Width::W54 && *final(self)
                    == *old(self),
            },
    {
        if value <= 0x3F_FFFF_FFFF_FFFF {
            self.value = value;
            Ok(())
        } else {
            Err(RangeError { width: Width::W54 })
        }
    }

    /// Sets every bit that is set in `rhs`, which has to fit the width.
    pub fn bitor_assign(&mut self, rhs: u64)
        requires
            Width::W54.holds(rhs as int),
        ensures
            final(self).value() == old(self).value() | rhs,
    {
        proof {
            use_type_invariant(&*self);
        }
        let a: u64 = self.value;
        assert(a | rhs <= 0x3F_FFFF_FFFF_FFFF) by (bit_vector)
            requires
                a <= 0x3F_FFFF_FFFF_FFFF,
                rhs <= 0x3F_FFFF_FFFF_FFFF,
        ;
        self.value = a | rhs;
    }

    /// The integer with every bit set that is set in `rhs`, which has to
    /// fit the width.
    pub fn bitor(self, rhs: u64) -> (n: U54)
        requires
            Width::W54.holds(rhs as int),
        ensures
            n.value() == self.value() | rhs,
    {
        let mut n = self;
        n.bitor_assign(rhs);
        n
    }
}

} // verus!
