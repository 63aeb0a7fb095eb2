//! The address-and-length-format identifier: one byte whose low nibble is the
//! width of an address field and whose high nibble is the width of a size field.
use vstd::prelude::*;

use crate::error::Iso14229Error;

verus! {

/// The address width that an identifier byte declares.
pub open spec fn alfi_addr_width(b: u8) -> nat {
    (b % 16) as nat
}

/// The size width that an identifier byte declares.
pub open spec fn alfi_size_width(b: u8) -> nat {
    (b / 16) as nat
}

/// An identifier byte declares two widths that are not zero.
pub open spec fn alfi_valid(b: u8) -> bool {
    alfi_addr_width(b) != 0 && alfi_size_width(b) != 0
}

/// The identifier byte of an address width and a size width.
pub open spec fn alfi_byte(addr_width: nat, size_width: nat) -> u8 {
    (size_width * 16 + addr_width) as u8
}

/// The bytes of a memory location that uses identifier byte `b`.
pub open spec fn alfi_length(b: u8) -> nat {
    1 + alfi_addr_width(b) + alfi_size_width(b)
}

#[derive(Debug, Clone, Copy, PartialEq, Eq)]
pub struct AddressAndLengthFormatIdentifier(u8);

impl View for AddressAndLengthFormatIdentifier {
    type V = u8;

    closed spec fn view(&self) -> u8 {
        self.0
    }
}

impl AddressAndLengthFormatIdentifier {
    #[verifier::type_invariant]
    spec fn inv(self) -> bool {
        alfi_valid(self.0)
    }

    /// Fails with `InvalidParam` unless both widths lie in `1..=15`.
    pub fn new(addr_len: u8, size_len: u8) -> (r: Result<Self, Iso14229Error>)
        ensures
            (1 <= addr_len <= 15 && 1 <= size_len <= 15) <==> r is Ok,
            r matches Ok(a) ==> a@ == alfi_byte(addr_len as nat, size_len as nat),
            r matches Err(e) ==> e is InvalidParam,
    {
        if addr_len == 0 || size_len == 0 || addr_len > 15 || size_len > 15 {
            return Err(Iso14229Error::InvalidParam("invalid address or size width".to_string()));
        }
        let b = (size_len << 4u8) | addr_len;
        assert(b == size_len * 16 + addr_len && b % 16 == addr_len && b / 16 == size_len) by (bit_vector)
            requires
                b == (size_len << 4u8) | addr_len,
                1 <= addr_len <= 15,
                1 <= size_len <= 15,
        ;
        Ok(AddressAndLengthFormatIdentifier(b))
    }

    /// Reads an identifier byte; fails with `InvalidParam` where a width is zero.
    pub fn try_from_byte(value: u8) -> (r: Result<Self, Iso14229Error>)
        ensures
            alfi_valid(value) <==> r is Ok,
            r matches Ok(a) ==> a@ == value,
            r matches Err(e) ==> e is InvalidParam,
    {
        let addr = value & 0x0F;
        let size = (value & 0xF0) >> 4u8;
        assert(addr == value % 16 && size == value / 16) by (bit_vector)
            requires
                addr == value & 0x0F,
                size == (value & 0xF0) >> 4u8,
        ;
        if addr == 0 || size == 0 {
            return Err(Iso14229Error::InvalidParam("invalid address and length format identifier".to_string()));
        }
        Ok(AddressAndLengthFormatIdentifier(value))
    }

    /// The identifier byte.
    pub fn to_byte(&self) -> (r: u8)
        ensures
            r == self@,
            alfi_valid(r),
    {
        proof {
            use_type_invariant(self);
        }
        self.0
    }

    /// The width of the address field in bytes.
    pub fn length_of_memory_address(&self) -> (r: usize)
        ensures
            r == alfi_addr_width(self@),
            1 <= r <= 15,
            alfi_valid(self@),
    {
        proof {
            use_type_invariant(self);
        }
        let b = self.0;
        let v = b & 0x0F;
        assert(v == b % 16) by (bit_vector)
            requires
                v == b & 0x0F,
        ;
        v as usize
    }

    /// The width of the size field in bytes.
    pub fn length_of_memory_size(&self) -> (r: usize)
        ensures
            r == alfi_size_width(self@),
            1 <= r <= 15,
            alfi_valid(self@),
    {
        proof {
            use_type_invariant(self);
        }
        let b = self.0;
        let v = (b & 0xF0) >> 4u8;
        assert(v == b / 16) by (bit_vector)
            requires
                v == (b & 0xF0) >> 4u8,
        ;
        v as usize
    }

    /// The identifier byte, the address field and the size field together.
    pub fn length(&self) -> (r: usize)
        ensures
            r == alfi_length(self@),
    {
        self.length_of_memory_address() + self.length_of_memory_size() + 1
    }
}

/// Packing two widths in `1..=15` into an identifier byte and reading it
/// back gives the same widths, and the location it describes takes one byte
/// more than the two fields.
pub proof fn lemma_alfi_round_trip(addr_width: nat, size_width: nat)
    requires
        1 <= addr_width <= 15,
        1 <= size_width <= 15,
    ensures
        alfi_valid(alfi_byte(addr_width, size_width)),
        alfi_addr_width(alfi_byte(addr_width, size_width)) == addr_width,
        alfi_size_width(alfi_byte(addr_width, size_width)) == size_width,
        alfi_length(alfi_byte(addr_width, size_width)) == 1 + addr_width + size_width,
{
}

} // verus!
