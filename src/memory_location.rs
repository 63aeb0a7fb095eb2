//! The memory location shared by the services that read and write memory by
//! address: an identifier byte, then an address and a size at its widths.
use vstd::prelude::*;

use crate::alfi::{alfi_addr_width, alfi_length, alfi_size_width, alfi_valid, AddressAndLengthFormatIdentifier};
use crate::error::{reports, Failure, Iso14229Error};
use crate::service::Configuration;
use crate::utils::{
    be_bytes, be_value, lemma_be_bytes_len, lemma_be_round_trip, lemma_be_value_bound,
    lemma_pow256_16, lemma_pow256_monotonic, pow256, slice_to_u128, u128_to_vec,
};

verus! {

/// The address that payload `d` holds, at the width its first byte declares.
pub open spec fn location_addr(d: Seq<u8>) -> u128 {
    be_value(d.subrange(1, 1 + alfi_addr_width(d[0]) as int)) as u128
}

/// The size that payload `d` holds, after the address.
pub open spec fn location_size(d: Seq<u8>) -> u128 {
    be_value(d.subrange(1 + alfi_addr_width(d[0]) as int, alfi_length(d[0]) as int)) as u128
}

/// Why `from_slice` refuses payload `d`, if it does.
pub open spec fn location_failure(d: Seq<u8>) -> Option<Failure> {
    if d.len() < 3 {
        Some(Failure::Length { expect: 3, actual: d.len() })
    } else if !alfi_valid(d[0]) {
        Some(Failure::Param)
    } else if d.len() < alfi_length(d[0]) {
        Some(Failure::Length { expect: alfi_length(d[0]), actual: d.len() })
    } else if location_addr(d) == 0 || location_size(d) == 0 {
        Some(Failure::Param)
    } else {
        None
    }
}

/// The bytes of a location with identifier byte `b`, address `addr` and size `size`.
pub open spec fn location_bytes(b: u8, addr: u128, size: u128) -> Seq<u8> {
    seq![b] + be_bytes(addr as nat, alfi_addr_width(b)) + be_bytes(size as nat, alfi_size_width(b))
}

#[derive(Debug, Clone, Copy, PartialEq, Eq)]
pub struct MemoryLocation {
    alfi: AddressAndLengthFormatIdentifier,
    mem_addr: u128,
    mem_size: u128,
}

impl View for MemoryLocation {
    /// The identifier byte, the address and the size.
    type V = (u8, u128, u128);

    closed spec fn view(&self) -> (u8, u128, u128) {
        (self.alfi@, self.mem_addr, self.mem_size)
    }
}

impl MemoryLocation {
    #[verifier::type_invariant]
    spec fn inv(self) -> bool {
        self.mem_addr != 0 && self.mem_size != 0
    }

    /// The bytes of the location on the wire.
    pub fn len(&self) -> (r: usize)
        ensures
            r == alfi_length(self@.0),
    {
        self.alfi.length_of_memory_size() + self.alfi.length_of_memory_address() + 1
    }

    /// Fails with `InvalidParam` where the address or the size is zero.
    pub fn new(alfi: AddressAndLengthFormatIdentifier, mem_addr: u128, mem_size: u128) -> (r: Result<Self, Iso14229Error>)
        ensures
            (mem_addr != 0 && mem_size != 0) <==> r is Ok,
            r matches Ok(m) ==> m@ == (alfi@, mem_addr, mem_size),
            r matches Err(e) ==> e is InvalidParam,
    {
        if mem_addr == 0 || mem_size == 0 {
            return Err(Iso14229Error::InvalidParam("invalid memory address or size".to_string()));
        }
        Ok(MemoryLocation { alfi, mem_addr, mem_size })
    }

    pub fn alfi(&self) -> (r: AddressAndLengthFormatIdentifier)
        ensures
            r@ == self@.0,
    {
        self.alfi
    }

    pub fn memory_address(&self) -> (r: u128)
        ensures
            r == self@.1,
            r != 0,
    {
        proof {
            use_type_invariant(self);
        }
        self.mem_addr
    }

    pub fn memory_size(&self) -> (r: u128)
        ensures
            r == self@.2,
            r != 0,
    {
        proof {
            use_type_invariant(self);
        }
        self.mem_size
    }

    /// Reads a location: the identifier byte, then the address and the size
    /// at the widths it declares.
    pub fn from_slice(data: &[u8], _cfg: &Configuration) -> (r: Result<Self, Iso14229Error>)
        ensures
            r is Ok <==> location_failure(data@) is None,
            r matches Ok(m) ==> m@ == (data@[0], location_addr(data@), location_size(data@)),
            r matches Err(e) ==> location_failure(data@) matches Some(f) && reports(e, f),
    {
        let n = data.len();
        if n < 3 {
            return Err(Iso14229Error::InvalidDataLength { expect: 3, actual: n });
        }
        let alfi = match AddressAndLengthFormatIdentifier::try_from_byte(data[0]) {
            Ok(a) => a,
            Err(e) => return Err(e),
        };
        let aw = alfi.length_of_memory_address();
        let sw = alfi.length_of_memory_size();
        if n < 1 + aw + sw {
            return Err(Iso14229Error::InvalidDataLength { expect: 1 + aw + sw, actual: n });
        }
        proof {
            lemma_pow256_16();
            lemma_pow256_monotonic(15, 16);
            lemma_be_value_bound(data@.subrange(1, 1 + aw));
            lemma_be_value_bound(data@.subrange(1 + aw, 1 + aw + sw));
            lemma_pow256_monotonic(aw as nat, 16);
            lemma_pow256_monotonic(sw as nat, 16);
        }
        let mem_addr = slice_to_u128(&data[1..1 + aw]);
        let mem_size = slice_to_u128(&data[1 + aw..1 + aw + sw]);
        Self::new(alfi, mem_addr, mem_size)
    }

    /// Writes the identifier byte, then the address and the size at the
    /// widths it declares; the widths are not chosen anew from the values.
    pub fn to_vec(self, _cfg: &Configuration) -> (r: Vec<u8>)
        ensures
            r@ == location_bytes(self@.0, self@.1, self@.2),
    {
        let aw = self.alfi.length_of_memory_address();
        let sw = self.alfi.length_of_memory_size();
        let mut addr = u128_to_vec(self.mem_addr, aw);
        let mut size = u128_to_vec(self.mem_size, sw);
        let mut result: Vec<u8> = Vec::new();
        result.push(self.alfi.to_byte());
        result.append(&mut addr);
        result.append(&mut size);
        assert(result@ =~= location_bytes(self@.0, self@.1, self@.2));
        result
    }
}

/// A location whose address and size fit in the widths that its identifier
/// declares reads back from its own bytes unchanged.
pub proof fn lemma_location_round_trip(b: u8, addr: u128, size: u128)
    requires
        alfi_valid(b),
        addr != 0,
        size != 0,
        addr < pow256(alfi_addr_width(b)),
        size < pow256(alfi_size_width(b)),
    ensures
        location_failure(location_bytes(b, addr, size)) is None,
        location_addr(location_bytes(b, addr, size)) == addr,
        location_size(location_bytes(b, addr, size)) == size,
{
    let d = location_bytes(b, addr, size);
    let aw = alfi_addr_width(b);
    let sw = alfi_size_width(b);
    lemma_be_bytes_len(addr as nat, aw);
    lemma_be_bytes_len(size as nat, sw);
    assert(d.subrange(1, 1 + aw as int) =~= be_bytes(addr as nat, aw));
    assert(d.subrange(1 + aw as int, alfi_length(b) as int) =~= be_bytes(size as nat, sw));
    lemma_be_round_trip(addr as nat, aw);
    lemma_be_round_trip(size as nat, sw);
}

} // verus!
