//! Service 0x2C, DynamicallyDefineDataIdentifier: define a data identifier
//! from other identifiers or from memory ranges, or clear definitions.
use vstd::prelude::*;
use vstd::slice::slice_to_vec;

use crate::alfi::{alfi_addr_width, alfi_byte, alfi_size_width, alfi_valid};
use crate::error::{reports, Failure, Iso14229Error};
use crate::service::{Configuration, Request, RequestData, Service, SubFunction};
use crate::utils::{
    be_bytes, be_value, byte_width, data_length_check, lemma_be_bytes_len, lemma_be_round_trip,
    lemma_be_value_bound, lemma_byte_width_bound, lemma_byte_width_covers, lemma_pow256_monotonic,
    length_of_u_type, peel_suppress_positive, pow256, slice_to_u128, u128_to_vec,
};

verus! {

/// The big-endian value of two bytes.
pub open spec fn be16(hi: u8, lo: u8) -> u16 {
    (hi as nat * 256 + lo as nat) as u16
}

/// The two bytes of a 16-bit value, most significant first.
pub open spec fn u16_bytes(v: u16) -> Seq<u8> {
    seq![(v / 256) as u8, (v % 256) as u8]
}

/// A dynamically defined data identifier.
#[derive(Debug, Clone, Copy, PartialEq, Eq, Structural)]
pub struct DynamicallyDID(pub u16);

impl DynamicallyDID {
    /// The identifier of two bytes, most significant first.
    pub fn from_be_bytes(hi: u8, lo: u8) -> (r: Self)
        ensures
            r.0 == be16(hi, lo),
    {
        DynamicallyDID(hi as u16 * 256 + lo as u16)
    }

    /// The two bytes of the identifier, most significant first.
    pub fn to_vec(&self) -> (r: Vec<u8>)
        ensures
            r@ == u16_bytes(self.0),
    {
        let mut r: Vec<u8> = Vec::new();
        r.push((self.0 / 256) as u8);
        r.push((self.0 % 256) as u8);
        assert(r@ =~= u16_bytes(self.0));
        r
    }
}

/// A source of a dynamically defined identifier: a range of `mem_size` bytes
/// from `position` (counted from one) in the record of identifier `did`.
#[derive(Debug, Clone, Copy, PartialEq, Eq, Structural)]
pub struct DynamicallyMemAddr {
    pub did: u16,
    pub position: u8,
    pub mem_size: u8,
}

/// The four bytes of a source descriptor.
pub open spec fn mem_addr_bytes(m: DynamicallyMemAddr) -> Seq<u8> {
    u16_bytes(m.did) + seq![m.position, m.mem_size]
}

/// The source descriptor that the first four bytes of `s` hold.
pub open spec fn mem_addr_of(s: Seq<u8>) -> DynamicallyMemAddr {
    DynamicallyMemAddr { did: be16(s[0], s[1]), position: s[2], mem_size: s[3] }
}

impl DynamicallyMemAddr {
    /// Reads a descriptor from the first four bytes of `data`.
    pub fn try_from_slice(data: &[u8]) -> (r: Result<Self, Iso14229Error>)
        ensures
            data@.len() >= 4 <==> r is Ok,
            r matches Ok(m) ==> m == mem_addr_of(data@),
            r matches Err(e) ==> e == (Iso14229Error::InvalidDataLength {
                expect: 4,
                actual: data@.len() as usize,
            }),
    {
        data_length_check(data.len(), 4, false)?;
        Ok(DynamicallyMemAddr {
            did: DynamicallyDID::from_be_bytes(data[0], data[1]).0,
            position: data[2],
            mem_size: data[3],
        })
    }

    /// The four bytes of the descriptor.
    pub fn to_vec(&self) -> (r: Vec<u8>)
        ensures
            r@ == mem_addr_bytes(*self),
    {
        let mut r = DynamicallyDID(self.did).to_vec();
        r.push(self.position);
        r.push(self.mem_size);
        assert(r@ =~= mem_addr_bytes(*self));
        r
    }
}

/// The sub-function of service 0x2C: which of the three layouts follows.
#[derive(Debug, Clone, Copy, PartialEq, Eq, Structural)]
pub enum DefinitionType {
    DefineByIdentifier,
    DefineByMemoryAddress,
    ClearDynamicallyDefinedDataIdentifier,
}

/// The function code of each definition type.
pub open spec fn definition_code(t: DefinitionType) -> u8 {
    match t {
        DefinitionType::DefineByIdentifier => 0x01,
        DefinitionType::DefineByMemoryAddress => 0x02,
        DefinitionType::ClearDynamicallyDefinedDataIdentifier => 0x03,
    }
}

impl DefinitionType {
    /// Fails with `InvalidParam` on a code outside `1..=3`.
    pub fn try_from_code(code: u8) -> (r: Result<Self, Iso14229Error>)
        ensures
            (1 <= code <= 3) <==> r is Ok,
            r matches Ok(t) ==> definition_code(t) == code,
            r matches Err(e) ==> e is InvalidParam,
    {
        match code {
            0x01 => Ok(DefinitionType::DefineByIdentifier),
            0x02 => Ok(DefinitionType::DefineByMemoryAddress),
            0x03 => Ok(DefinitionType::ClearDynamicallyDefinedDataIdentifier),
            _ => Err(Iso14229Error::InvalidParam("invalid definition type".to_string())),
        }
    }

    pub fn code(&self) -> (r: u8)
        ensures
            r == definition_code(*self),
    {
        match self {
            DefinitionType::DefineByIdentifier => 0x01,
            DefinitionType::DefineByMemoryAddress => 0x02,
            DefinitionType::ClearDynamicallyDefinedDataIdentifier => 0x03,
        }
    }
}

/// A request of service 0x2C.
#[derive(Debug, PartialEq, Eq)]
pub enum DynamicallyDefineDID {
    DefineByIdentifier { did: DynamicallyDID, source: DynamicallyMemAddr, others: Vec<DynamicallyMemAddr> },
    DefineByMemoryAddress { did: DynamicallyDID, memory: (u128, u128), others: Vec<(u128, u128)> },
    ClearDynamicallyDefinedDataIdentifier(Option<DynamicallyDID>),
}

impl Clone for DynamicallyDefineDID {
    fn clone(&self) -> (r: Self)
        ensures
            ddid_code(r) == ddid_code(*self),
    {
        match self {
            DynamicallyDefineDID::DefineByIdentifier { did, source, others } =>
                DynamicallyDefineDID::DefineByIdentifier { did: *did, source: *source, others: others.clone() },
            DynamicallyDefineDID::DefineByMemoryAddress { did, memory, others } =>
                DynamicallyDefineDID::DefineByMemoryAddress { did: *did, memory: *memory, others: others.clone() },
            DynamicallyDefineDID::ClearDynamicallyDefinedDataIdentifier(did) =>
                DynamicallyDefineDID::ClearDynamicallyDefinedDataIdentifier(*did),
        }
    }
}

/// A remainder of `r` bytes splits into whole entries of `e` bytes.
pub open spec fn chunks_ok(r: nat, e: nat) -> bool
    decreases r,
{
    if r == 0 {
        true
    } else if e == 0 || r < e {
        false
    } else {
        chunks_ok((r - e) as nat, e)
    }
}

/// Where, in a remainder of `r` bytes read in entries of `e` bytes, the
/// first entry starts that is not whole (or the end, when all are).
pub open spec fn partial_start(r: nat, e: nat) -> nat
    decreases r,
{
    if e == 0 || r < e {
        0
    } else {
        e + partial_start((r - e) as nat, e)
    }
}

/// The source descriptors that `s` holds, four bytes each.
pub open spec fn id_entries(s: Seq<u8>) -> Seq<DynamicallyMemAddr>
    decreases s.len(),
{
    if s.len() < 4 {
        Seq::empty()
    } else {
        seq![mem_addr_of(s)] + id_entries(s.skip(4))
    }
}

/// The bytes of a list of source descriptors.
pub open spec fn id_bytes(ms: Seq<DynamicallyMemAddr>) -> Seq<u8>
    decreases ms.len(),
{
    if ms.len() == 0 {
        Seq::empty()
    } else {
        mem_addr_bytes(ms[0]) + id_bytes(ms.skip(1))
    }
}

/// The (address, size) pairs that `s` holds, each address `aw` bytes wide
/// and each size `sw` bytes wide.
pub open spec fn mem_entries(s: Seq<u8>, aw: nat, sw: nat) -> Seq<(u128, u128)>
    decreases s.len(),
{
    if aw + sw == 0 || s.len() < aw + sw {
        Seq::empty()
    } else {
        seq![(
            be_value(s.subrange(0, aw as int)) as u128,
            be_value(s.subrange(aw as int, (aw + sw) as int)) as u128,
        )] + mem_entries(s.skip((aw + sw) as int), aw, sw)
    }
}

/// One (address, size) pair written at widths `aw` and `sw`.
pub open spec fn pair_bytes(p: (u128, u128), aw: nat, sw: nat) -> Seq<u8> {
    be_bytes(p.0 as nat, aw) + be_bytes(p.1 as nat, sw)
}

/// A list of (address, size) pairs written at widths `aw` and `sw`.
pub open spec fn pairs_bytes(ps: Seq<(u128, u128)>, aw: nat, sw: nat) -> Seq<u8>
    decreases ps.len(),
{
    if ps.len() == 0 {
        Seq::empty()
    } else {
        pair_bytes(ps[0], aw, sw) + pairs_bytes(ps.skip(1), aw, sw)
    }
}

/// The largest address among `ps` (zero for none).
pub open spec fn max_addr(ps: Seq<(u128, u128)>) -> nat
    decreases ps.len(),
{
    if ps.len() == 0 {
        0
    } else {
        let m = max_addr(ps.drop_last());
        if ps.last().0 as nat > m { ps.last().0 as nat } else { m }
    }
}

/// The largest size among `ps` (zero for none).
pub open spec fn max_size(ps: Seq<(u128, u128)>) -> nat
    decreases ps.len(),
{
    if ps.len() == 0 {
        0
    } else {
        let m = max_size(ps.drop_last());
        if ps.last().1 as nat > m { ps.last().1 as nat } else { m }
    }
}

/// Every address and every size of `ps` fits in fifteen bytes, the most
/// that an identifier nibble can declare.
pub open spec fn pairs_encodable(ps: Seq<(u128, u128)>) -> bool {
    forall|i: int|
        0 <= i < ps.len() ==> (#[trigger] ps[i]).0 < pow256(15) && ps[i].1 < pow256(15)
}

/// All (address, size) pairs of a memory definition, the first one first.
pub open spec fn memory_entries(memory: (u128, u128), others: Seq<(u128, u128)>) -> Seq<(u128, u128)> {
    seq![memory] + others
}

/// The payload that `to_vec` writes for `v`.
pub open spec fn ddid_bytes(v: DynamicallyDefineDID) -> Seq<u8> {
    match v {
        DynamicallyDefineDID::DefineByIdentifier { did, source, others } =>
            u16_bytes(did.0) + mem_addr_bytes(source) + id_bytes(others@),
        DynamicallyDefineDID::DefineByMemoryAddress { did, memory, others } => {
            let ps = memory_entries(memory, others@);
            let aw = byte_width(max_addr(ps));
            let sw = byte_width(max_size(ps));
            u16_bytes(did.0) + seq![alfi_byte(aw, sw)] + pairs_bytes(ps, aw, sw)
        },
        DynamicallyDefineDID::ClearDynamicallyDefinedDataIdentifier(did) => match did {
            Some(d) => u16_bytes(d.0),
            None => Seq::empty(),
        },
    }
}

/// The definition type that each value is written under.
pub open spec fn ddid_code(v: DynamicallyDefineDID) -> u8 {
    match v {
        DynamicallyDefineDID::DefineByIdentifier { .. } => 0x01,
        DynamicallyDefineDID::DefineByMemoryAddress { .. } => 0x02,
        DynamicallyDefineDID::ClearDynamicallyDefinedDataIdentifier(_) => 0x03,
    }
}

/// Why a payload `d` under function code `code` is refused, if it is.
pub open spec fn ddid_failure(code: u8, d: Seq<u8>) -> Option<Failure> {
    let n = d.len();
    if code == 0x01 {
        if n < 6 {
            Some(Failure::Length { expect: 6, actual: n })
        } else if !chunks_ok((n - 6) as nat, 4) {
            Some(Failure::Length { expect: 6 + partial_start((n - 6) as nat, 4) + 4, actual: n })
        } else {
            None
        }
    } else if code == 0x02 {
        if n < 4 {
            Some(Failure::Length { expect: 4, actual: n })
        } else if !alfi_valid(d[2]) {
            Some(Failure::Param)
        } else {
            let e = alfi_addr_width(d[2]) + alfi_size_width(d[2]);
            if n < 3 + e {
                Some(Failure::Length { expect: 3 + e, actual: n })
            } else if !chunks_ok((n - 3) as nat, e) {
                Some(Failure::Length { expect: 3 + partial_start((n - 3) as nat, e) + e, actual: n })
            } else {
                None
            }
        }
    } else if code == 0x03 {
        if n == 0 || n == 2 {
            None
        } else {
            Some(Failure::Length { expect: 2, actual: n })
        }
    } else {
        Some(Failure::Param)
    }
}

/// `v` is the value that payload `d` under function code `code` holds.
pub open spec fn ddid_decodes_to(code: u8, d: Seq<u8>, v: DynamicallyDefineDID) -> bool {
    match v {
        DynamicallyDefineDID::DefineByIdentifier { did, source, others } => {
            &&& code == 0x01
            &&& did.0 == be16(d[0], d[1])
            &&& source == mem_addr_of(d.subrange(2, 6))
            &&& others@ == id_entries(d.skip(6))
        },
        DynamicallyDefineDID::DefineByMemoryAddress { did, memory, others } => {
            &&& code == 0x02
            &&& did.0 == be16(d[0], d[1])
            &&& memory_entries(memory, others@) == mem_entries(
                d.skip(3),
                alfi_addr_width(d[2]),
                alfi_size_width(d[2]),
            )
        },
        DynamicallyDefineDID::ClearDynamicallyDefinedDataIdentifier(did) => {
            &&& code == 0x03
            &&& d.len() == 0 ==> did is None
            &&& d.len() != 0 ==> did == Some(DynamicallyDID(be16(d[0], d[1])))
        },
    }
}

/// Why `request` refuses a payload of `n` bytes under sub-function byte `b`, if it does.
pub open spec fn ddid_request_failure(b: u8, n: nat) -> Option<Failure> {
    let code = b % 0x80;
    if code == 0x01 {
        if n < 6 { Some(Failure::Length { expect: 6, actual: n }) } else { None }
    } else if code == 0x02 {
        if n < 4 { Some(Failure::Length { expect: 4, actual: n }) } else { None }
    } else if code == 0x03 {
        if n == 0 || n == 2 { None } else { Some(Failure::Length { expect: 2, actual: n }) }
    } else {
        Some(Failure::Param)
    }
}

proof fn lemma_skip_skip<T>(s: Seq<T>, a: int, b: int)
    requires
        0 <= a,
        0 <= b,
        a + b <= s.len(),
    ensures
        s.skip(a).skip(b) == s.skip(a + b),
{
    assert(s.skip(a).skip(b) =~= s.skip(a + b));
}

proof fn lemma_chunk_step(r: nat, e: nat)
    requires
        e > 0,
        r >= e,
    ensures
        chunks_ok(r, e) == chunks_ok((r - e) as nat, e),
        partial_start(r, e) == e + partial_start((r - e) as nat, e),
{
}

/// Appending a pair appends its bytes.
proof fn lemma_pairs_bytes_push(ps: Seq<(u128, u128)>, p: (u128, u128), aw: nat, sw: nat)
    ensures
        pairs_bytes(ps.push(p), aw, sw) == pairs_bytes(ps, aw, sw) + pair_bytes(p, aw, sw),
    decreases ps.len(),
{
    if ps.len() == 0 {
        let q = ps.push(p);
        assert(q[0] == p);
        assert(q.skip(1) =~= Seq::<(u128, u128)>::empty());
        assert(pairs_bytes(q.skip(1), aw, sw) == Seq::<u8>::empty());
        assert(pairs_bytes(q, aw, sw) =~= pair_bytes(p, aw, sw));
        assert(pairs_bytes(ps, aw, sw) == Seq::<u8>::empty());
        assert(pairs_bytes(q, aw, sw) =~= pairs_bytes(ps, aw, sw) + pair_bytes(p, aw, sw));
    } else {
        assert(ps.push(p).skip(1) =~= ps.skip(1).push(p));
        lemma_pairs_bytes_push(ps.skip(1), p, aw, sw);
        assert(pairs_bytes(ps.push(p), aw, sw) =~= pairs_bytes(ps, aw, sw) + pair_bytes(p, aw, sw));
    }
}

/// Appending a descriptor appends its bytes.
proof fn lemma_id_bytes_push(ms: Seq<DynamicallyMemAddr>, m: DynamicallyMemAddr)
    ensures
        id_bytes(ms.push(m)) == id_bytes(ms) + mem_addr_bytes(m),
    decreases ms.len(),
{
    if ms.len() == 0 {
        let q = ms.push(m);
        assert(q[0] == m);
        assert(q.skip(1) =~= Seq::<DynamicallyMemAddr>::empty());
        assert(id_bytes(q.skip(1)) == Seq::<u8>::empty());
        assert(id_bytes(q) =~= mem_addr_bytes(m));
        assert(id_bytes(ms) == Seq::<u8>::empty());
        assert(id_bytes(q) =~= id_bytes(ms) + mem_addr_bytes(m));
    } else {
        assert(ms.push(m).skip(1) =~= ms.skip(1).push(m));
        lemma_id_bytes_push(ms.skip(1), m);
        assert(id_bytes(ms.push(m)) =~= id_bytes(ms) + mem_addr_bytes(m));
    }
}

/// Every entry is bounded by the maxima.
proof fn lemma_max_bounds(ps: Seq<(u128, u128)>, i: int)
    requires
        0 <= i < ps.len(),
    ensures
        ps[i].0 <= max_addr(ps),
        ps[i].1 <= max_size(ps),
    decreases ps.len(),
{
    if i < ps.len() - 1 {
        lemma_max_bounds(ps.drop_last(), i);
    }
}

/// The maxima stay below a bound that every entry stays below.
proof fn lemma_max_below(ps: Seq<(u128, u128)>)
    requires
        pairs_encodable(ps),
    ensures
        max_addr(ps) < pow256(15),
        max_size(ps) < pow256(15),
    decreases ps.len(),
{
    lemma_pow256_monotonic(0, 15);
    if ps.len() > 0 {
        assert(pairs_encodable(ps.drop_last()));
        lemma_max_below(ps.drop_last());
        assert(ps.last() == ps[ps.len() - 1]);
    }
}

impl DynamicallyDefineDID {
    /// The values that `to_vec` can write: a memory definition whose
    /// addresses and sizes each fit in fifteen bytes, or any other value.
    pub open spec fn encodable(&self) -> bool {
        match self {
            DynamicallyDefineDID::DefineByMemoryAddress { memory, others, .. } =>
                pairs_encodable(memory_entries(*memory, others@)),
            _ => true,
        }
    }
}

/// A field of at most fifteen bytes holds less than `256^15`.
proof fn lemma_field_fits(s: Seq<u8>)
    requires
        s.len() <= 15,
    ensures
        be_value(s) < pow256(15),
        be_value(s) < pow256(16),
{
    lemma_be_value_bound(s);
    lemma_pow256_monotonic(s.len(), 15);
    lemma_pow256_monotonic(15, 16);
}

impl DynamicallyDefineDID {
    fn parse_by_identifier(data: &[u8]) -> (r: Result<Self, Iso14229Error>)
        requires
            data@.len() <= isize::MAX,
        ensures
            r is Ok <==> ddid_failure(0x01, data@) is None,
            r matches Ok(v) ==> ddid_decodes_to(0x01, data@, v) && v.encodable(),
            r matches Err(e) ==> ddid_failure(0x01, data@) matches Some(f) && reports(e, f),
    {
        let n = data.len();
        if let Err(e) = data_length_check(n, 6, false) {
            return Err(e);
        }
        let did = DynamicallyDID::from_be_bytes(data[0], data[1]);
        let source = match DynamicallyMemAddr::try_from_slice(&data[2..6]) {
            Ok(m) => m,
            Err(e) => return Err(e),
        };
        let mut others: Vec<DynamicallyMemAddr> = Vec::new();
        let mut offset: usize = 6;
        while offset < n
            invariant
                6 <= offset <= n,
                n == data@.len(),
                n <= isize::MAX,
                chunks_ok((n - 6) as nat, 4) == chunks_ok((n - offset) as nat, 4),
                partial_start((n - 6) as nat, 4) + 6 == partial_start((n - offset) as nat, 4) + offset,
                others@ + id_entries(data@.skip(offset as int)) == id_entries(data@.skip(6)),
            decreases n - offset,
        {
            if let Err(e) = data_length_check(n, offset + 4, false) {
                return Err(e);
            }
            let m = match DynamicallyMemAddr::try_from_slice(&data[offset..n]) {
                Ok(m) => m,
                Err(e) => return Err(e),
            };
            let ghost rest = data@.skip(offset as int);
            let ghost before = others@;
            proof {
                assert(data@.subrange(offset as int, n as int) =~= rest);
                lemma_skip_skip(data@, offset as int, 4);
                lemma_chunk_step((n - offset) as nat, 4);
            }
            others.push(m);
            offset = offset + 4;
            proof {
                assert(others@ + id_entries(data@.skip(offset as int)) =~= before + id_entries(rest));
            }
        }
        proof {
            assert(data@.skip(offset as int).len() == 0);
            assert(others@ =~= others@ + id_entries(data@.skip(offset as int)));
        }
        Ok(DynamicallyDefineDID::DefineByIdentifier { did, source, others })
    }

    fn parse_by_memory_address(data: &[u8]) -> (r: Result<Self, Iso14229Error>)
        requires
            data@.len() <= isize::MAX,
        ensures
            r is Ok <==> ddid_failure(0x02, data@) is None,
            r matches Ok(v) ==> ddid_decodes_to(0x02, data@, v) && v.encodable(),
            r matches Err(e) ==> ddid_failure(0x02, data@) matches Some(f) && reports(e, f),
    {
        let n = data.len();
        if let Err(e) = data_length_check(n, 4, false) {
            return Err(e);
        }
        let did = DynamicallyDID::from_be_bytes(data[0], data[1]);
        let alfi = data[2];
        let aw8 = alfi & 0x0F;
        let sw8 = (alfi & 0xF0) >> 4u8;
        assert(aw8 == alfi % 16 && sw8 == alfi / 16 && aw8 <= 15 && sw8 <= 15) by (bit_vector)
            requires
                aw8 == alfi & 0x0F,
                sw8 == (alfi & 0xF0) >> 4u8,
        ;
        if aw8 == 0 || sw8 == 0 {
            return Err(Iso14229Error::InvalidParam("invalid address and length format identifier".to_string()));
        }
        let aw = aw8 as usize;
        let sw = sw8 as usize;
        let e = aw + sw;
        if let Err(err) = data_length_check(n, 3 + e, false) {
            return Err(err);
        }
        let addr = slice_to_u128(&data[3..3 + aw]);
        let size = slice_to_u128(&data[3 + aw..3 + e]);
        let ghost all = data@.skip(3);
        proof {
            assert(data@.subrange(3, 3 + aw) =~= all.subrange(0, aw as int));
            assert(data@.subrange(3 + aw, 3 + e) =~= all.subrange(aw as int, e as int));
            lemma_field_fits(all.subrange(0, aw as int));
            lemma_field_fits(all.subrange(aw as int, e as int));
            lemma_skip_skip(data@, 3, e as int);
            lemma_chunk_step((n - 3) as nat, e as nat);
            assert(memory_entries((addr, size), Seq::empty()) + mem_entries(data@.skip(3 + e), aw as nat, sw as nat)
                =~= mem_entries(all, aw as nat, sw as nat));
        }
        let mut others: Vec<(u128, u128)> = Vec::new();
        let mut offset: usize = 3 + e;
        while offset < n
            invariant
                3 + e <= offset <= n,
                n == data@.len(),
                n <= isize::MAX,
                e == aw + sw,
                1 <= aw <= 15,
                1 <= sw <= 15,
                aw == alfi_addr_width(data@[2]),
                sw == alfi_size_width(data@[2]),
                chunks_ok((n - 3) as nat, e as nat) == chunks_ok((n - offset) as nat, e as nat),
                partial_start((n - 3) as nat, e as nat) + 3 == partial_start((n - offset) as nat, e as nat) + offset,
                memory_entries((addr, size), others@) + mem_entries(data@.skip(offset as int), aw as nat, sw as nat)
                    == mem_entries(data@.skip(3), aw as nat, sw as nat),
                pairs_encodable(memory_entries((addr, size), others@)),
            decreases n - offset,
        {
            if let Err(err) = data_length_check(n, offset + e, false) {
                return Err(err);
            }
            let a = slice_to_u128(&data[offset..offset + aw]);
            let z = slice_to_u128(&data[offset + aw..offset + e]);
            let ghost rest = data@.skip(offset as int);
            let ghost before = others@;
            proof {
                assert(data@.subrange(offset as int, (offset + aw) as int) =~= rest.subrange(0, aw as int));
                assert(data@.subrange((offset + aw) as int, (offset + e) as int) =~= rest.subrange(aw as int, e as int));
                lemma_field_fits(rest.subrange(0, aw as int));
                lemma_field_fits(rest.subrange(aw as int, e as int));
                lemma_skip_skip(data@, offset as int, e as int);
                lemma_chunk_step((n - offset) as nat, e as nat);
            }
            others.push((a, z));
            offset = offset + e;
            proof {
                assert(memory_entries((addr, size), others@) =~= memory_entries((addr, size), before).push((a, z)));
                assert(memory_entries((addr, size), others@) + mem_entries(data@.skip(offset as int), aw as nat, sw as nat)
                    =~= memory_entries((addr, size), before) + mem_entries(rest, aw as nat, sw as nat));
            }
        }
        proof {
            assert(data@.skip(offset as int).len() == 0);
            assert(memory_entries((addr, size), others@) =~= memory_entries((addr, size), others@) + mem_entries(
                data@.skip(offset as int),
                aw as nat,
                sw as nat,
            ));
        }
        Ok(DynamicallyDefineDID::DefineByMemoryAddress { did, memory: (addr, size), others })
    }

    fn parse_clear(data: &[u8]) -> (r: Result<Self, Iso14229Error>)
        ensures
            r is Ok <==> ddid_failure(0x03, data@) is None,
            r matches Ok(v) ==> ddid_decodes_to(0x03, data@, v) && v.encodable(),
            r matches Err(e) ==> ddid_failure(0x03, data@) matches Some(f) && reports(e, f),
    {
        let n = data.len();
        if n == 0 {
            Ok(DynamicallyDefineDID::ClearDynamicallyDefinedDataIdentifier(None))
        } else if n == 2 {
            let did = DynamicallyDID::from_be_bytes(data[0], data[1]);
            Ok(DynamicallyDefineDID::ClearDynamicallyDefinedDataIdentifier(Some(did)))
        } else {
            Err(Iso14229Error::InvalidDataLength { expect: 2, actual: n })
        }
    }

    fn identifier_to_vec(did: DynamicallyDID, source: DynamicallyMemAddr, others: &Vec<DynamicallyMemAddr>) -> (r: Vec<u8>)
        ensures
            r@ == u16_bytes(did.0) + mem_addr_bytes(source) + id_bytes(others@),
    {
        let mut result = did.to_vec();
        let mut src = source.to_vec();
        result.append(&mut src);
        let mut i: usize = 0;
        proof {
            assert(others@.take(0) =~= Seq::<DynamicallyMemAddr>::empty());
            assert(result@ =~= u16_bytes(did.0) + mem_addr_bytes(source) + id_bytes(others@.take(0)));
        }
        while i < others.len()
            invariant
                i <= others@.len(),
                result@ == u16_bytes(did.0) + mem_addr_bytes(source) + id_bytes(others@.take(i as int)),
            decreases others@.len() - i,
        {
            let mut bytes = others[i].to_vec();
            proof {
                assert(others@.take(i + 1) =~= others@.take(i as int).push(others@[i as int]));
                lemma_id_bytes_push(others@.take(i as int), others@[i as int]);
            }
            let ghost before = result@;
            result.append(&mut bytes);
            i = i + 1;
            proof {
                assert(result@ =~= u16_bytes(did.0) + mem_addr_bytes(source) + id_bytes(others@.take(i as int)));
            }
        }
        assert(others@.take(i as int) =~= others@);
        result
    }

    fn memory_to_vec(did: DynamicallyDID, memory: (u128, u128), others: &Vec<(u128, u128)>) -> (r: Vec<u8>)
        requires
            pairs_encodable(memory_entries(memory, others@)),
        ensures
            r@ == ({
                let ps = memory_entries(memory, others@);
                let aw = byte_width(max_addr(ps));
                let sw = byte_width(max_size(ps));
                u16_bytes(did.0) + seq![alfi_byte(aw, sw)] + pairs_bytes(ps, aw, sw)
            }),
    {
        let ghost ps = memory_entries(memory, others@);
        let mut max_a: u128 = memory.0;
        let mut max_s: u128 = memory.1;
        let mut i: usize = 0;
        proof {
            let s0 = memory_entries(memory, others@.take(0));
            assert(s0.last() == memory);
            assert(s0.drop_last() =~= Seq::<(u128, u128)>::empty());
            assert(max_addr(Seq::<(u128, u128)>::empty()) == 0);
            assert(max_size(Seq::<(u128, u128)>::empty()) == 0);
        }
        while i < others.len()
            invariant
                i <= others@.len(),
                max_a == max_addr(memory_entries(memory, others@.take(i as int))),
                max_s == max_size(memory_entries(memory, others@.take(i as int))),
            decreases others@.len() - i,
        {
            let cur = others[i];
            proof {
                assert(memory_entries(memory, others@.take(i + 1)).drop_last()
                    =~= memory_entries(memory, others@.take(i as int)));
            }
            if cur.0 > max_a {
                max_a = cur.0;
            }
            if cur.1 > max_s {
                max_s = cur.1;
            }
            i = i + 1;
        }
        proof {
            assert(others@.take(i as int) =~= others@);
            lemma_max_below(ps);
            lemma_byte_width_bound(max_a as nat, 15);
            lemma_byte_width_bound(max_s as nat, 15);
        }
        let aw = length_of_u_type(max_a);
        let sw = length_of_u_type(max_s);
        let aw8 = aw as u8;
        let sw8 = sw as u8;
        let b = (sw8 << 4u8) | aw8;
        assert(b == sw8 * 16 + aw8) by (bit_vector)
            requires
                b == (sw8 << 4u8) | aw8,
                aw8 <= 15,
                sw8 <= 15,
        ;
        let mut result = did.to_vec();
        result.push(b);
        let mut first_addr = u128_to_vec(memory.0, aw);
        let mut first_size = u128_to_vec(memory.1, sw);
        result.append(&mut first_addr);
        result.append(&mut first_size);
        let ghost head = u16_bytes(did.0) + seq![alfi_byte(aw as nat, sw as nat)];
        proof {
            assert(others@.take(0) =~= Seq::<(u128, u128)>::empty());
            lemma_pairs_bytes_push(Seq::empty(), memory, aw as nat, sw as nat);
            assert(Seq::<(u128, u128)>::empty().push(memory) =~= memory_entries(memory, others@.take(0)));
            assert(pairs_bytes(Seq::<(u128, u128)>::empty(), aw as nat, sw as nat) == Seq::<u8>::empty());
            assert(result@ =~= head + pairs_bytes(memory_entries(memory, others@.take(0)), aw as nat, sw as nat));
        }
        let mut j: usize = 0;
        while j < others.len()
            invariant
                j <= others@.len(),
                aw <= 15,
                sw <= 15,
                result@ == head + pairs_bytes(memory_entries(memory, others@.take(j as int)), aw as nat, sw as nat),
            decreases others@.len() - j,
        {
            let cur = others[j];
            let mut a = u128_to_vec(cur.0, aw);
            let mut z = u128_to_vec(cur.1, sw);
            proof {
                assert(memory_entries(memory, others@.take(j + 1))
                    =~= memory_entries(memory, others@.take(j as int)).push(cur));
                lemma_pairs_bytes_push(memory_entries(memory, others@.take(j as int)), cur, aw as nat, sw as nat);
            }
            result.append(&mut a);
            result.append(&mut z);
            j = j + 1;
            proof {
                assert(result@ =~= head + pairs_bytes(memory_entries(memory, others@.take(j as int)), aw as nat, sw as nat));
            }
        }
        assert(others@.take(j as int) =~= others@);
        result
    }
}

impl RequestData for DynamicallyDefineDID {
    open spec fn valid(&self) -> bool {
        self.encodable()
    }

    /// Builds a request of service 0x2C. The sub-function is required and
    /// names the layout; the payload must be long enough for it.
    fn request(data: &[u8], sub_func: Option<u8>, _cfg: &Configuration) -> (r: Result<Request, Iso14229Error>)
        ensures
            sub_func is None ==> r == Err::<Request, Iso14229Error>(
                Iso14229Error::SubFunctionError(Service::DynamicalDefineDID),
            ),
            sub_func matches Some(b) ==> {
                &&& r is Ok <==> ddid_request_failure(b, data@.len()) is None
                &&& r matches Ok(req) ==> {
                    &&& req.service == Service::DynamicalDefineDID
                    &&& req.sub_func == Some((SubFunction { function: b % 0x80, suppress_positive: b >= 0x80 }))
                    &&& req.data@ == data@
                }
                &&& r matches Err(e) ==> ddid_request_failure(b, data@.len()) matches Some(f) && reports(e, f)
            },
    {
        match sub_func {
            None => Err(Iso14229Error::SubFunctionError(Service::DynamicalDefineDID)),
            Some(b) => {
                let (suppress, code) = peel_suppress_positive(b);
                let kind = match DefinitionType::try_from_code(code) {
                    Ok(t) => t,
                    Err(e) => return Err(e),
                };
                let n = data.len();
                match kind {
                    DefinitionType::DefineByIdentifier => {
                        if let Err(e) = data_length_check(n, 6, false) {
                            return Err(e);
                        }
                    },
                    DefinitionType::DefineByMemoryAddress => {
                        if let Err(e) = data_length_check(n, 4, false) {
                            return Err(e);
                        }
                    },
                    DefinitionType::ClearDynamicallyDefinedDataIdentifier => {
                        if n != 0 && n != 2 {
                            return Err(Iso14229Error::InvalidDataLength { expect: 2, actual: n });
                        }
                    },
                }
                Ok(Request {
                    service: Service::DynamicalDefineDID,
                    sub_func: Some(SubFunction::new(code, suppress)),
                    data: slice_to_vec(data),
                })
            },
        }
    }

    /// Decodes a request of service 0x2C in the layout that its
    /// sub-function names.
    fn try_parse(request: &Request, _cfg: &Configuration) -> (r: Result<Self, Iso14229Error>)
        ensures
            r matches Ok(v) ==> v.valid(),
            (request.service != Service::DynamicalDefineDID || request.sub_func is None) ==> r
                == Err::<Self, Iso14229Error>(Iso14229Error::ServiceError(request.service)),
            (request.service == Service::DynamicalDefineDID && request.sub_func is Some) ==> {
                let code = request.sub_func.unwrap().function;
                &&& r is Ok <==> ddid_failure(code, request.data@) is None
                &&& r matches Ok(v) ==> ddid_decodes_to(code, request.data@, v)
                &&& r matches Err(e) ==> ddid_failure(code, request.data@) matches Some(f) && reports(e, f)
            },
    {
        let service = request.service;
        let sub = match request.sub_func {
            Some(s) => s,
            None => return Err(Iso14229Error::ServiceError(service)),
        };
        if service != Service::DynamicalDefineDID {
            return Err(Iso14229Error::ServiceError(service));
        }
        let kind = match DefinitionType::try_from_code(sub.function) {
            Ok(t) => t,
            Err(e) => return Err(e),
        };
        match kind {
            DefinitionType::DefineByIdentifier => Self::parse_by_identifier(request.data.as_slice()),
            DefinitionType::DefineByMemoryAddress => Self::parse_by_memory_address(request.data.as_slice()),
            DefinitionType::ClearDynamicallyDefinedDataIdentifier => Self::parse_clear(request.data.as_slice()),
        }
    }

    /// Writes the payload. A memory definition declares the widths that its
    /// largest address and its largest size need, and writes every entry at
    /// those widths.
    fn to_vec(self, _cfg: &Configuration) -> (r: Vec<u8>)
        ensures
            r@ == ddid_bytes(self),
    {
        match self {
            DynamicallyDefineDID::DefineByIdentifier { did, source, others } =>
                Self::identifier_to_vec(did, source, &others),
            DynamicallyDefineDID::DefineByMemoryAddress { did, memory, others } =>
                Self::memory_to_vec(did, memory, &others),
            DynamicallyDefineDID::ClearDynamicallyDefinedDataIdentifier(did) => match did {
                Some(d) => d.to_vec(),
                None => Vec::new(),
            },
        }
    }
}

proof fn lemma_u16_round_trip(v: u16)
    ensures
        be16(u16_bytes(v)[0], u16_bytes(v)[1]) == v,
{
}

/// Descriptors written one after another read back as the same descriptors.
proof fn lemma_id_entries_of_bytes(ms: Seq<DynamicallyMemAddr>)
    ensures
        id_entries(id_bytes(ms)) == ms,
        chunks_ok(id_bytes(ms).len(), 4),
    decreases ms.len(),
{
    let x = id_bytes(ms);
    if ms.len() == 0 {
        assert(id_entries(x) =~= ms);
    } else {
        let rest = ms.skip(1);
        lemma_id_entries_of_bytes(rest);
        assert(x.skip(4) =~= id_bytes(rest));
        lemma_u16_round_trip(ms[0].did);
        assert(mem_addr_of(x) == ms[0]);
        assert(id_entries(x) =~= seq![ms[0]] + rest);
        assert(seq![ms[0]] + rest =~= ms);
        lemma_chunk_step(x.len(), 4);
    }
}

/// Pairs written at widths that hold them read back as the same pairs.
proof fn lemma_mem_entries_of_bytes(ps: Seq<(u128, u128)>, aw: nat, sw: nat)
    requires
        aw >= 1,
        sw >= 1,
        forall|i: int| 0 <= i < ps.len() ==> (#[trigger] ps[i]).0 < pow256(aw) && ps[i].1 < pow256(sw),
    ensures
        mem_entries(pairs_bytes(ps, aw, sw), aw, sw) == ps,
        chunks_ok(pairs_bytes(ps, aw, sw).len(), aw + sw),
        ps.len() > 0 ==> pairs_bytes(ps, aw, sw).len() >= aw + sw,
    decreases ps.len(),
{
    let x = pairs_bytes(ps, aw, sw);
    if ps.len() == 0 {
        assert(mem_entries(x, aw, sw) =~= ps);
    } else {
        let rest = ps.skip(1);
        assert forall|i: int| 0 <= i < rest.len() implies (#[trigger] rest[i]).0 < pow256(aw) && rest[i].1 < pow256(sw) by {
            assert(rest[i] == ps[i + 1]);
        }
        lemma_mem_entries_of_bytes(rest, aw, sw);
        lemma_be_bytes_len(ps[0].0 as nat, aw);
        lemma_be_bytes_len(ps[0].1 as nat, sw);
        let e = aw + sw;
        assert(x.skip(e as int) =~= pairs_bytes(rest, aw, sw));
        assert(x.subrange(0, aw as int) =~= be_bytes(ps[0].0 as nat, aw));
        assert(x.subrange(aw as int, e as int) =~= be_bytes(ps[0].1 as nat, sw));
        lemma_be_round_trip(ps[0].0 as nat, aw);
        lemma_be_round_trip(ps[0].1 as nat, sw);
        assert(mem_entries(x, aw, sw) =~= seq![ps[0]] + rest);
        assert(seq![ps[0]] + rest =~= ps);
        lemma_chunk_step(x.len(), e);
    }
}

/// Decoding what `to_vec` writes, under the definition type it is written
/// under, succeeds and gives back the value written.
#[verifier::rlimit(40)]
pub proof fn lemma_ddid_round_trip(v: DynamicallyDefineDID)
    requires
        v.encodable(),
    ensures
        ddid_failure(ddid_code(v), ddid_bytes(v)) is None,
        ddid_decodes_to(ddid_code(v), ddid_bytes(v), v),
{
    let d = ddid_bytes(v);
    match v {
        DynamicallyDefineDID::DefineByIdentifier { did, source, others } => {
            lemma_id_entries_of_bytes(others@);
            lemma_u16_round_trip(did.0);
            lemma_u16_round_trip(source.did);
            assert(d.skip(6) =~= id_bytes(others@));
            assert(d.subrange(2, 6) =~= mem_addr_bytes(source));
        },
        DynamicallyDefineDID::DefineByMemoryAddress { did, memory, others } => {
            let ps = memory_entries(memory, others@);
            let ma = max_addr(ps);
            let ms = max_size(ps);
            let aw = byte_width(ma);
            let sw = byte_width(ms);
            lemma_max_below(ps);
            lemma_byte_width_bound(ma, 15);
            lemma_byte_width_bound(ms, 15);
            lemma_byte_width_covers(0, ma);
            lemma_byte_width_covers(0, ms);
            assert forall|i: int| 0 <= i < ps.len() implies (#[trigger] ps[i]).0 < pow256(aw) && ps[i].1 < pow256(sw) by {
                lemma_max_bounds(ps, i);
                lemma_byte_width_covers(ps[i].0 as nat, ma);
                lemma_byte_width_covers(ps[i].1 as nat, ms);
            }
            lemma_mem_entries_of_bytes(ps, aw, sw);
            lemma_u16_round_trip(did.0);
            let b = alfi_byte(aw, sw);
            assert(b == sw * 16 + aw);
            assert(alfi_addr_width(b) == aw);
            assert(alfi_size_width(b) == sw);
            assert(d[2] == b);
            assert(d.skip(3) =~= pairs_bytes(ps, aw, sw));
        },
        DynamicallyDefineDID::ClearDynamicallyDefinedDataIdentifier(did) => {
            if let Some(x) = did {
                lemma_u16_round_trip(x.0);
            }
        },
    }
}

} // verus!
