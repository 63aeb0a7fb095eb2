//! Primitives shared by the codecs: length checks, big-endian integers of a
//! given width, and the suppress-positive-response bit of a sub-function byte.
use vstd::prelude::*;
use vstd::arithmetic::div_mod::{lemma_div_denominator, lemma_mod_breakdown, lemma_small_mod};

use crate::error::Iso14229Error;

verus! {

/// `256` raised to `n`: the number of values that `n` bytes can hold.
pub open spec fn pow256(n: nat) -> nat
    decreases n,
{
    if n == 0 {
        1
    } else {
        256 * pow256((n - 1) as nat)
    }
}

/// The unsigned integer that `s` holds, most significant byte first.
pub open spec fn be_value(s: Seq<u8>) -> nat
    decreases s.len(),
{
    if s.len() == 0 {
        0
    } else {
        be_value(s.drop_last()) * 256 + s.last() as nat
    }
}

/// The lowest `w` bytes of `v`, most significant byte first.
pub open spec fn be_bytes(v: nat, w: nat) -> Seq<u8>
    decreases w,
{
    if w == 0 {
        Seq::empty()
    } else {
        be_bytes(v / 256, (w - 1) as nat).push((v % 256) as u8)
    }
}

/// The fewest bytes that hold `v`; zero takes one byte.
pub open spec fn byte_width(v: nat) -> nat
    decreases v,
{
    if v < 256 {
        1
    } else {
        1 + byte_width(v / 256)
    }
}

/// The outcome of a length check of `actual` bytes against `expect`.
pub open spec fn length_ok(actual: nat, expect: nat, equal: bool) -> bool {
    if equal {
        actual == expect
    } else {
        actual >= expect
    }
}

pub proof fn lemma_pow256_positive(n: nat)
    ensures
        pow256(n) > 0,
    decreases n,
{
    if n > 0 {
        lemma_pow256_positive((n - 1) as nat);
    }
}

pub proof fn lemma_pow256_monotonic(a: nat, b: nat)
    requires
        a <= b,
    ensures
        pow256(a) <= pow256(b),
    decreases b,
{
    if a < b {
        lemma_pow256_monotonic(a, (b - 1) as nat);
        lemma_pow256_positive((b - 1) as nat);
    }
}

/// Sixteen bytes hold every `u128`.
pub proof fn lemma_pow256_16()
    ensures
        pow256(16) == 0x1_0000_0000_0000_0000_0000_0000_0000_0000,
{
    reveal_with_fuel(pow256, 17);
}

pub proof fn lemma_be_bytes_len(v: nat, w: nat)
    ensures
        be_bytes(v, w).len() == w,
    decreases w,
{
    if w > 0 {
        lemma_be_bytes_len(v / 256, (w - 1) as nat);
    }
}

/// Byte `i` of `be_bytes(v, w)` is digit `w - 1 - i` of `v` in base 256.
pub proof fn lemma_be_bytes_index(v: nat, w: nat, i: nat)
    requires
        i < w,
    ensures
        be_bytes(v, w)[i as int] == ((v / pow256((w - 1 - i) as nat)) % 256) as u8,
    decreases w,
{
    let s = be_bytes(v / 256, (w - 1) as nat);
    lemma_be_bytes_len(v / 256, (w - 1) as nat);
    assert(be_bytes(v, w) == s.push((v % 256) as u8));
    if i + 1 < w {
        lemma_be_bytes_index(v / 256, (w - 1) as nat, i);
        let k = (w - 2 - i) as nat;
        lemma_pow256_positive(k);
        lemma_div_denominator(v as int, 256, pow256(k) as int);
        assert(pow256((w - 1 - i) as nat) == 256 * pow256(k));
        assert(be_bytes(v, w)[i as int] == s[i as int]);
    } else {
        assert(pow256(0) == 1);
        assert(v / 1 == v);
    }
}

/// Reading back the lowest `w` bytes of `v` gives `v` modulo `256^w`.
pub proof fn lemma_be_value_of_bytes(v: nat, w: nat)
    ensures
        be_value(be_bytes(v, w)) == v % pow256(w),
    decreases w,
{
    if w > 0 {
        let p = pow256((w - 1) as nat);
        let s = be_bytes(v / 256, (w - 1) as nat);
        lemma_be_value_of_bytes(v / 256, (w - 1) as nat);
        assert(s.push((v % 256) as u8).drop_last() =~= s);
        lemma_pow256_positive((w - 1) as nat);
        lemma_mod_breakdown(v as int, 256, p as int);
    }
}

/// A value below `256^w` survives being written in `w` bytes and read back.
pub proof fn lemma_be_round_trip(v: nat, w: nat)
    requires
        v < pow256(w),
    ensures
        be_value(be_bytes(v, w)) == v,
{
    lemma_be_value_of_bytes(v, w);
    lemma_small_mod(v, pow256(w));
}

pub proof fn lemma_be_value_bound(s: Seq<u8>)
    ensures
        be_value(s) < pow256(s.len()),
    decreases s.len(),
{
    if s.len() > 0 {
        lemma_be_value_bound(s.drop_last());
    }
}

/// Every value up to `u` fits in the width that `u` needs.
pub proof fn lemma_byte_width_covers(v: nat, u: nat)
    requires
        v <= u,
    ensures
        v < pow256(byte_width(u)),
        byte_width(u) >= 1,
    decreases u,
{
    assert(pow256(0) == 1);
    assert(pow256(1) == 256);
    if u >= 256 {
        lemma_byte_width_covers(v / 256, u / 256);
        let p = pow256(byte_width(u / 256));
        assert(pow256(byte_width(u)) == 256 * p);
        assert(v < 256 * p) by (nonlinear_arith)
            requires
                v / 256 < p,
        {}
    }
}

/// A value below `256^k` needs at most `k` bytes.
pub proof fn lemma_byte_width_bound(v: nat, k: nat)
    requires
        v < pow256(k),
        k >= 1,
    ensures
        byte_width(v) <= k,
    decreases k,
{
    if v >= 256 {
        if k == 1 {
            assert(pow256(0) == 1);
            assert(pow256(1) == 256);
        } else {
            let p = pow256((k - 1) as nat);
            assert(v / 256 < p) by (nonlinear_arith)
                requires
                    v < 256 * p,
            {}
            lemma_byte_width_bound(v / 256, (k - 1) as nat);
        }
    }
}

/// Fails with `InvalidDataLength` unless `actual` is at least `expect`
/// (exactly `expect` when `equal` is set).
pub fn data_length_check(actual: usize, expect: usize, equal: bool) -> (r: Result<(), Iso14229Error>)
    ensures
        length_ok(actual as nat, expect as nat, equal) <==> r is Ok,
        r matches Err(e) ==> e == (Iso14229Error::InvalidDataLength { expect, actual }),
{
    if equal {
        if actual != expect {
            return Err(Iso14229Error::InvalidDataLength { expect, actual });
        }
    } else if expect > actual {
        return Err(Iso14229Error::InvalidDataLength { expect, actual });
    }
    Ok(())
}

/// Reads an unsigned integer written most significant byte first.
pub fn slice_to_u128(data: &[u8]) -> (r: u128)
    requires
        data@.len() <= 16,
    ensures
        r as nat == be_value(data@),
{
    let mut result: u128 = 0;
    let mut i: usize = 0;
    while i < data.len()
        invariant
            i <= data@.len() <= 16,
            result as nat == be_value(data@.take(i as int)),
            result < pow256(i as nat),
        decreases data@.len() - i,
    {
        let b = data[i];
        proof {
            assert(data@.take(i + 1).drop_last() =~= data@.take(i as int));
            lemma_pow256_monotonic((i + 1) as nat, 16);
            lemma_pow256_16();
            assert(result * 256 + b < pow256((i + 1) as nat)) by (nonlinear_arith)
                requires
                    result < pow256(i as nat),
                    b < 256,
                    pow256((i + 1) as nat) == 256 * pow256(i as nat),
            {}
        }
        result = result * 256 + b as u128;
        i = i + 1;
    }
    assert(data@.take(i as int) =~= data@);
    result
}

/// Writes the lowest `width` bytes of `value`, most significant byte first,
/// leading zero bytes included.
pub fn u128_to_vec(value: u128, width: usize) -> (r: Vec<u8>)
    requires
        width <= 16,
    ensures
        r@ == be_bytes(value as nat, width as nat),
{
    let mut result: Vec<u8> = Vec::new();
    let mut i: usize = 0;
    while i < width
        invariant
            i <= width,
            result@.len() == i,
        decreases width - i,
    {
        result.push(0);
        i = i + 1;
    }
    let mut rest: u128 = value;
    let mut k: usize = 0;
    let ghost target = be_bytes(value as nat, width as nat);
    proof {
        lemma_be_bytes_len(value as nat, width as nat);
        assert(pow256(0) == 1);
        assert(value as nat / 1 == value as nat);
    }
    while k < width
        invariant
            k <= width,
            result@.len() == width,
            target == be_bytes(value as nat, width as nat),
            target.len() == width,
            rest as nat == value as nat / pow256(k as nat),
            forall|j: int| width - k <= j < width ==> result@[j] == target[j],
        decreases width - k,
    {
        let idx: usize = width - k - 1;
        let b = (rest % 256) as u8;
        proof {
            lemma_be_bytes_index(value as nat, width as nat, idx as nat);
            assert((width - 1 - idx) as nat == k as nat);
            lemma_pow256_positive(k as nat);
            lemma_div_denominator(value as int, pow256(k as nat) as int, 256);
            assert(pow256((k + 1) as nat) == pow256(k as nat) * 256);
        }
        result.set(idx, b);
        rest = rest / 256;
        k = k + 1;
    }
    assert(result@ =~= target);
    result
}

/// The fewest bytes that hold `value`; zero takes one byte.
pub fn length_of_u_type(value: u128) -> (r: usize)
    ensures
        r as nat == byte_width(value as nat),
        1 <= r <= 16,
{
    proof {
        lemma_pow256_16();
        lemma_byte_width_bound(value as nat, 16);
    }
    let mut rest: u128 = value;
    let mut n: usize = 1;
    while rest >= 256
        invariant
            1 <= n,
            n - 1 + byte_width(rest as nat) == byte_width(value as nat),
            byte_width(value as nat) <= 16,
        decreases rest,
    {
        rest = rest / 256;
        n = n + 1;
    }
    n
}

/// The suppress-positive-response flag (bit 7) and the function code
/// (bits 0 to 6) of a sub-function byte.
pub fn peel_suppress_positive(value: u8) -> (r: (bool, u8))
    ensures
        r.0 == (value >> 7u8 == 1u8),
        r.1 == value & 0x7F,
        r.0 == (value >= 0x80),
        r.1 == value % 0x80,
{
    let flag = value >> 7u8 == 1u8;
    let code = value & 0x7F;
    assert(flag == (value >= 0x80)) by (bit_vector)
        requires
            flag == (value >> 7u8 == 1u8),
    ;
    assert(code == value % 0x80) by (bit_vector)
        requires
            code == value & 0x7F,
    ;
    (flag, code)
}

/// The sub-function byte of a function code and a suppress flag.
pub open spec fn sub_function_byte(code: u8, suppress: bool) -> u8 {
    if suppress {
        code | 0x80
    } else {
        code
    }
}

/// Puts a function code and the suppress flag back into one byte.
pub fn join_suppress_positive(code: u8, suppress: bool) -> (r: u8)
    ensures
        r == sub_function_byte(code, suppress),
{
    if suppress {
        code | 0x80
    } else {
        code
    }
}

/// Splitting a sub-function byte into its flag and function code and joining
/// them again gives the byte back; joining a code of seven bits with a flag
/// and splitting again gives the code and the flag back.
pub proof fn lemma_sub_function_round_trip(b: u8, code: u8, suppress: bool)
    requires
        code < 0x80,
    ensures
        sub_function_byte(b & 0x7F, b >> 7u8 == 1u8) == b,
        sub_function_byte(code, suppress) & 0x7F == code,
        (sub_function_byte(code, suppress) >> 7u8 == 1u8) == suppress,
{
    assert((b >> 7u8 == 1u8) ==> (b & 0x7F) | 0x80 == b) by (bit_vector);
    assert(!(b >> 7u8 == 1u8) ==> b & 0x7F == b) by (bit_vector);
    assert(code < 0x80 ==> (code | 0x80) & 0x7F == code && ((code | 0x80) >> 7u8 == 1u8)) by (bit_vector);
    assert(code < 0x80 ==> code & 0x7F == code && !(code >> 7u8 == 1u8)) by (bit_vector);
}

} // verus!
