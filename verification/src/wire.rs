//! Fixed-width integers and decimal text as they stand in segments and keys.

use vstd::prelude::*;

verus! {

/// The unsigned 64-bit value of eight bytes, most significant byte first.
pub open spec fn be_u64(bytes: Seq<u8>) -> u64
    recommends
        bytes.len() == 8,
{
    (bytes[0] as int * 0x0100_0000_0000_0000 + bytes[1] as int * 0x0001_0000_0000_0000
        + bytes[2] as int * 0x0000_0100_0000_0000 + bytes[3] as int * 0x0000_0001_0000_0000
        + bytes[4] as int * 0x0000_0000_0100_0000 + bytes[5] as int * 0x0000_0000_0001_0000
        + bytes[6] as int * 0x0000_0000_0000_0100 + bytes[7] as int) as u64
}

/// Reads a big-endian `u64` from exactly eight bytes.
pub fn decode_u64(buf: &[u8]) -> (value: u64)
    requires
        buf@.len() == 8,
    ensures
        value == be_u64(buf@),
{
    let mut value: u64 = 0;
    let mut i: usize = 0;
    while i < 8
        invariant
            buf@.len() == 8,
            i <= 8,
            value as int == partial_be(buf@, i as int),
        decreases 8 - i,
    {
        proof {
            partial_be_bound(buf@, i as int);
        }
        value = value * 256 + buf[i] as u64;
        i = i + 1;
    }
    proof {
        partial_be_full(buf@);
    }
    value
}

/// The value of the first `n` bytes read most significant byte first.
spec fn partial_be(bytes: Seq<u8>, n: int) -> int
    decreases n,
{
    if n <= 0 {
        0
    } else {
        partial_be(bytes, n - 1) * 256 + bytes[n - 1] as int
    }
}

spec fn pow256(n: int) -> int
    decreases n,
{
    if n <= 0 {
        1
    } else {
        256 * pow256(n - 1)
    }
}

proof fn partial_be_bound(bytes: Seq<u8>, n: int)
    requires
        0 <= n < 8,
    ensures
        0 <= partial_be(bytes, n) < pow256(n),
        pow256(n) <= 0x0100_0000_0000_0000,
        partial_be(bytes, n) * 256 + 255 <= u64::MAX,
    decreases n,
{
    reveal_with_fuel(pow256, 9);
    if n > 0 {
        partial_be_bound(bytes, n - 1);
    }
}

proof fn partial_be_full(bytes: Seq<u8>)
    ensures
        partial_be(bytes, 8) == bytes[0] as int * 0x0100_0000_0000_0000 + bytes[1] as int
            * 0x0001_0000_0000_0000 + bytes[2] as int * 0x0000_0100_0000_0000 + bytes[3] as int
            * 0x0000_0001_0000_0000 + bytes[4] as int * 0x0000_0000_0100_0000 + bytes[5] as int
            * 0x0000_0000_0001_0000 + bytes[6] as int * 0x0000_0000_0000_0100 + bytes[7] as int,
        0 <= partial_be(bytes, 8) <= u64::MAX,
{
    reveal_with_fuel(partial_be, 9);
}

/// A list of byte strings, each taken as the bytes that it holds.
pub open spec fn byte_strings(list: Seq<Vec<u8>>) -> Seq<Seq<u8>> {
    Seq::new(list.len(), |i: int| list[i]@)
}

/// The decimal digits of `n` as ASCII bytes, without leading zeros.
pub open spec fn decimal(n: nat) -> Seq<u8>
    decreases n,
{
    if n < 10 {
        seq![(48 + n) as u8]
    } else {
        decimal(n / 10).push((48 + n % 10) as u8)
    }
}

/// Appends the decimal text of `n` to `out`.
pub fn push_decimal(out: &mut Vec<u8>, n: u64)
    ensures
        final(out)@ == old(out)@ + decimal(n as nat),
    decreases n,
{
    if n >= 10 {
        push_decimal(out, n / 10);
    }
    let digit: u8 = (n % 10) as u8;
    out.push(48 + digit);
}

} // verus!
