//! Numbers as bytes, least significant byte first.
use vstd::prelude::*;

verus! {

/// The `count` low bytes of `n`, least significant first.
pub open spec fn le_bytes(n: nat, count: nat) -> Seq<u8>
    decreases count,
{
    if count == 0 {
        Seq::empty()
    } else {
        seq![(n % 256) as u8] + le_bytes(n / 256, (count - 1) as nat)
    }
}

/// The number that `bytes` stand for, least significant first.
pub open spec fn le_value(bytes: Seq<u8>) -> nat
    decreases bytes.len(),
{
    if bytes.len() == 0 {
        0
    } else {
        (bytes[0] + 256 * le_value(bytes.skip(1))) as nat
    }
}

/// 256 to the power of `count`.
pub open spec fn byte_range(count: nat) -> nat
    decreases count,
{
    if count == 0 {
        1
    } else {
        256 * byte_range((count - 1) as nat)
    }
}

/// Writing a number and reading it back gives the number, as far as it fits.
pub proof fn lemma_le_round_trip(n: nat, count: nat)
    requires
        n < byte_range(count),
    ensures
        le_bytes(n, count).len() == count,
        le_value(le_bytes(n, count)) == n,
    decreases count,
{
    if count > 0 {
        lemma_le_round_trip(n / 256, (count - 1) as nat);
        let bytes = le_bytes(n, count);
        assert(bytes.skip(1) =~= le_bytes(n / 256, (count - 1) as nat));
    }
}

/// The number of bytes that are written.
pub proof fn lemma_le_len(n: nat, count: nat)
    ensures
        le_bytes(n, count).len() == count,
    decreases count,
{
    if count > 0 {
        lemma_le_len(n / 256, (count - 1) as nat);
    }
}

/// How large the numbers are that four and eight bytes can hold.
pub proof fn lemma_byte_ranges()
    ensures
        byte_range(4) == 0x1_0000_0000,
        byte_range(8) == 0x1_0000_0000_0000_0000,
{
    reveal_with_fuel(byte_range, 9);
}

/// The first bytes of a number stand for no more than all of them.
pub proof fn lemma_le_prefix(bytes: Seq<u8>, count: nat)
    requires
        count <= bytes.len(),
    ensures
        le_value(bytes.take(count as int)) <= le_value(bytes),
    decreases count,
{
    if count > 0 {
        lemma_le_prefix(bytes.skip(1), (count - 1) as nat);
        assert(bytes.take(count as int).skip(1) =~= bytes.skip(1).take(count - 1));
    }
}

/// The number that the first four bytes of `data` stand for.
pub fn read_u32(data: &[u8]) -> (result: u32)
    requires
        data@.len() >= 4,
    ensures
        result == le_value(data@.take(4)),
{
    proof {
        reveal_with_fuel(le_value, 5);
        let head = data@.take(4);
        assert(head.skip(1).skip(1).skip(1).skip(1).len() == 0);
        assert(head.skip(1)[0] == data@[1]);
        assert(head.skip(1).skip(1)[0] == data@[2]);
        assert(head.skip(1).skip(1).skip(1)[0] == data@[3]);
    }
    (data[0] as u32) + 256 * (data[1] as u32) + 65536 * (data[2] as u32) + 16777216 * (
    data[3] as u32)
}

/// The bytes of a slice as a vector.
pub fn to_vec(data: &[u8]) -> (result: Vec<u8>)
    ensures
        result@ == data@,
{
    let mut out: Vec<u8> = Vec::new();
    out.extend_from_slice(data);
    assert(out@ =~= data@);
    out
}

/// The least byte of a number comes first.
pub proof fn lemma_least_byte_comes_first(n: nat, count: nat)
    requires
        count > 0,
    ensures
        le_bytes(n, count)[0] == n % 256,
        le_bytes(n, count).skip(1) == le_bytes(n / 256, (count - 1) as nat),
{
    assert(le_bytes(n, count).skip(1) =~= le_bytes(n / 256, (count - 1) as nat));
}

/// A byte before the others counts once, and makes them count 256 times as much.
pub proof fn lemma_first_byte_counts_once(first: u8, rest: Seq<u8>)
    ensures
        le_value(seq![first] + rest) == first + 256 * le_value(rest),
        le_value(Seq::<u8>::empty()) == 0,
{
    assert((seq![first] + rest).skip(1) =~= rest);
}

} // verus!
