//! The four-byte unsigned integer that every count, offset and length of
//! the container is stored as, and its byte-order aware decoding.

use vstd::prelude::*;

verus! {

/// The container's universal fixed-width integer.
pub type Field = u32;

/// A byte offset within a stream.
pub type FileIndex = u64;

/// Number of bytes that one `Field` takes on disk.
pub const FIELD_SIZE: usize = 4;

/// Value of a byte sequence read most significant byte first.
pub open spec fn be_value(bytes: Seq<u8>) -> int
    decreases bytes.len(),
{
    if bytes.len() == 0 {
        0
    } else {
        be_value(bytes.drop_last()) * 256 + bytes.last()
    }
}

/// `256` to the power `n`.
pub open spec fn pow256(n: nat) -> int
    decreases n,
{
    if n == 0 {
        1
    } else {
        256 * pow256((n - 1) as nat)
    }
}

/// The value of four bytes as they stand in the stream: most significant
/// byte first when `swap_endian` is false, last when it is true.
pub open spec fn field_value(bytes: Seq<u8>, swap_endian: bool) -> int
    recommends
        bytes.len() == 4,
{
    if swap_endian {
        bytes[3] * 0x1000000 + bytes[2] * 0x10000 + bytes[1] * 0x100 + bytes[0]
    } else {
        bytes[0] * 0x1000000 + bytes[1] * 0x10000 + bytes[2] * 0x100 + bytes[3]
    }
}

/// The bytes in the order in which they are accumulated.
pub open spec fn accumulation_order(bytes: Seq<u8>, swap_endian: bool) -> Seq<u8> {
    if swap_endian {
        bytes.reverse()
    } else {
        bytes
    }
}

proof fn lemma_be_value_bound(bytes: Seq<u8>)
    ensures
        be_value(bytes) < pow256(bytes.len()),
    decreases bytes.len(),
{
    if bytes.len() > 0 {
        let rest = bytes.drop_last();
        lemma_be_value_bound(rest);
        let a = be_value(rest);
        let p = pow256(rest.len());
        let b = bytes.last();
        assert(a * 256 + b < p * 256) by (nonlinear_arith)
            requires
                a < p,
                b < 256,
        ;
    }
}

proof fn lemma_be_value_four(bytes: Seq<u8>)
    requires
        bytes.len() == 4,
    ensures
        be_value(bytes) == bytes[0] * 0x1000000 + bytes[1] * 0x10000 + bytes[2] * 0x100
            + bytes[3],
{
    let s3 = bytes.drop_last();
    let s2 = s3.drop_last();
    let s1 = s2.drop_last();
    let s0 = s1.drop_last();
    assert(s0.len() == 0);
    assert(be_value(s0) == 0);
    assert(s1.last() == bytes[0]);
    assert(s2.last() == bytes[1]);
    assert(s3.last() == bytes[2]);
    assert(be_value(s1) == bytes[0]);
    assert(be_value(s2) == bytes[0] * 256 + bytes[1]);
    assert(be_value(s3) == (bytes[0] * 256 + bytes[1]) * 256 + bytes[2]);
}

/// Decoding with the swap flag set is decoding the reversed bytes without it.
pub proof fn lemma_swap_is_reverse(bytes: Seq<u8>)
    requires
        bytes.len() == 4,
    ensures
        field_value(bytes, true) == field_value(bytes.reverse(), false),
{
    let r = bytes.reverse();
    assert(r[0] == bytes[3]);
    assert(r[1] == bytes[2]);
    assert(r[2] == bytes[1]);
    assert(r[3] == bytes[0]);
}

/// Assembles a `Field` from four bytes, reading them in stream order when
/// `swap_endian` is false and in reverse order when it is true.
pub fn slice_to_field(slice: [u8; FIELD_SIZE], swap_endian: bool) -> (r: Field)
    ensures
        r == field_value(slice@, swap_endian),
{
    let ghost order = accumulation_order(slice@, swap_endian);
    let mut result: Field = 0;
    let mut i: usize = 0;
    while i < FIELD_SIZE
        invariant
            i <= FIELD_SIZE,
            order == accumulation_order(slice@, swap_endian),
            order.len() == FIELD_SIZE,
            result == be_value(order.take(i as int)),
        decreases FIELD_SIZE - i,
    {
        let byte = if swap_endian {
            slice[FIELD_SIZE - 1 - i]
        } else {
            slice[i]
        };
        proof {
            let prefix = order.take(i as int);
            let next = order.take(i + 1);
            if swap_endian {
                assert(order[i as int] == slice@[FIELD_SIZE - 1 - i]);
            }
            assert(byte == order[i as int]);
            assert(next.drop_last() =~= prefix);
            lemma_be_value_bound(prefix);
            assert(pow256(i as nat) <= 0x1000000) by {
                reveal_with_fuel(pow256, 5);
            }
            assert(be_value(next) == result * 256 + byte);
            assert(result * 256 + byte < 0x100000000) by (nonlinear_arith)
                requires
                    result < pow256(i as nat),
                    pow256(i as nat) <= 0x1000000,
                    byte < 256,
            ;
        }
        result = result * 256 + byte as Field;
        i = i + 1;
    }
    proof {
        assert(order.take(4) =~= order);
        lemma_be_value_four(order);
        if swap_endian {
            lemma_swap_is_reverse(slice@);
        }
    }
    result
}

} // verus!
