//! What holds of every buffer and every field: a value written is the value
//! read back, and a write is invisible to every field it does not overlap.

use vstd::prelude::*;
use vstd::arithmetic::div_mod::{lemma_div_basics, lemma_small_mod};
use vstd::arithmetic::power2::{lemma2_to64, lemma_pow2_pos, pow2};
use crate::enumeration::{BoundedEnum, DecodeError};
use crate::model::{
    bit_of, bits_of, field_value, lemma_bits_of_value_all, lemma_bits_value_bound,
    lemma_bits_value_zero, lemma_value_of_bits, lemma_value_of_bits_small, stores, value_bits,
};

verus! {

/// Round trip: after `value` is stored in a field, the field reads as the
/// `width` low bits of `value`; a value that fits in `width` bits reads back
/// unchanged.
pub proof fn lemma_round_trip(before: Seq<u8>, after: Seq<u8>, offset: int, width: int, value: nat)
    requires
        0 <= offset,
        0 <= width,
        offset + width <= 8 * before.len(),
        stores(before, after, offset, width, value),
    ensures
        field_value(after, offset, width) == value % pow2(width as nat),
        value < pow2(width as nat) ==> field_value(after, offset, width) == value,
{
    assert(bits_of(after).subrange(offset, offset + width) =~= value_bits(value, width as nat));
    lemma_value_of_bits(value, width as nat);
    if value < pow2(width as nat) {
        lemma_small_mod(value, pow2(width as nat));
    }
}

/// Non-disturbance: storing into one field changes the value of no field
/// whose bits lie wholly outside it.
pub proof fn lemma_non_disturbance(
    before: Seq<u8>,
    after: Seq<u8>,
    offset: int,
    width: int,
    value: nat,
    other_offset: int,
    other_width: int,
)
    requires
        0 <= offset,
        0 <= width,
        0 <= other_offset,
        0 <= other_width,
        other_offset + other_width <= 8 * before.len(),
        other_offset + other_width <= offset || offset + width <= other_offset,
        stores(before, after, offset, width, value),
    ensures
        field_value(after, other_offset, other_width) == field_value(
            before,
            other_offset,
            other_width,
        ),
{
    assert(bits_of(after).subrange(other_offset, other_offset + other_width) =~= bits_of(
        before,
    ).subrange(other_offset, other_offset + other_width));
}

/// Two bytes with the same eight bits are the same byte.
pub proof fn lemma_byte_of_bits(x: u8, y: u8)
    requires
        forall|j: nat| j < 8 ==> bit_of(x as nat, j) == bit_of(y as nat, j),
    ensures
        x == y,
{
    lemma2_to64();
    assert(value_bits(x as nat, 8) =~= value_bits(y as nat, 8));
    lemma_value_of_bits_small(x as nat, 8);
    lemma_value_of_bits_small(y as nat, 8);
}

/// The bits determine the bytes: two buffers of one length with the same bits
/// are equal.
pub proof fn lemma_bits_determine_bytes(a: Seq<u8>, b: Seq<u8>)
    requires
        a.len() == b.len(),
        bits_of(a) == bits_of(b),
    ensures
        a == b,
{
    assert forall|q: int| 0 <= q < a.len() implies a[q] == b[q] by {
        assert forall|j: nat| j < 8 implies bit_of(a[q] as nat, j) == bit_of(b[q] as nat, j) by {
            let i = 8 * q + j;
            assert(i / 8 == q && i % 8 == j);
            assert(bits_of(a)[i] == bit_of(a[q] as nat, j));
            assert(bits_of(b)[i] == bit_of(b[q] as nat, j));
        }
        lemma_byte_of_bits(a[q], b[q]);
    }
    assert(a =~= b);
}

/// A store has one outcome: the buffer it leaves is determined by the buffer
/// before, the field and the value.
pub proof fn lemma_stores_one_outcome(
    before: Seq<u8>,
    first: Seq<u8>,
    second: Seq<u8>,
    offset: int,
    width: int,
    value: nat,
)
    requires
        stores(before, first, offset, width, value),
        stores(before, second, offset, width, value),
    ensures
        first == second,
{
    lemma_bits_determine_bytes(first, second);
}

/// A store leaves alone every byte that holds no bit of the field.
pub proof fn lemma_bytes_outside_field(
    before: Seq<u8>,
    after: Seq<u8>,
    offset: int,
    width: int,
    value: nat,
    at: int,
)
    requires
        0 <= offset,
        0 <= width,
        stores(before, after, offset, width, value),
        0 <= at < before.len(),
        8 * at + 8 <= offset || offset + width <= 8 * at,
    ensures
        after[at] == before[at],
{
    assert forall|j: nat| j < 8 implies bit_of(after[at] as nat, j) == bit_of(before[at] as nat, j) by {
        let i = 8 * at + j;
        assert(bits_of(after)[i] == bits_of(before)[i]);
        assert(i / 8 == at && i % 8 == j);
    }
    lemma_byte_of_bits(after[at], before[at]);
}

/// Every field of a buffer of zero bytes reads as zero.
pub proof fn lemma_zero_buffer(buf: Seq<u8>, offset: int, width: int)
    requires
        0 <= offset,
        0 <= width,
        offset + width <= 8 * buf.len(),
        forall|at: int| 0 <= at < buf.len() ==> buf[at] == 0,
    ensures
        field_value(buf, offset, width) == 0,
{
    let run = bits_of(buf).subrange(offset, offset + width);
    assert forall|j: int| 0 <= j < run.len() implies !run[j] by {
        let i = offset + j;
        lemma_pow2_pos((i % 8) as nat);
        lemma_div_basics(pow2((i % 8) as nat) as int);
    }
    lemma_bits_value_zero(run);
}

/// A registered enumeration never fails to decode: its field is as many bits
/// wide as it takes for every bit pattern to be a discriminant.
pub proof fn lemma_registered_enum_decodes(e: BoundedEnum, buf: Seq<u8>, offset: int)
    requires
        e.wf(),
        0 <= offset,
        offset + e.bits <= 8 * buf.len(),
    ensures
        e.decoded(field_value(buf, offset, e.bits as int)) == Ok::<u64, DecodeError>(
            field_value(buf, offset, e.bits as int) as u64,
        ),
        field_value(buf, offset, e.bits as int) < e.variants,
{
    lemma_bits_value_bound(bits_of(buf).subrange(offset, offset + e.bits));
}

/// Writing back what was read changes nothing: a store of the value that a
/// field already holds leaves the whole buffer as it was.
pub proof fn lemma_write_back(before: Seq<u8>, after: Seq<u8>, offset: int, width: int)
    requires
        0 <= offset,
        0 <= width,
        offset + width <= 8 * before.len(),
        stores(before, after, offset, width, field_value(before, offset, width)),
    ensures
        after == before,
{
    let run = bits_of(before).subrange(offset, offset + width);
    lemma_bits_of_value_all(run);
    assert(bits_of(after) =~= bits_of(before));
    lemma_bits_determine_bytes(after, before);
}

} // verus!
