//! Reads and writes of 1 to 8 bits at any bit position of a byte buffer.

use vstd::prelude::*;
use vstd::arithmetic::power2::lemma2_to64;
use vstd::bits::lemma_u8_shr_is_div;
use crate::model::{
    bit_of, bits_of, field_value, lemma_clear_high_bits, lemma_value_of_bits_small, splice, stores,
    value_bits,
};

verus! {

/// The byte whose `n` low bits are set and whose other bits are clear.
pub open spec fn low_mask(n: usize) -> u8 {
    if n >= 8 {
        0xffu8
    } else {
        !(0xffu8 << n)
    }
}

/// The byte whose bits at position `n` and above are set and whose lower bits
/// are clear.
pub open spec fn high_mask(n: usize) -> u8 {
    if n >= 8 {
        0u8
    } else {
        0xffu8 << n
    }
}

/// Bit `j` of a byte, read with a shift and a mask.
pub open spec fn byte_bit(b: u8, j: usize) -> bool {
    (b >> j) & 1u8 == 1u8
}

/// The mask that keeps the `n` low bits of a byte.
fn mask(n: usize) -> (m: u8)
    requires
        n <= 8,
    ensures
        m == low_mask(n),
{
    if n >= 8 {
        0xffu8
    } else {
        !(0xffu8 << n)
    }
}

/// The mask that keeps the bits of a byte from position `n` up; none for
/// `n == 8`.
fn mask_from(n: usize) -> (m: u8)
    requires
        n <= 8,
    ensures
        m == high_mask(n),
{
    if n >= 8 {
        0u8
    } else {
        0xffu8 << n
    }
}

/// The shift-and-mask reading of a bit agrees with the arithmetic one.
pub proof fn lemma_byte_bit(b: u8, j: usize)
    requires
        j < 8,
    ensures
        byte_bit(b, j) == bit_of(b as nat, j as nat),
{
    let s = j as u8;
    lemma_u8_shr_is_div(b, s);
    let y = b >> s;
    assert((y & 1u8 == 1u8) == (y % 2 == 1)) by (bit_vector);
    assert(b >> j == b >> s) by (bit_vector)
        requires
            s == j,
            j < 8,
    ;
}

/// A read that stays within one byte: bit `j` of the result is bit `k + j` of
/// the byte, and the result has no bit from position `len` up.
proof fn lemma_read_within(head: u8, k: usize, len: usize, j: usize)
    by (bit_vector)
    requires
        k < 8,
        1 <= len,
        k + len <= 8,
        j < 8,
    ensures
        byte_bit((head >> k) & low_mask(len), j) == (j < len && byte_bit(head, (k + j) as usize)),
{
}

/// A read that spans two bytes: the low bits of the result are the high bits
/// of the first byte, the next ones the low bits of the second.
proof fn lemma_read_across(head: u8, next: u8, k: usize, len: usize, j: usize)
    by (bit_vector)
    requires
        k < 8,
        len <= 8,
        k + len > 8,
        j < 8,
    ensures
        byte_bit((head >> k) | ((next & low_mask((len + k - 8) as usize)) << ((8 - k) as usize)), j)
            == (j < len && if j < 8 - k {
            byte_bit(head, (k + j) as usize)
        } else {
            byte_bit(next, (j + k - 8) as usize)
        }),
{
}

/// Reads the `len` bits that start at bit `buf_idx` of the buffer and returns
/// them as a number, the bit at `buf_idx` being the least significant.
pub fn get_byte(buf: &[u8], buf_idx: usize, len: usize) -> (r: u8)
    requires
        1 <= len <= 8,
        buf_idx + len <= 8 * buf@.len(),
    ensures
        r as nat == field_value(buf@, buf_idx as int, len as int),
{
    let k: usize = buf_idx % 8;
    let p: usize = 8 - k;
    let head: u8 = buf[buf_idx / 8];
    let r: u8 = if len <= p {
        if len == 8 {
            head
        } else {
            (head >> k) & mask(len)
        }
    } else {
        let next: u8 = buf[buf_idx / 8 + 1];
        let left: usize = len - p;
        let high: u8 = (next & mask(left)) << p;
        let low: u8 = head >> k;
        low | high
    };
    proof {
        let next: u8 = if len <= p { 0u8 } else { buf@[buf_idx / 8 + 1] };
        assert forall|j: usize| j < 8 implies byte_bit(r, j) == (j < len && bits_of(buf@)[buf_idx + j]) by {
            if len <= p {
                if len == 8 {
                    assert(head == (head >> 0usize) & low_mask(8)) by (bit_vector);
                }
                lemma_read_within(head, k, len, j);
            } else {
                lemma_read_across(head, next, k, len, j);
            }
            if j < len {
                if j < p {
                    lemma_byte_bit(head, (k + j) as usize);
                } else {
                    lemma_byte_bit(next, (j - p) as usize);
                }
            }
        }
        lemma_field_of_byte(buf@, buf_idx as int, len, r);
    }
    r
}

/// A byte whose `len` low bits are the bits of the buffer from `offset` on,
/// and whose other bits are clear, is the value of that field.
proof fn lemma_field_of_byte(buf: Seq<u8>, offset: int, len: usize, r: u8)
    requires
        1 <= len <= 8,
        0 <= offset,
        offset + len <= 8 * buf.len(),
        forall|j: usize| j < 8 ==> byte_bit(r, j) == (j < len && bits_of(buf)[offset + j]),
    ensures
        r as nat == field_value(buf, offset, len as int),
{
    let run = bits_of(buf).subrange(offset, offset + len);
    assert forall|j: nat| j < 8 implies bit_of(r as nat, j) == (j < len && bits_of(buf)[offset + j]) by {
        lemma_byte_bit(r, j as usize);
    }
    assert(run =~= value_bits(r as nat, len as nat));
    lemma2_to64();
    lemma_clear_high_bits(r as nat, len as nat, 8);
    lemma_value_of_bits_small(r as nat, len as nat);
}


/// A write that stays within one byte: bits `k` to `k + len` of the new byte
/// are the low bits of the value, the others those of the old byte.
proof fn lemma_write_within(head: u8, byte: u8, k: usize, len: usize, j: usize)
    by (bit_vector)
    requires
        k < 8,
        1 <= len,
        k + len <= 8,
        j < 8,
    ensures
        byte_bit(
            (head & low_mask(k)) | ((byte & low_mask(len)) << k) | (head & high_mask(
                (k + len) as usize,
            )),
            j,
        ) == if k <= j && j < k + len {
            byte_bit(byte, (j - k) as usize)
        } else {
            byte_bit(head, j)
        },
{
}

/// The first byte of a write that spans two: its bits from `k` up are the low
/// bits of the value, the others those of the old byte.
proof fn lemma_write_head(head: u8, byte: u8, k: usize, j: usize)
    by (bit_vector)
    requires
        1 <= k < 8,
        j < 8,
    ensures
        byte_bit((head & low_mask(k)) | ((byte & low_mask((8 - k) as usize)) << k), j) == if k
            <= j {
            byte_bit(byte, (j - k) as usize)
        } else {
            byte_bit(head, j)
        },
{
}

/// The second byte of a write that spans two: its low bits are the rest of
/// the value, the others those of the old byte.
proof fn lemma_write_next(next: u8, byte: u8, k: usize, len: usize, j: usize)
    by (bit_vector)
    requires
        k < 8,
        len <= 8,
        k + len > 8,
        j < 8,
    ensures
        byte_bit(
            ((byte & low_mask(len)) >> ((8 - k) as usize)) | (next & high_mask(
                (len + k - 8) as usize,
            )),
            j,
        ) == if j < len + k - 8 {
            byte_bit(byte, (j + 8 - k) as usize)
        } else {
            byte_bit(next, j)
        },
{
}

/// Writes the `len` low bits of `byte` at bit `buf_idx` of the buffer, the
/// least significant first, and leaves every other bit of the buffer as it
/// was.
pub fn set_byte(buf: &mut [u8], buf_idx: usize, byte: u8, len: usize)
    requires
        1 <= len <= 8,
        buf_idx + len <= 8 * old(buf)@.len(),
    ensures
        stores(old(buf)@, final(buf)@, buf_idx as int, len as int, byte as nat),
{
    let k: usize = buf_idx % 8;
    let p: usize = 8 - k;
    let at: usize = buf_idx / 8;
    let head: u8 = buf[at];
    if len <= p {
        let high: u8 = head & mask_from(k + len);
        let mid: u8 = (byte & mask(len)) << k;
        let low: u8 = head & mask(k);
        let new: u8 = low | mid | high;
        buf[at] = new;
        proof {
            let before = old(buf)@;
            let after = buf@;
            assert forall|i: int| 0 <= i < 8 * before.len() implies bits_of(after)[i] == splice(
                bits_of(before),
                buf_idx as int,
                value_bits(byte as nat, len as nat),
            )[i] by {
                if i / 8 == at {
                    let j = (i % 8) as usize;
                    lemma_write_within(head, byte, k, len, j);
                    lemma_byte_bit(new, j);
                    lemma_byte_bit(head, j);
                    if k <= j && j < k + len {
                        lemma_byte_bit(byte, (j - k) as usize);
                    }
                }
            }
            assert(bits_of(after) =~= splice(
                bits_of(before),
                buf_idx as int,
                value_bits(byte as nat, len as nat),
            ));
        }
    } else {
        let low: u8 = head & mask(k);
        let high: u8 = (byte & mask(p)) << k;
        let first: u8 = low | high;
        buf[at] = first;
        let low: u8 = (byte & mask(len)) >> p;
        let next: u8 = buf[at + 1];
        let high: u8 = next & mask_from(len - p);
        let second: u8 = low | high;
        buf[at + 1] = second;
        proof {
            let before = old(buf)@;
            let after = buf@;
            assert forall|i: int| 0 <= i < 8 * before.len() implies bits_of(after)[i] == splice(
                bits_of(before),
                buf_idx as int,
                value_bits(byte as nat, len as nat),
            )[i] by {
                let j = (i % 8) as usize;
                if i / 8 == at {
                    lemma_write_head(head, byte, k, j);
                    lemma_byte_bit(first, j);
                    lemma_byte_bit(head, j);
                    if k <= j {
                        lemma_byte_bit(byte, (j - k) as usize);
                    }
                } else if i / 8 == at + 1 {
                    lemma_write_next(next, byte, k, len, j);
                    lemma_byte_bit(second, j);
                    lemma_byte_bit(next, j);
                    if j < len + k - 8 {
                        lemma_byte_bit(byte, (j + 8 - k) as usize);
                    }
                }
            }
            assert(bits_of(after) =~= splice(
                bits_of(before),
                buf_idx as int,
                value_bits(byte as nat, len as nat),
            ));
        }
    }
}

} // verus!
