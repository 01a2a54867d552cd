//! Fields of up to 64 bits, read and written eight bits at a time, least
//! significant byte first.

use vstd::prelude::*;
use vstd::arithmetic::power2::{
    lemma2_to64, lemma_pow2_adds, lemma_pow2_pos, lemma_pow2_strictly_increases, pow2,
};
use vstd::bits::{lemma_u64_shr_is_div, lemma_u64_shl_is_mul, lemma_u64_pow2_no_overflow};
use crate::model::{
    bit_of, bits_of, field_value, lemma_bit_of_low_part, lemma_bit_of_shifted,
    lemma_bits_value_bound, lemma_field_value_split, lemma_stores_extend, splice, stores,
    value_bits,
};
use crate::primitive::{get_byte, set_byte};

verus! {

/// Reads the field of `bit_width` bits that starts at bit `bit_offset`, zero
/// extended to 64 bits.
pub fn get(buf: &[u8], bit_offset: usize, bit_width: usize) -> (value: u64)
    requires
        bit_width <= 64,
        bit_offset + bit_width <= 8 * buf@.len(),
        bit_offset + bit_width <= usize::MAX,
    ensures
        value as nat == field_value(buf@, bit_offset as int, bit_width as int),
        value < pow2(bit_width as nat),
{
    let mut ret: u64 = 0;
    let mut left_bits: usize = bit_width;
    let mut start: usize = bit_offset;
    let mut done: usize = 0;
    while left_bits > 0
        invariant
            bit_width <= 64,
            bit_offset + bit_width <= 8 * buf@.len(),
            bit_offset + bit_width <= usize::MAX,
            left_bits + done == bit_width,
            start == bit_offset + done,
            ret as nat == field_value(buf@, bit_offset as int, done as int),
        decreases left_bits,
    {
        let read_size: usize = if left_bits > 8 { 8 } else { left_bits };
        let b: u8 = get_byte(buf, start, read_size);
        proof {
            let bits = bits_of(buf@);
            lemma_bits_value_bound(bits.subrange(bit_offset as int, bit_offset + done));
            lemma_bits_value_bound(bits.subrange(start as int, start + read_size));
            lemma_field_value_split(buf@, bit_offset as int, done as int, read_size as int);
            lemma_or_is_add(ret, b, done, read_size);
        }
        ret = ret | ((b as u64) << done);
        left_bits -= read_size;
        start += read_size;
        done += read_size;
    }
    proof {
        lemma_bits_value_bound(bits_of(buf@).subrange(bit_offset as int, bit_offset + bit_width));
    }
    ret
}

/// Placing a piece of `n` bits above the `done` bits already gathered adds
/// the piece times `2^done`.
proof fn lemma_or_is_add(ret: u64, b: u8, done: usize, n: usize)
    requires
        done + n <= 64,
        1 <= n <= 8,
        ret < pow2(done as nat),
        b < pow2(n as nat),
    ensures
        ret | ((b as u64) << done) == ret + pow2(done as nat) * b,
        ret + pow2(done as nat) * b < pow2((done + n) as nat),
{
    let s = done as u64;
    let wide = b as u64;
    lemma2_to64();
    lemma_pow2_pos(done as nat);
    lemma_pow2_adds(done as nat, n as nat);
    lemma_u64_pow2_no_overflow(done as nat);
    assert(pow2(done as nat) * b <= pow2(done as nat) * (pow2(n as nat) - 1)) by (nonlinear_arith)
        requires
            b < pow2(n as nat),
            pow2(done as nat) > 0,
    ;
    assert(pow2(done as nat) * (pow2(n as nat) - 1) == pow2((done + n) as nat) - pow2(done as nat))
        by (nonlinear_arith)
        requires
            pow2((done + n) as nat) == pow2(done as nat) * pow2(n as nat),
    ;
    if done + n < 64 {
        lemma_pow2_strictly_increases((done + n) as nat, 64);
    }
    assert(wide * pow2(done as nat) == pow2(done as nat) * b) by (nonlinear_arith)
        requires
            wide == b,
    ;
    lemma_u64_shl_is_mul(wide, s);
    lemma_u64_shl_is_mul(1, s);
    let piece = wide << s;
    let one = 1u64 << s;
    assert(ret | piece == ret + piece) by (bit_vector)
        requires
            s < 64,
            ret < one,
            one == 1u64 << s,
            piece == wide << s,
            wide <= 255,
    ;
    assert(wide << done == wide << s) by (bit_vector)
        requires
            s == done,
            done < 64,
    ;
}

/// Writes the `bit_width` low bits of `value` as the field that starts at bit
/// `bit_offset`; higher bits of `value` are dropped, and every bit outside
/// the field stays as it was.
pub fn set(buf: &mut [u8], bit_offset: usize, bit_width: usize, value: u64)
    requires
        bit_width <= 64,
        bit_offset + bit_width <= 8 * old(buf)@.len(),
        bit_offset + bit_width <= usize::MAX,
    ensures
        stores(old(buf)@, final(buf)@, bit_offset as int, bit_width as int, value as nat),
{
    let mut left_bits: usize = bit_width;
    let mut start: usize = bit_offset;
    let mut done: usize = 0;
    proof {
        assert(bits_of(buf@) =~= splice(bits_of(buf@), bit_offset as int, value_bits(value as nat, 0)));
    }
    while left_bits > 0
        invariant
            bit_width <= 64,
            bit_offset + bit_width <= 8 * old(buf)@.len(),
            bit_offset + bit_width <= usize::MAX,
            left_bits + done == bit_width,
            start == bit_offset + done,
            stores(old(buf)@, buf@, bit_offset as int, done as int, value as nat),
        decreases left_bits,
    {
        let write_size: usize = if left_bits > 8 { 8 } else { left_bits };
        let piece: u8 = chunk(value, done);
        let ghost mid = buf@;
        set_byte(buf, start, piece, write_size);
        proof {
            lemma_stores_extend(
                old(buf)@,
                mid,
                buf@,
                bit_offset as int,
                done as int,
                write_size as int,
                value as nat,
                piece as nat,
            );
        }
        left_bits -= write_size;
        start += write_size;
        done += write_size;
    }
}

/// The eight bits of `value` from bit `shift` up, as a byte.
fn chunk(value: u64, shift: usize) -> (piece: u8)
    requires
        shift < 64,
    ensures
        forall|j: nat| j < 8 ==> bit_of(piece as nat, j) == bit_of(value as nat, shift as nat + j),
{
    let low: u64 = (value >> shift) & 0xff;
    proof {
        let s = shift as u64;
        let y = value >> s;
        assert(value >> shift == value >> s) by (bit_vector)
            requires
                s == shift,
                shift < 64,
        ;
        assert(y & 0xff == y % 256) by (bit_vector);
        lemma_u64_shr_is_div(value, s);
        lemma2_to64();
        assert forall|j: nat| j < 8 implies bit_of(low as nat, j) == bit_of(
            value as nat,
            shift as nat + j,
        ) by {
            lemma_bit_of_low_part(y as nat, 8, j);
            lemma_bit_of_shifted(value as nat, shift as nat, j);
        }
    }
    low as u8
}


/// The native unsigned integers that a field's value is handed over in.
#[derive(Clone, Copy, Debug, PartialEq, Eq)]
pub enum NativeWidth {
    U8,
    U16,
    U32,
    U64,
}

impl NativeWidth {
    /// The width of the integer, in bits.
    pub open spec fn bits(self) -> nat {
        match self {
            NativeWidth::U8 => 8,
            NativeWidth::U16 => 16,
            NativeWidth::U32 => 32,
            NativeWidth::U64 => 64,
        }
    }

    /// The size of the integer, in bytes.
    pub fn bytes(self) -> (n: usize)
        ensures
            8 * n == self.bits(),
    {
        match self {
            NativeWidth::U8 => 1,
            NativeWidth::U16 => 2,
            NativeWidth::U32 => 4,
            NativeWidth::U64 => 8,
        }
    }
}

/// The width in bits of the narrowest native integer that holds a field of
/// `bit_size` bits.
pub open spec fn container_bits(bit_size: nat) -> nat {
    if bit_size <= 8 {
        8
    } else if bit_size <= 16 {
        16
    } else if bit_size <= 32 {
        32
    } else {
        64
    }
}

/// The narrowest native integer that holds a field of `bit_size` bits.
pub fn container_for(bit_size: usize) -> (c: NativeWidth)
    requires
        1 <= bit_size <= 64,
    ensures
        c.bits() == container_bits(bit_size as nat),
        bit_size <= c.bits(),
        forall|other: NativeWidth| bit_size <= other.bits() ==> c.bits() <= other.bits(),
{
    if bit_size <= 8 {
        NativeWidth::U8
    } else if bit_size <= 16 {
        NativeWidth::U16
    } else if bit_size <= 32 {
        NativeWidth::U32
    } else {
        NativeWidth::U64
    }
}

/// The number of bytes that a field of `bit_size` bits touches when it starts
/// on a byte boundary: `bit_size / 8`, rounded up.
pub fn byte_size(bit_size: usize) -> (k: usize)
    requires
        bit_size > 0,
    ensures
        8 * (k - 1) < bit_size <= 8 * k,
{
    let mut k: usize = bit_size / 8;
    if bit_size % 8 != 0 {
        k = k + 1;
    }
    k
}

/// What `get` returns for a field fits the field's container.
pub proof fn lemma_fits_container(value: nat, bit_size: nat, c: NativeWidth)
    requires
        value < pow2(bit_size),
        bit_size <= c.bits(),
    ensures
        value < pow2(c.bits()),
{
    if bit_size < c.bits() {
        lemma_pow2_strictly_increases(bit_size, c.bits());
    }
}

} // verus!

