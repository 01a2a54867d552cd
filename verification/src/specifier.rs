//! Field types: what a field of a packed structure holds, how many bits it
//! takes, and how its value is read from and written to a buffer.

use vstd::prelude::*;
use vstd::arithmetic::power2::{pow2, lemma2_to64};
use crate::codec;
use crate::model::{bits_of, field_value, stores, lemma_bits_value_bound};
use crate::laws::lemma_round_trip;
use crate::primitive::{get_byte, set_byte};

verus! {

/// A type of field. `BITS` is the width of the field in the buffer,
/// `Container` the type in which its value is handed over, and `SIZE` the
/// number of bytes of a `Container` that the field can reach.
pub trait Specifier {
    const BITS: usize;

    const SIZE: usize = Self::BITS;

    type Container;

    /// The width of the field in bits.
    spec fn bits() -> nat;

    /// `BITS` is the width of the field.
    proof fn lemma_bits()
        ensures
            Self::BITS == Self::bits(),
    ;

    /// The number that stands for a value in the buffer.
    spec fn raw(data: Self::Container) -> nat;

    /// Different values are stored as different numbers.
    proof fn lemma_raw_injective(a: Self::Container, b: Self::Container)
        requires
            Self::raw(a) == Self::raw(b),
        ensures
            a == b,
    ;

    /// Reads the field that starts at bit `buf_idx`.
    fn get(buf: &[u8], buf_idx: usize) -> (data: Self::Container)
        requires
            Self::bits() <= 64,
            buf_idx + Self::bits() <= 8 * buf@.len(),
            buf_idx + Self::bits() <= usize::MAX,
        ensures
            Self::raw(data) == field_value(buf@, buf_idx as int, Self::bits() as int),
    ;

    /// Writes the field that starts at bit `buf_idx`: the `BITS` low bits of
    /// the number that stands for `data`.
    fn set(buf: &mut [u8], buf_idx: usize, data: Self::Container)
        requires
            Self::bits() <= 64,
            buf_idx + Self::bits() <= 8 * old(buf)@.len(),
            buf_idx + Self::bits() <= usize::MAX,
        ensures
            stores(
                old(buf)@,
                final(buf)@,
                buf_idx as int,
                Self::bits() as int,
                Self::raw(data),
            ),
    ;
}

impl Specifier for bool {
    const BITS: usize = 1;

    const SIZE: usize = 1;

    type Container = bool;

    open spec fn bits() -> nat {
        1
    }

    proof fn lemma_bits() {
    }

    open spec fn raw(data: bool) -> nat {
        if data {
            1
        } else {
            0
        }
    }

    proof fn lemma_raw_injective(a: bool, b: bool) {
    }

    fn get(buf: &[u8], buf_idx: usize) -> (data: bool) {
        let byte: u8 = get_byte(buf, buf_idx, 1);
        proof {
            lemma_bits_value_bound(bits_of(buf@).subrange(buf_idx as int, buf_idx + 1));
            lemma2_to64();
        }
        byte != 0
    }

    fn set(buf: &mut [u8], buf_idx: usize, data: bool) {
        let byte: u8 = if data { 1 } else { 0 };
        set_byte(buf, buf_idx, byte, 1);
    }
}

/// An unsigned field of `N` bits, handed over as a `u64`.
pub struct B<const N: usize>;

impl<const N: usize> Specifier for B<N> {
    const BITS: usize = N;

    const SIZE: usize = N / 8 + (N % 8 + 7) / 8;

    type Container = u64;

    open spec fn bits() -> nat {
        N as nat
    }

    proof fn lemma_bits() {
    }

    open spec fn raw(data: u64) -> nat {
        data as nat
    }

    proof fn lemma_raw_injective(a: u64, b: u64) {
    }

    fn get(buf: &[u8], buf_idx: usize) -> (data: u64) {
        codec::get(buf, buf_idx, N)
    }

    fn set(buf: &mut [u8], buf_idx: usize, data: u64) {
        codec::set(buf, buf_idx, N, data);
    }
}

/// Round trip through a field type: a value whose number fits in the field,
/// once written, is the value read back.
pub proof fn lemma_specifier_round_trip<T: Specifier>(
    before: Seq<u8>,
    after: Seq<u8>,
    buf_idx: int,
    written: T::Container,
    read: T::Container,
)
    requires
        0 <= buf_idx,
        buf_idx + T::bits() <= 8 * before.len(),
        T::raw(written) < pow2(T::bits()),
        stores(before, after, buf_idx, T::bits() as int, T::raw(written)),
        T::raw(read) == field_value(after, buf_idx, T::bits() as int),
    ensures
        read == written,
{
    lemma_round_trip(before, after, buf_idx, T::bits() as int, T::raw(written));
    T::lemma_raw_injective(read, written);
}

} // verus!
