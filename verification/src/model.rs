//! The mathematical model: a buffer is one run of bits, least significant bit
//! of byte 0 first, and a field is the number spelled by a sub-run of it.

use vstd::prelude::*;
use vstd::arithmetic::power2::{
    lemma2_to64, lemma_pow2_adds, lemma_pow2_pos, lemma_pow2_unfold, pow2,
};
use vstd::arithmetic::div_mod::{
    lemma_div_denominator, lemma_fundamental_div_mod_converse, lemma_mod_breakdown, lemma_small_mod,
};
use vstd::arithmetic::mul::lemma_mul_is_distributive_add;

verus! {

/// Bit `j` of the number `v`; bit 0 is the least significant.
pub open spec fn bit_of(v: nat, j: nat) -> bool {
    (v / pow2(j)) % 2 == 1
}

/// The `n` low bits of `v`, least significant first.
pub open spec fn value_bits(v: nat, n: nat) -> Seq<bool> {
    Seq::new(n, |j: int| bit_of(v, j as nat))
}

/// The number that a run of bits spells, least significant bit first.
pub open spec fn bits_value(bits: Seq<bool>) -> nat
    decreases bits.len(),
{
    if bits.len() == 0 {
        0
    } else {
        bits_value(bits.drop_last()) + if bits.last() {
            pow2((bits.len() - 1) as nat)
        } else {
            0
        }
    }
}

/// A buffer seen as one run of bits: bit `i` of the buffer is bit `i % 8` of
/// byte `i / 8`.
pub open spec fn bits_of(buf: Seq<u8>) -> Seq<bool> {
    Seq::new(8 * buf.len(), |i: int| bit_of(buf[i / 8] as nat, (i % 8) as nat))
}

/// The unsigned number held by the `width` bits that start at bit `offset`.
pub open spec fn field_value(buf: Seq<u8>, offset: int, width: int) -> nat {
    bits_value(bits_of(buf).subrange(offset, offset + width))
}

/// `bits` with the run that starts at `at` replaced by `run`.
pub open spec fn splice(bits: Seq<bool>, at: int, run: Seq<bool>) -> Seq<bool> {
    Seq::new(
        bits.len(),
        |i: int|
            if at <= i < at + run.len() {
                run[i - at]
            } else {
                bits[i]
            },
    )
}

/// `after` is `before` with the `width` low bits of `value` stored at bit
/// `offset`, and every other bit as it was.
pub open spec fn stores(before: Seq<u8>, after: Seq<u8>, offset: int, width: int, value: nat) -> bool {
    &&& after.len() == before.len()
    &&& bits_of(after) == splice(bits_of(before), offset, value_bits(value, width as nat))
}

/// A run of `n` bits spells a number below `2^n`.
pub proof fn lemma_bits_value_bound(bits: Seq<bool>)
    ensures
        bits_value(bits) < pow2(bits.len()),
    decreases bits.len(),
{
    if bits.len() == 0 {
        lemma2_to64();
    } else {
        lemma_bits_value_bound(bits.drop_last());
        lemma_pow2_unfold(bits.len());
    }
}

/// The `n` low bits of `v` spell `v` modulo `2^n`.
pub proof fn lemma_value_of_bits(v: nat, n: nat)
    ensures
        bits_value(value_bits(v, n)) == v % pow2(n),
    decreases n,
{
    if n == 0 {
        lemma2_to64();
    } else {
        let m = (n - 1) as nat;
        lemma_value_of_bits(v, m);
        assert(value_bits(v, n).drop_last() =~= value_bits(v, m));
        lemma_pow2_pos(m);
        lemma_pow2_unfold(n);
        lemma_mod_breakdown(v as int, pow2(m) as int, 2);
        assert(pow2(n) == pow2(m) * 2) by (nonlinear_arith)
            requires
                pow2(n) == 2 * pow2(m),
        ;
        let q = (v / pow2(m)) % 2;
        assert(pow2(m) * q == if q == 1 { pow2(m) } else { 0 }) by (nonlinear_arith)
            requires
                q == 0 || q == 1,
        ;
    }
}

/// A number below `2^n` is the number its `n` low bits spell.
pub proof fn lemma_value_of_bits_small(v: nat, n: nat)
    requires
        v < pow2(n),
    ensures
        bits_value(value_bits(v, n)) == v,
{
    lemma_value_of_bits(v, n);
    lemma_small_mod(v, pow2(n));
}

/// The number spelled by two runs laid end to end.
pub proof fn lemma_bits_value_concat(low: Seq<bool>, high: Seq<bool>)
    ensures
        bits_value(low + high) == bits_value(low) + pow2(low.len()) * bits_value(high),
    decreases high.len(),
{
    if high.len() == 0 {
        assert(low + high =~= low);
        assert(pow2(low.len()) * 0 == 0) by (nonlinear_arith);
    } else {
        let h = high.drop_last();
        lemma_bits_value_concat(low, h);
        assert((low + high).drop_last() =~= low + h);
        lemma_pow2_adds(low.len(), h.len());
        lemma_mul_is_distributive_add(
            pow2(low.len()) as int,
            bits_value(h) as int,
            pow2(h.len()) as int,
        );
        assert(pow2(low.len()) * 0 == 0) by (nonlinear_arith);
    }
}

/// Every bit of a run is the matching bit of the number the run spells.
pub proof fn lemma_bits_of_value(bits: Seq<bool>, j: int)
    requires
        0 <= j < bits.len(),
    ensures
        bit_of(bits_value(bits), j as nat) == bits[j],
    decreases bits.len(),
{
    let n = bits.len();
    let m = (n - 1) as nat;
    let low = bits.drop_last();
    let top: nat = if bits.last() { 1 } else { 0 };
    lemma_bits_value_bound(low);
    lemma_pow2_pos(m);
    assert(bits_value(bits) == pow2(m) * top + bits_value(low)) by (nonlinear_arith)
        requires
            bits_value(bits) == bits_value(low) + if bits.last() { pow2(m) } else { 0 },
            top == if bits.last() { 1nat } else { 0nat },
    ;
    if j == m {
        lemma_fundamental_div_mod_converse(
            bits_value(bits) as int,
            pow2(m) as int,
            top as int,
            bits_value(low) as int,
        );
    } else {
        lemma_bits_of_value(low, j);
        lemma_bit_of_low_part(bits_value(bits), m, j as nat);
        lemma_fundamental_div_mod_converse(
            bits_value(bits) as int,
            pow2(m) as int,
            top as int,
            bits_value(low) as int,
        );
    }
}

/// Bits below position `n` are those of the number modulo `2^n`.
pub proof fn lemma_bit_of_low_part(v: nat, n: nat, j: nat)
    requires
        j < n,
    ensures
        bit_of(v % pow2(n), j) == bit_of(v, j),
{
    let d = (n - j) as nat;
    lemma_pow2_pos(j);
    lemma_pow2_pos(d);
    lemma_pow2_adds(j, d);
    lemma_pow2_unfold(d);
    let e = (d - 1) as nat;
    lemma_pow2_pos(e);
    // v % (2^j * 2^d) == 2^j * ((v / 2^j) % 2^d) + v % 2^j
    lemma_mod_breakdown(v as int, pow2(j) as int, pow2(d) as int);
    let hi = (v / pow2(j)) % pow2(d);
    let lo = v % pow2(j);
    lemma_fundamental_div_mod_converse(
        (v % pow2(n)) as int,
        pow2(j) as int,
        hi as int,
        lo as int,
    );
    // hi % 2 == (v / 2^j) % 2, since 2 divides 2^d
    lemma_mod_breakdown((v / pow2(j)) as int, 2, pow2(e) as int);
    assert(pow2(d) == 2 * pow2(e));
    let w = v / pow2(j);
    assert(w % pow2(d) == 2 * ((w / 2) % pow2(e)) + w % 2);
}

/// The bits of the number that a run spells are the run itself.
pub proof fn lemma_bits_of_value_all(bits: Seq<bool>)
    ensures
        value_bits(bits_value(bits), bits.len()) == bits,
{
    assert forall|j: int| 0 <= j < bits.len() implies value_bits(bits_value(bits), bits.len())[j]
        == bits[j] by {
        lemma_bits_of_value(bits, j);
    }
    assert(value_bits(bits_value(bits), bits.len()) =~= bits);
}

/// A run of clear bits spells zero.
pub proof fn lemma_bits_value_zero(bits: Seq<bool>)
    requires
        forall|j: int| 0 <= j < bits.len() ==> !bits[j],
    ensures
        bits_value(bits) == 0,
    decreases bits.len(),
{
    if bits.len() > 0 {
        lemma_bits_value_zero(bits.drop_last());
    }
}

/// A number below `2^m` whose bits from position `n` up are clear is below
/// `2^n`.
pub proof fn lemma_clear_high_bits(v: nat, n: nat, m: nat)
    requires
        n <= m,
        v < pow2(m),
        forall|j: nat| n <= j < m ==> !bit_of(v, j),
    ensures
        v < pow2(n),
{
    let low = value_bits(v, n);
    let high = Seq::new((m - n) as nat, |j: int| bit_of(v, (n + j) as nat));
    assert(value_bits(v, m) =~= low + high);
    lemma_value_of_bits_small(v, m);
    lemma_bits_value_concat(low, high);
    lemma_bits_value_zero(high);
    assert(pow2(n) * 0 == 0) by (nonlinear_arith);
    lemma_bits_value_bound(low);
}

/// Bit `j` of `v / 2^s` is bit `s + j` of `v`.
pub proof fn lemma_bit_of_shifted(v: nat, s: nat, j: nat)
    ensures
        bit_of(v / pow2(s), j) == bit_of(v, s + j),
{
    lemma_pow2_pos(s);
    lemma_pow2_pos(j);
    lemma_pow2_adds(s, j);
    lemma_div_denominator(v as int, pow2(s) as int, pow2(j) as int);
}

/// A field read in two parts: the low part counts as it is, the high part
/// shifted past it.
pub proof fn lemma_field_value_split(buf: Seq<u8>, offset: int, low: int, high: int)
    requires
        0 <= offset,
        0 <= low,
        0 <= high,
        offset + low + high <= 8 * buf.len(),
    ensures
        field_value(buf, offset, low + high) == field_value(buf, offset, low) + pow2(low as nat)
            * field_value(buf, offset + low, high),
{
    let bits = bits_of(buf);
    assert(bits.subrange(offset, offset + low + high) =~= bits.subrange(offset, offset + low)
        + bits.subrange(offset + low, offset + low + high));
    lemma_bits_value_concat(
        bits.subrange(offset, offset + low),
        bits.subrange(offset + low, offset + low + high),
    );
}

/// Storing a value piece by piece: once its `done` low bits are in place,
/// storing the next `n` bits right behind them leaves its `done + n` low bits
/// in place.
pub proof fn lemma_stores_extend(
    before: Seq<u8>,
    mid: Seq<u8>,
    after: Seq<u8>,
    offset: int,
    done: int,
    n: int,
    value: nat,
    piece: nat,
)
    requires
        0 <= offset,
        0 <= done,
        0 <= n,
        offset + done + n <= 8 * before.len(),
        stores(before, mid, offset, done, value),
        stores(mid, after, offset + done, n, piece),
        forall|j: nat| j < n ==> bit_of(piece, j) == bit_of(value, done as nat + j),
    ensures
        stores(before, after, offset, done + n, value),
{
    let want = splice(bits_of(before), offset, value_bits(value, (done + n) as nat));
    assert forall|i: int| 0 <= i < 8 * before.len() implies bits_of(after)[i] == want[i] by {
        if offset + done <= i < offset + done + n {
            let j = (i - offset - done) as nat;
            assert(bit_of(piece, j) == bit_of(value, done as nat + j));
        }
    }
    assert(bits_of(after) =~= want);
}

} // verus!
