//! Bounded enumerations: closed sets of discriminants `0, 1, .., k - 1` with
//! `k` a power of two, so that a field of `log2(k)` bits holds a variant
//! whatever its bit pattern.

use vstd::prelude::*;
use vstd::arithmetic::power2::{
    lemma2_to64, lemma_pow2_pos, lemma_pow2_strictly_increases, lemma_pow2_unfold, pow2,
};
use vstd::bits::{lemma_u64_shl_is_mul, lemma_u64_pow2_no_overflow};
use crate::codec;
use crate::model::{field_value, stores};

verus! {

/// Why an enumeration cannot be a field.
#[derive(Clone, Copy, Debug, PartialEq, Eq)]
pub enum SchemaError {
    /// The number of variants is not a power of two.
    VariantCountNotPowerOfTwo,
    /// A variant was declared with a number that is not below the number of
    /// variants.
    DiscriminantOutOfDeclaredRange,
}

/// Why a number read from a buffer is no variant.
#[derive(Clone, Copy, Debug, PartialEq, Eq)]
pub enum DecodeError {
    /// The number is not below the number of variants.
    DiscriminantOutOfRange,
}

/// `k` is `2^n` for some `n`.
pub open spec fn is_power_of_two(k: nat) -> bool {
    exists|n: nat| k == pow2(n)
}

/// Powers of two are told apart by their exponents.
pub proof fn lemma_pow2_injective(a: nat, b: nat)
    requires
        pow2(a) == pow2(b),
    ensures
        a == b,
{
    if a < b {
        lemma_pow2_strictly_increases(a, b);
    } else if b < a {
        lemma_pow2_strictly_increases(b, a);
    }
}

/// A power of two that fits in 64 bits is not zero and shares no bit with its
/// predecessor.
proof fn lemma_power_passes_test(n: nat)
    requires
        pow2(n) <= u64::MAX,
    ensures
        pow2(n) != 0,
        (pow2(n) as u64) & ((pow2(n) - 1) as u64) == 0,
{
    lemma_pow2_pos(n);
    lemma2_to64();
    if n >= 64 {
        if n > 64 {
            lemma_pow2_strictly_increases(64, n);
        }
    } else {
        let s = n as u64;
        lemma_u64_pow2_no_overflow(n);
        lemma_u64_shl_is_mul(1, s);
        let q = 1u64 << s;
        assert(q & ((q - 1) as u64) == 0) by (bit_vector)
            requires
                q == 1u64 << s,
                s < 64,
        ;
    }
}

/// Halving a number above one that shares no bit with its predecessor gives
/// another such number, and loses nothing.
proof fn lemma_halve(q: u64)
    by (bit_vector)
    requires
        q > 1,
        q & ((q - 1) as u64) == 0,
    ensures
        q >> 1usize != 0,
        (q >> 1usize) & (((q >> 1usize) - 1) as u64) == 0,
        q == 2 * (q >> 1usize),
{
}

/// The width in bits of a field that holds an enumeration of `p` variants:
/// `log2(p)` when `p` is a power of two, nothing otherwise.
pub fn bit_size(p: usize) -> (r: Option<usize>)
    ensures
        r is Some <==> is_power_of_two(p as nat),
        r matches Some(n) ==> p == pow2(n as nat) && n < 64,
{
    let start: u64 = p as u64;
    if start != 0 && (start & (start - 1)) == 0 {
        let mut q: u64 = start;
        let mut ret: usize = 0;
        proof {
            lemma2_to64();
            assert(q * pow2(0) == q);
        }
        while q != 1
            invariant
                q != 0,
                q & ((q - 1) as u64) == 0,
                p == q * pow2(ret as nat),
                ret < 64,
            decreases q,
        {
            proof {
                lemma_halve(q);
                lemma_pow2_unfold((ret + 1) as nat);
                let half = q >> 1usize;
                assert(q * pow2(ret as nat) == half * pow2((ret + 1) as nat)) by (nonlinear_arith)
                    requires
                        q == 2 * half,
                        pow2((ret + 1) as nat) == 2 * pow2(ret as nat),
                ;
                if ret >= 63 {
                    lemma2_to64();
                    if ret > 63 {
                        lemma_pow2_strictly_increases(64, (ret + 1) as nat);
                    }
                    assert(half * pow2((ret + 1) as nat) >= pow2((ret + 1) as nat))
                        by (nonlinear_arith)
                        requires
                            half >= 1,
                    ;
                }
            }
            ret = ret + 1;
            q = q >> 1;
        }
        proof {
            assert(1 * pow2(ret as nat) == pow2(ret as nat));
        }
        Some(ret)
    } else {
        proof {
            if is_power_of_two(p as nat) {
                let n = choose|n: nat| p as nat == pow2(n);
                lemma_power_passes_test(n);
            }
        }
        None
    }
}


/// What the engine knows of an enumeration: how many variants it has and how
/// many bits a field of it takes.
#[derive(Clone, Copy, Debug, PartialEq, Eq)]
pub struct BoundedEnum {
    /// The number of variants, `k`; the discriminants are `0, .., k - 1`.
    pub variants: usize,
    /// The width of a field of the enumeration, in bits.
    pub bits: usize,
}

impl BoundedEnum {
    /// The number of variants is two to the number of bits, so that every bit
    /// pattern of a field is a discriminant.
    pub open spec fn wf(&self) -> bool {
        self.bits < 64 && self.variants == pow2(self.bits as nat)
    }

    /// What decoding the number `raw` gives: the number itself if it is a
    /// discriminant, an error if it is not.
    pub open spec fn decoded(&self, raw: nat) -> Result<u64, DecodeError> {
        if raw < self.variants {
            Ok(raw as u64)
        } else {
            Err(DecodeError::DiscriminantOutOfRange)
        }
    }

    /// Whether an enumeration can be registered whose variants were declared
    /// with the given numbers: their count is a power of two, and each
    /// number is below the count.
    pub open spec fn registers(discriminants: Seq<u64>) -> bool {
        &&& is_power_of_two(discriminants.len())
        &&& forall|i: int| 0 <= i < discriminants.len() ==> discriminants[i] < discriminants.len()
    }

    /// Why such an enumeration cannot be registered. The count of variants is
    /// looked at first.
    pub open spec fn refusal(discriminants: Seq<u64>) -> SchemaError {
        if is_power_of_two(discriminants.len()) {
            SchemaError::DiscriminantOutOfDeclaredRange
        } else {
            SchemaError::VariantCountNotPowerOfTwo
        }
    }

    /// Registers an enumeration whose variants were declared with the given
    /// numbers, one for each variant.
    pub fn register(discriminants: &[u64]) -> (r: Result<BoundedEnum, SchemaError>)
        ensures
            r is Ok <==> BoundedEnum::registers(discriminants@),
            r matches Ok(e) ==> e.wf() && e.variants == discriminants@.len(),
            r matches Err(e) ==> e == BoundedEnum::refusal(discriminants@),
    {
        let k: usize = discriminants.len();
        match bit_size(k) {
            None => Err(SchemaError::VariantCountNotPowerOfTwo),
            Some(bits) => {
                let mut i: usize = 0;
                while i < k
                    invariant
                        i <= k,
                        k == discriminants@.len(),
                        is_power_of_two(k as nat),
                        forall|j: int| 0 <= j < i ==> discriminants@[j] < k,
                    decreases k - i,
                {
                    if discriminants[i] >= k as u64 {
                        return Err(SchemaError::DiscriminantOutOfDeclaredRange);
                    }
                    i = i + 1;
                }
                Ok(BoundedEnum { variants: k, bits })
            },
        }
    }

    /// The size in bytes of the enumeration's native representation: the
    /// narrowest native integer that holds its bits, and nothing at all for
    /// an enumeration of one variant.
    pub fn size(&self) -> (n: usize)
        requires
            self.bits <= 64,
        ensures
            self.bits == 0 ==> n == 0,
            self.bits > 0 ==> 8 * n == codec::container_bits(self.bits as nat),
    {
        if self.bits == 0 {
            0
        } else {
            codec::container_for(self.bits).bytes()
        }
    }

    /// Checks that a number read from a buffer is a discriminant.
    pub fn decode(&self, raw: u64) -> (r: Result<u64, DecodeError>)
        ensures
            r == self.decoded(raw as nat),
    {
        if raw < self.variants as u64 {
            Ok(raw)
        } else {
            Err(DecodeError::DiscriminantOutOfRange)
        }
    }

    /// Reads the field of this enumeration that starts at bit `buf_idx` and
    /// checks that it holds a discriminant. For a registered enumeration it
    /// always does.
    pub fn get(&self, buf: &[u8], buf_idx: usize) -> (r: Result<u64, DecodeError>)
        requires
            self.bits <= 64,
            buf_idx + self.bits <= 8 * buf@.len(),
            buf_idx + self.bits <= usize::MAX,
        ensures
            r == self.decoded(field_value(buf@, buf_idx as int, self.bits as int)),
            self.wf() ==> r is Ok,
    {
        let raw: u64 = codec::get(buf, buf_idx, self.bits);
        self.decode(raw)
    }

    /// Writes a discriminant into the field of this enumeration that starts
    /// at bit `buf_idx`.
    pub fn set(&self, buf: &mut [u8], buf_idx: usize, discriminant: u64)
        requires
            self.bits <= 64,
            buf_idx + self.bits <= 8 * old(buf)@.len(),
            buf_idx + self.bits <= usize::MAX,
        ensures
            stores(
                old(buf)@,
                final(buf)@,
                buf_idx as int,
                self.bits as int,
                discriminant as nat,
            ),
    {
        codec::set(buf, buf_idx, self.bits, discriminant);
    }
}

} // verus!

