//! A packed structure written out in full: one entry of an interrupt
//! redirection table, four fields in one byte.
//!
//! | bits | field            | type           |
//! |------|------------------|----------------|
//! | 0    | `acknowledged`   | `bool`         |
//! | 1    | `trigger_mode`   | `TriggerMode`  |
//! | 2..5 | `delivery_mode`  | `DeliveryMode` |
//! | 5..8 | `reserved`       | `B<3>`         |

use vstd::prelude::*;
use vstd::arithmetic::power2::{pow2, lemma2_to64};
use vstd::pervasive::unreached;
use crate::codec;
use crate::enumeration::{is_power_of_two, lemma_pow2_injective, BoundedEnum, DecodeError};
use crate::laws::{lemma_non_disturbance, lemma_round_trip, lemma_zero_buffer};
use crate::model::{bits_of, field_value, lemma_bits_value_bound, stores};
use crate::specifier::{Specifier, B};

verus! {

/// How an interrupt line signals.
#[derive(Clone, Copy, Debug, PartialEq, Eq, Structural)]
pub enum TriggerMode {
    Edge,
    Level,
}

/// How an interrupt is delivered.
#[derive(Clone, Copy, Debug, PartialEq, Eq, Structural)]
pub enum DeliveryMode {
    Fixed,
    Lowest,
    SMI,
    RemoteRead,
    NMI,
    Init,
    Startup,
    External,
}

impl TriggerMode {
    /// The number a variant is stored as.
    pub open spec fn number(self) -> nat {
        match self {
            TriggerMode::Edge => 0,
            TriggerMode::Level => 1,
        }
    }

    /// The variant that a one-bit field holds.
    pub open spec fn of(raw: nat) -> TriggerMode {
        if raw == 0 {
            TriggerMode::Edge
        } else {
            TriggerMode::Level
        }
    }

    /// The number a variant is stored as.
    pub fn discriminant(self) -> (n: u64)
        ensures
            n == self.number(),
    {
        match self {
            TriggerMode::Edge => 0,
            TriggerMode::Level => 1,
        }
    }

    /// The variant stored as `raw`, if there is one.
    pub fn from_discriminant(raw: u64) -> (r: Result<TriggerMode, DecodeError>)
        ensures
            r is Ok <==> raw < 2,
            r matches Ok(mode) ==> mode.number() == raw && mode == TriggerMode::of(raw as nat),
            r matches Err(e) ==> e == DecodeError::DiscriminantOutOfRange,
    {
        if raw == 0 {
            Ok(TriggerMode::Edge)
        } else if raw == 1 {
            Ok(TriggerMode::Level)
        } else {
            Err(DecodeError::DiscriminantOutOfRange)
        }
    }

    /// The enumeration as the engine sees it: two variants, one bit.
    pub fn schema() -> (e: BoundedEnum)
        ensures
            e.wf(),
            e.variants == 2,
            e.bits == TriggerMode::bits(),
    {
        let declared: [u64; 2] = [
            TriggerMode::Edge.discriminant(),
            TriggerMode::Level.discriminant(),
        ];
        proof {
            lemma2_to64();
            assert(2nat == pow2(1));
            assert(is_power_of_two(2));
        }
        match BoundedEnum::register(&declared) {
            Ok(e) => {
                proof {
                    lemma_pow2_injective(e.bits as nat, 1);
                }
                e
            },
            Err(_) => unreached(),
        }
    }
}

impl Specifier for TriggerMode {
    const BITS: usize = 1;

    const SIZE: usize = 1;

    type Container = TriggerMode;

    open spec fn bits() -> nat {
        1
    }

    proof fn lemma_bits() {
    }

    open spec fn raw(data: TriggerMode) -> nat {
        data.number()
    }

    proof fn lemma_raw_injective(a: TriggerMode, b: TriggerMode) {
    }

    fn get(buf: &[u8], buf_idx: usize) -> (data: TriggerMode) {
        let raw: u64 = codec::get(buf, buf_idx, 1);
        proof {
            lemma2_to64();
        }
        match TriggerMode::from_discriminant(raw) {
            Ok(mode) => mode,
            Err(_) => unreached(),
        }
    }

    fn set(buf: &mut [u8], buf_idx: usize, data: TriggerMode) {
        codec::set(buf, buf_idx, 1, data.discriminant());
    }
}

impl DeliveryMode {
    /// The number a variant is stored as.
    pub open spec fn number(self) -> nat {
        match self {
            DeliveryMode::Fixed => 0,
            DeliveryMode::Lowest => 1,
            DeliveryMode::SMI => 2,
            DeliveryMode::RemoteRead => 3,
            DeliveryMode::NMI => 4,
            DeliveryMode::Init => 5,
            DeliveryMode::Startup => 6,
            DeliveryMode::External => 7,
        }
    }

    /// The variant that a three-bit field holds.
    pub open spec fn of(raw: nat) -> DeliveryMode {
        if raw == 0 {
            DeliveryMode::Fixed
        } else if raw == 1 {
            DeliveryMode::Lowest
        } else if raw == 2 {
            DeliveryMode::SMI
        } else if raw == 3 {
            DeliveryMode::RemoteRead
        } else if raw == 4 {
            DeliveryMode::NMI
        } else if raw == 5 {
            DeliveryMode::Init
        } else if raw == 6 {
            DeliveryMode::Startup
        } else {
            DeliveryMode::External
        }
    }

    /// The number a variant is stored as.
    pub fn discriminant(self) -> (n: u64)
        ensures
            n == self.number(),
    {
        match self {
            DeliveryMode::Fixed => 0,
            DeliveryMode::Lowest => 1,
            DeliveryMode::SMI => 2,
            DeliveryMode::RemoteRead => 3,
            DeliveryMode::NMI => 4,
            DeliveryMode::Init => 5,
            DeliveryMode::Startup => 6,
            DeliveryMode::External => 7,
        }
    }

    /// The variant stored as `raw`, if there is one.
    pub fn from_discriminant(raw: u64) -> (r: Result<DeliveryMode, DecodeError>)
        ensures
            r is Ok <==> raw < 8,
            r matches Ok(mode) ==> mode.number() == raw && mode == DeliveryMode::of(raw as nat),
            r matches Err(e) ==> e == DecodeError::DiscriminantOutOfRange,
    {
        if raw == 0 {
            Ok(DeliveryMode::Fixed)
        } else if raw == 1 {
            Ok(DeliveryMode::Lowest)
        } else if raw == 2 {
            Ok(DeliveryMode::SMI)
        } else if raw == 3 {
            Ok(DeliveryMode::RemoteRead)
        } else if raw == 4 {
            Ok(DeliveryMode::NMI)
        } else if raw == 5 {
            Ok(DeliveryMode::Init)
        } else if raw == 6 {
            Ok(DeliveryMode::Startup)
        } else if raw == 7 {
            Ok(DeliveryMode::External)
        } else {
            Err(DecodeError::DiscriminantOutOfRange)
        }
    }

    /// The enumeration as the engine sees it: eight variants, three bits.
    pub fn schema() -> (e: BoundedEnum)
        ensures
            e.wf(),
            e.variants == 8,
            e.bits == DeliveryMode::bits(),
    {
        let declared: [u64; 8] = [
            DeliveryMode::Fixed.discriminant(),
            DeliveryMode::Lowest.discriminant(),
            DeliveryMode::SMI.discriminant(),
            DeliveryMode::RemoteRead.discriminant(),
            DeliveryMode::NMI.discriminant(),
            DeliveryMode::Init.discriminant(),
            DeliveryMode::Startup.discriminant(),
            DeliveryMode::External.discriminant(),
        ];
        proof {
            lemma2_to64();
            assert(8nat == pow2(3));
            assert(is_power_of_two(8));
        }
        match BoundedEnum::register(&declared) {
            Ok(e) => {
                proof {
                    lemma_pow2_injective(e.bits as nat, 3);
                }
                e
            },
            Err(_) => unreached(),
        }
    }
}

impl Specifier for DeliveryMode {
    const BITS: usize = 3;

    const SIZE: usize = 1;

    type Container = DeliveryMode;

    open spec fn bits() -> nat {
        3
    }

    proof fn lemma_bits() {
    }

    open spec fn raw(data: DeliveryMode) -> nat {
        data.number()
    }

    proof fn lemma_raw_injective(a: DeliveryMode, b: DeliveryMode) {
    }

    fn get(buf: &[u8], buf_idx: usize) -> (data: DeliveryMode) {
        let raw: u64 = codec::get(buf, buf_idx, 3);
        proof {
            lemma2_to64();
        }
        match DeliveryMode::from_discriminant(raw) {
            Ok(mode) => mode,
            Err(_) => unreached(),
        }
    }

    fn set(buf: &mut [u8], buf_idx: usize, data: DeliveryMode) {
        codec::set(buf, buf_idx, 3, data.discriminant());
    }
}


/// The four fields of an entry, unpacked.
pub struct RedirectionFields {
    pub acknowledged: bool,
    pub trigger_mode: TriggerMode,
    pub delivery_mode: DeliveryMode,
    pub reserved: u64,
}

/// The fields that a packed entry holds.
pub open spec fn unpack(bytes: Seq<u8>) -> RedirectionFields {
    RedirectionFields {
        acknowledged: field_value(bytes, 0, 1) == 1,
        trigger_mode: TriggerMode::of(field_value(bytes, 1, 1)),
        delivery_mode: DeliveryMode::of(field_value(bytes, 2, 3)),
        reserved: field_value(bytes, 5, 3) as u64,
    }
}

/// One entry of the redirection table, packed into one byte.
#[derive(Debug)]
pub struct RedirectionTableEntry {
    data: [u8; 1],
}

impl View for RedirectionTableEntry {
    type V = RedirectionFields;

    open spec fn view(&self) -> RedirectionFields {
        unpack(self.bytes())
    }
}

impl RedirectionTableEntry {
    /// The packed entry, byte by byte.
    pub closed spec fn bytes(&self) -> Seq<u8> {
        self.data@
    }

    /// An entry has one byte.
    pub proof fn lemma_one_byte(&self)
        ensures
            self.bytes().len() == 1,
    {
    }

    /// An entry with every field zero.
    pub fn new() -> (entry: Self)
        ensures
            entry.bytes() == seq![0u8],
            entry@ == (RedirectionFields {
                acknowledged: false,
                trigger_mode: TriggerMode::Edge,
                delivery_mode: DeliveryMode::Fixed,
                reserved: 0,
            }),
    {
        let entry = RedirectionTableEntry { data: [0u8; 1] };
        proof {
            assert(entry.data@ =~= seq![0u8]);
            lemma_zero_buffer(entry.data@, 0, 1);
            lemma_zero_buffer(entry.data@, 1, 1);
            lemma_zero_buffer(entry.data@, 2, 3);
            lemma_zero_buffer(entry.data@, 5, 3);
        }
        entry
    }

    /// The packed entry.
    pub fn to_bytes(&self) -> (bytes: [u8; 1])
        ensures
            bytes@ == self.bytes(),
    {
        self.data
    }

    /// The bit at which `acknowledged` starts.
    fn acknowledged_idx(&self) -> (idx: usize)
        ensures
            idx == 0,
    {
        0
    }

    /// The bit at which `trigger_mode` starts: past the fields before it.
    fn trigger_mode_idx(&self) -> (idx: usize)
        ensures
            idx == 1,
    {
        proof {
            <bool as Specifier>::lemma_bits();
        }
        let prev_sum: usize = <bool as Specifier>::BITS;
        prev_sum
    }

    /// The bit at which `delivery_mode` starts: past the fields before it.
    fn delivery_mode_idx(&self) -> (idx: usize)
        ensures
            idx == 2,
    {
        proof {
            <bool as Specifier>::lemma_bits();
            <TriggerMode as Specifier>::lemma_bits();
        }
        let prev_sum: usize = <bool as Specifier>::BITS + <TriggerMode as Specifier>::BITS;
        prev_sum
    }

    /// The bit at which `reserved` starts: past the fields before it.
    fn reserved_idx(&self) -> (idx: usize)
        ensures
            idx == 5,
    {
        proof {
            <bool as Specifier>::lemma_bits();
            <TriggerMode as Specifier>::lemma_bits();
            <DeliveryMode as Specifier>::lemma_bits();
        }
        let prev_sum: usize = <bool as Specifier>::BITS + <TriggerMode as Specifier>::BITS
            + <DeliveryMode as Specifier>::BITS;
        prev_sum
    }

    /// Reads `acknowledged`.
    pub fn get_acknowledged(&self) -> (data: bool)
        ensures
            data == self@.acknowledged,
    {
        let buf_idx = self.acknowledged_idx();
        <bool as Specifier>::get(&self.data, buf_idx)
    }

    /// Writes `acknowledged`; the other fields stay as they were.
    pub fn set_acknowledged(&mut self, data: bool)
        ensures
            final(self)@ == (RedirectionFields { acknowledged: data, ..old(self)@ }),
            stores(old(self).bytes(), final(self).bytes(), 0, 1, <bool as Specifier>::raw(data)),
    {
        let buf_idx = self.acknowledged_idx();
        <bool as Specifier>::set(&mut self.data, buf_idx, data);
        proof {
            let before = old(self).bytes();
            let after = self.bytes();
            let raw = <bool as Specifier>::raw(data);
            lemma2_to64();
            lemma_round_trip(before, after, 0, 1, raw);
            lemma_non_disturbance(before, after, 0, 1, raw, 1, 1);
            lemma_non_disturbance(before, after, 0, 1, raw, 2, 3);
            lemma_non_disturbance(before, after, 0, 1, raw, 5, 3);
        }
    }

    /// Reads `trigger_mode`.
    pub fn get_trigger_mode(&self) -> (data: TriggerMode)
        ensures
            data == self@.trigger_mode,
    {
        let buf_idx = self.trigger_mode_idx();
        <TriggerMode as Specifier>::get(&self.data, buf_idx)
    }

    /// Writes `trigger_mode`; the other fields stay as they were.
    pub fn set_trigger_mode(&mut self, data: TriggerMode)
        ensures
            final(self)@ == (RedirectionFields { trigger_mode: data, ..old(self)@ }),
            stores(old(self).bytes(), final(self).bytes(), 1, 1, data.number()),
    {
        let buf_idx = self.trigger_mode_idx();
        <TriggerMode as Specifier>::set(&mut self.data, buf_idx, data);
        proof {
            let before = old(self).bytes();
            let after = self.bytes();
            lemma2_to64();
            lemma_round_trip(before, after, 1, 1, data.number());
            lemma_non_disturbance(before, after, 1, 1, data.number(), 0, 1);
            lemma_non_disturbance(before, after, 1, 1, data.number(), 2, 3);
            lemma_non_disturbance(before, after, 1, 1, data.number(), 5, 3);
        }
    }

    /// Reads `delivery_mode`.
    pub fn get_delivery_mode(&self) -> (data: DeliveryMode)
        ensures
            data == self@.delivery_mode,
    {
        let buf_idx = self.delivery_mode_idx();
        <DeliveryMode as Specifier>::get(&self.data, buf_idx)
    }

    /// Writes `delivery_mode`; the other fields stay as they were.
    pub fn set_delivery_mode(&mut self, data: DeliveryMode)
        ensures
            final(self)@ == (RedirectionFields { delivery_mode: data, ..old(self)@ }),
            stores(old(self).bytes(), final(self).bytes(), 2, 3, data.number()),
    {
        let buf_idx = self.delivery_mode_idx();
        <DeliveryMode as Specifier>::set(&mut self.data, buf_idx, data);
        proof {
            let before = old(self).bytes();
            let after = self.bytes();
            lemma2_to64();
            lemma_round_trip(before, after, 2, 3, data.number());
            lemma_non_disturbance(before, after, 2, 3, data.number(), 0, 1);
            lemma_non_disturbance(before, after, 2, 3, data.number(), 1, 1);
            lemma_non_disturbance(before, after, 2, 3, data.number(), 5, 3);
        }
    }

    /// Reads `reserved`.
    pub fn get_reserved(&self) -> (data: u64)
        ensures
            data == self@.reserved,
            data < 8,
    {
        let buf_idx = self.reserved_idx();
        let data = <B<3> as Specifier>::get(&self.data, buf_idx);
        proof {
            lemma2_to64();
            lemma_bits_value_bound(bits_of(self.bytes()).subrange(5, 8));
        }
        data
    }

    /// Writes the three low bits of `data` into `reserved`; its higher bits
    /// are dropped, and the other fields stay as they were.
    pub fn set_reserved(&mut self, data: u64)
        ensures
            final(self)@ == (RedirectionFields { reserved: data % 8, ..old(self)@ }),
            stores(old(self).bytes(), final(self).bytes(), 5, 3, data as nat),
    {
        let buf_idx = self.reserved_idx();
        <B<3> as Specifier>::set(&mut self.data, buf_idx, data);
        proof {
            let before = old(self).bytes();
            let after = self.bytes();
            lemma2_to64();
            lemma_round_trip(before, after, 5, 3, data as nat);
            lemma_non_disturbance(before, after, 5, 3, data as nat, 0, 1);
            lemma_non_disturbance(before, after, 5, 3, data as nat, 1, 1);
            lemma_non_disturbance(before, after, 5, 3, data as nat, 2, 3);
        }
    }
}

} // verus!
