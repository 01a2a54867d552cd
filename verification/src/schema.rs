//! Schemas: the ordered fields of a packed structure, validated once, from
//! which offsets and buffer size follow.

use vstd::prelude::*;
use crate::codec;
use crate::enumeration::{BoundedEnum, DecodeError, SchemaError};
use crate::laws::{lemma_non_disturbance, lemma_zero_buffer};
use crate::layout::{bits_before, total_bits, lemma_fields_in_order, LayoutError};
use crate::model::{field_value, stores};

verus! {

/// What a field holds.
#[derive(Clone, Copy, Debug, PartialEq, Eq)]
pub enum FieldKind {
    /// An unsigned integer.
    Unsigned,
    /// A truth value, one bit wide.
    Boolean,
    /// A variant of a bounded enumeration.
    Enumeration(BoundedEnum),
}

/// One field of a schema. Its ordinal is its position in the schema.
#[derive(Clone, Copy, Debug, PartialEq, Eq)]
pub struct FieldDescriptor {
    /// The width of the field, in bits.
    pub width: usize,
    /// What the field holds.
    pub kind: FieldKind,
}

impl FieldDescriptor {
    /// The width suits the kind: 1 to 64 bits for an unsigned integer, one
    /// bit for a truth value, and for an enumeration the bits that its
    /// variants take.
    pub open spec fn wf(&self) -> bool {
        match self.kind {
            FieldKind::Unsigned => 1 <= self.width <= 64,
            FieldKind::Boolean => self.width == 1,
            FieldKind::Enumeration(e) => e.wf() && self.width == e.bits,
        }
    }

    /// An unsigned field of `width` bits, if `width` is from 1 to 64.
    pub fn unsigned(width: usize) -> (r: Option<FieldDescriptor>)
        ensures
            r is Some <==> 1 <= width <= 64,
            r matches Some(d) ==> d.wf() && d.width == width && d.kind == FieldKind::Unsigned,
    {
        if width == 0 || width > 64 {
            None
        } else {
            Some(FieldDescriptor { width, kind: FieldKind::Unsigned })
        }
    }

    /// A field of one bit that holds a truth value.
    pub fn boolean() -> (d: FieldDescriptor)
        ensures
            d.wf(),
            d.width == 1,
            d.kind == FieldKind::Boolean,
    {
        FieldDescriptor { width: 1, kind: FieldKind::Boolean }
    }

    /// A field that holds a variant of the enumeration whose variants were
    /// declared with the given numbers. The enumeration is registered first,
    /// and the field exists only if the registration succeeds.
    pub fn enumeration(discriminants: &[u64]) -> (r: Result<FieldDescriptor, SchemaError>)
        ensures
            r is Ok <==> BoundedEnum::registers(discriminants@),
            r matches Ok(d) ==> d.wf() && (d.kind matches FieldKind::Enumeration(e)
                && e.variants == discriminants@.len()),
            r matches Err(e) ==> e == BoundedEnum::refusal(discriminants@),
    {
        match BoundedEnum::register(discriminants) {
            Ok(e) => Ok(FieldDescriptor { width: e.bits, kind: FieldKind::Enumeration(e) }),
            Err(e) => Err(e),
        }
    }

    /// The size in bytes of the native representation of the field's value:
    /// the narrowest native integer that holds the field, one byte for a
    /// truth value, and the enumeration's own size for a variant.
    pub fn size(&self) -> (n: usize)
        requires
            self.wf(),
        ensures
            self.width == 0 ==> n == 0,
            self.width > 0 ==> 8 * n == codec::container_bits(self.width as nat),
    {
        match self.kind {
            FieldKind::Unsigned => codec::container_for(self.width).bytes(),
            FieldKind::Boolean => 1,
            FieldKind::Enumeration(e) => e.size(),
        }
    }
}


/// The widths of the fields, in order.
pub open spec fn widths_of(fields: Seq<FieldDescriptor>) -> Seq<usize> {
    Seq::new(fields.len(), |i: int| fields[i].width)
}

/// The ordered fields of one packed structure. A schema exists only for
/// fields that fill a whole number of bytes.
#[derive(Debug)]
pub struct Schema {
    fields: Vec<FieldDescriptor>,
}

impl View for Schema {
    type V = Seq<FieldDescriptor>;

    closed spec fn view(&self) -> Seq<FieldDescriptor> {
        self.fields@
    }
}

impl Schema {
    /// Every field is well formed, and together the fields fill a whole
    /// number of bytes.
    pub open spec fn wf(&self) -> bool {
        &&& forall|i: int| 0 <= i < self@.len() ==> (#[trigger] self@[i]).wf()
        &&& total_bits(widths_of(self@)) % 8 == 0
        &&& total_bits(widths_of(self@)) <= usize::MAX
    }

    /// The bit at which field `i` starts: the sum of the widths before it.
    pub open spec fn offset_of(&self, i: int) -> int {
        bits_before(widths_of(self@), i)
    }

    /// The width of field `i`.
    pub open spec fn width_of(&self, i: int) -> int {
        self@[i].width as int
    }

    /// The length in bytes of a buffer for this schema.
    pub open spec fn byte_len(&self) -> int {
        total_bits(widths_of(self@)) / 8
    }

    /// The value of field `i` in a buffer.
    pub open spec fn value_of(&self, buf: Seq<u8>, i: int) -> nat {
        field_value(buf, self.offset_of(i), self.width_of(i))
    }

    /// Field `i` lies inside a buffer for this schema, and apart from every
    /// other field.
    pub proof fn lemma_field_in_place(&self, i: int, j: int)
        requires
            self.wf(),
            0 <= i < self@.len(),
            0 <= j < self@.len(),
        ensures
            0 <= self.offset_of(i),
            self.width_of(i) <= 64,
            self.offset_of(i) + self.width_of(i) <= 8 * self.byte_len(),
            self.offset_of(i) + self.width_of(i) <= usize::MAX,
            i < j ==> self.offset_of(i) + self.width_of(i) <= self.offset_of(j),
    {
        let widths = widths_of(self@);
        lemma_fields_in_order(widths, i, self@.len() as int);
        lemma_fields_in_order(widths, i + 1, self@.len() as int);
        if i < j {
            lemma_fields_in_order(widths, i, j);
        }
        assert(self@[i].wf());
    }

    /// Builds the schema of the given fields, in order. The schema exists
    /// exactly when the widths add up to a whole number of bytes.
    pub fn new(fields: Vec<FieldDescriptor>) -> (r: Result<Schema, LayoutError>)
        requires
            forall|i: int| 0 <= i < fields@.len() ==> (#[trigger] fields@[i]).wf(),
            total_bits(widths_of(fields@)) <= usize::MAX,
        ensures
            r is Ok <==> total_bits(widths_of(fields@)) % 8 == 0,
            r matches Ok(schema) ==> schema@ == fields@ && schema.wf(),
            r matches Err(e) ==> e == LayoutError::Unaligned,
    {
        let ghost widths = widths_of(fields@);
        let mut sum: usize = 0;
        let mut i: usize = 0;
        while i < fields.len()
            invariant
                i <= fields@.len(),
                widths == widths_of(fields@),
                total_bits(widths) <= usize::MAX,
                sum == bits_before(widths, i as int),
            decreases fields@.len() - i,
        {
            proof {
                lemma_fields_in_order(widths, i as int, fields@.len() as int);
                lemma_fields_in_order(widths, i + 1, fields@.len() as int);
            }
            sum = sum + fields[i].width;
            i = i + 1;
        }
        if sum % 8 != 0 {
            Err(LayoutError::Unaligned)
        } else {
            Ok(Schema { fields })
        }
    }

    /// The number of fields.
    pub fn len(&self) -> (n: usize)
        ensures
            n == self@.len(),
    {
        self.fields.len()
    }

    /// Field `i`.
    pub fn field(&self, i: usize) -> (d: FieldDescriptor)
        requires
            i < self@.len(),
        ensures
            d == self@[i as int],
    {
        self.fields[i]
    }

    /// The bit at which field `i` starts. With `i` the number of fields, the
    /// bit at which the last field ends.
    pub fn offset(&self, i: usize) -> (offset: usize)
        requires
            self.wf(),
            i <= self@.len(),
        ensures
            offset == self.offset_of(i as int),
    {
        let ghost widths = widths_of(self@);
        let mut sum: usize = 0;
        let mut j: usize = 0;
        while j < i
            invariant
                j <= i <= self@.len(),
                widths == widths_of(self@),
                total_bits(widths) <= usize::MAX,
                sum == bits_before(widths, j as int),
            decreases i - j,
        {
            proof {
                lemma_fields_in_order(widths, j as int, self@.len() as int);
                lemma_fields_in_order(widths, j + 1, self@.len() as int);
            }
            sum = sum + self.fields[j].width;
            j = j + 1;
        }
        sum
    }

    /// The length in bytes of a buffer for this schema.
    pub fn total_bytes(&self) -> (n: usize)
        requires
            self.wf(),
        ensures
            n == self.byte_len(),
    {
        self.offset(self.fields.len()) / 8
    }

    /// A buffer for this schema, every field zero.
    pub fn new_buffer(&self) -> (buf: Vec<u8>)
        requires
            self.wf(),
        ensures
            buf@.len() == self.byte_len(),
            forall|at: int| 0 <= at < buf@.len() ==> buf@[at] == 0,
            forall|i: int| 0 <= i < self@.len() ==> self.value_of(buf@, i) == 0,
    {
        let n: usize = self.total_bytes();
        let mut buf: Vec<u8> = Vec::new();
        let mut at: usize = 0;
        while at < n
            invariant
                at <= n,
                buf@.len() == at,
                forall|k: int| 0 <= k < at ==> buf@[k] == 0,
            decreases n - at,
        {
            buf.push(0u8);
            at = at + 1;
        }
        proof {
            assert forall|i: int| 0 <= i < self@.len() implies self.value_of(buf@, i) == 0 by {
                self.lemma_field_in_place(i, i);
                lemma_zero_buffer(buf@, self.offset_of(i), self.width_of(i));
            }
        }
        buf
    }

    /// Reads field `i` of a buffer. A field that holds a variant of an
    /// enumeration goes through the enumeration's range check, which a
    /// schema's fields always pass.
    pub fn get(&self, buf: &[u8], i: usize) -> (r: Result<u64, DecodeError>)
        requires
            self.wf(),
            i < self@.len(),
            buf@.len() == self.byte_len(),
        ensures
            r matches Ok(value) && value == self.value_of(buf@, i as int),
    {
        proof {
            self.lemma_field_in_place(i as int, i as int);
        }
        let offset: usize = self.offset(i);
        let d: FieldDescriptor = self.fields[i];
        match d.kind {
            FieldKind::Enumeration(e) => e.get(buf, offset),
            _ => Ok(codec::get(buf, offset, d.width)),
        }
    }

    /// Writes the low bits of `value` into field `i` of a buffer, as many as
    /// the field is wide. No other field changes.
    pub fn set(&self, buf: &mut [u8], i: usize, value: u64)
        requires
            self.wf(),
            i < self@.len(),
            old(buf)@.len() == self.byte_len(),
        ensures
            stores(
                old(buf)@,
                final(buf)@,
                self.offset_of(i as int),
                self.width_of(i as int),
                value as nat,
            ),
            forall|j: int|
                0 <= j < self@.len() && j != i ==> self.value_of(final(buf)@, j) == self.value_of(
                    old(buf)@,
                    j,
                ),
    {
        proof {
            self.lemma_field_in_place(i as int, i as int);
        }
        let offset: usize = self.offset(i);
        let d: FieldDescriptor = self.fields[i];
        codec::set(buf, offset, d.width, value);
        proof {
            assert forall|j: int| 0 <= j < self@.len() && j != i implies self.value_of(buf@, j)
                == self.value_of(old(buf)@, j) by {
                self.lemma_field_in_place(i as int, j);
                self.lemma_field_in_place(j, i as int);
                lemma_non_disturbance(
                    old(buf)@,
                    buf@,
                    self.offset_of(i as int),
                    self.width_of(i as int),
                    value as nat,
                    self.offset_of(j),
                    self.width_of(j),
                );
            }
        }
    }
}

} // verus!
