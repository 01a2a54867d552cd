//! The layout planner: where each field of a packed structure starts, and how
//! many bytes the structure takes.

use vstd::prelude::*;

verus! {

/// Why a list of field widths is no layout.
#[derive(Clone, Copy, Debug, PartialEq, Eq)]
pub enum LayoutError {
    /// The widths do not add up to a whole number of bytes.
    Unaligned,
}

/// The byte layout of a packed structure.
#[derive(Debug, PartialEq, Eq)]
pub struct Layout {
    /// Length of the backing buffer, in bytes.
    pub total_bytes: usize,
    /// For each field, in declaration order, the bit at which it starts.
    pub offsets: Vec<usize>,
}

/// The bits taken by the first `n` fields: where field `n` starts.
pub open spec fn bits_before(widths: Seq<usize>, n: int) -> int
    decreases n,
{
    if n <= 0 {
        0
    } else {
        bits_before(widths, n - 1) + widths[n - 1]
    }
}

/// The bits taken by all the fields.
pub open spec fn total_bits(widths: Seq<usize>) -> int {
    bits_before(widths, widths.len() as int)
}

/// A field ends where its successors begin: fields never overlap, and none
/// reaches past the total.
pub proof fn lemma_fields_in_order(widths: Seq<usize>, i: int, j: int)
    requires
        0 <= i <= j <= widths.len(),
    ensures
        0 <= bits_before(widths, i) <= bits_before(widths, j),
        i < j ==> bits_before(widths, i) + widths[i] <= bits_before(widths, j),
    decreases j,
{
    if i < j {
        lemma_fields_in_order(widths, i, j - 1);
    } else if 0 < i {
        lemma_fields_in_order(widths, i - 1, i - 1);
    }
}

/// Plans the layout of fields of the given widths, packed back to back in
/// declaration order from bit 0 up. The plan exists exactly when the widths
/// add up to a whole number of bytes.
pub fn plan(field_widths: &[usize]) -> (r: Result<Layout, LayoutError>)
    requires
        total_bits(field_widths@) <= usize::MAX,
    ensures
        r is Ok <==> total_bits(field_widths@) % 8 == 0,
        r matches Ok(layout) ==> {
            &&& layout.total_bytes == total_bits(field_widths@) / 8
            &&& layout.offsets@.len() == field_widths@.len()
            &&& forall|i: int|
                0 <= i < field_widths@.len() ==> layout.offsets@[i] == bits_before(
                    field_widths@,
                    i,
                )
        },
        r matches Err(e) ==> e == LayoutError::Unaligned,
{
    let mut offsets: Vec<usize> = Vec::new();
    let mut sum: usize = 0;
    let mut i: usize = 0;
    while i < field_widths.len()
        invariant
            i <= field_widths@.len(),
            total_bits(field_widths@) <= usize::MAX,
            sum == bits_before(field_widths@, i as int),
            offsets@.len() == i,
            forall|j: int| 0 <= j < i ==> offsets@[j] == bits_before(field_widths@, j),
        decreases field_widths@.len() - i,
    {
        proof {
            lemma_fields_in_order(field_widths@, i as int, field_widths@.len() as int);
        }
        offsets.push(sum);
        sum = sum + field_widths[i];
        i = i + 1;
    }
    if sum % 8 != 0 {
        Err(LayoutError::Unaligned)
    } else {
        Ok(Layout { total_bytes: sum / 8, offsets })
    }
}

} // verus!
