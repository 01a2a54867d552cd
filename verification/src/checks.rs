//! Marker types for layouts that are written out by hand: a structure names
//! the remainder of its size, or the outcome of a range test, as the length
//! of a byte array, and the array's `Content` carries the marker trait only
//! when the remainder is zero, or the test came out true. A layout that
//! breaks the rule then does not compile.

use vstd::prelude::*;

verus! {

/// Carried by the remainder of a size that is a whole number of bytes.
pub trait TotalSizeIsMultipleOfEightBits {

}

/// Maps a byte array, by its length, to the marker of the remainder that the
/// length stands for.
pub trait Array {
    type Content;
}

/// The size leaves no bit over.
pub struct ZeroMod8;

/// The size leaves seven bits over.
pub struct SevenMod8;

impl TotalSizeIsMultipleOfEightBits for ZeroMod8 {

}

impl Array for [u8; 0] {
    type Content = ZeroMod8;
}

impl Array for [u8; 7] {
    type Content = SevenMod8;
}

/// Carried by the outcome of a range test that came out true.
pub trait DiscriminantInRange {

}

/// Maps a byte array, by its length, to the marker of the truth value that
/// the length stands for.
pub trait Array2 {
    type Content;
}

/// The discriminant is not below the number of variants.
pub struct False;

/// The discriminant is below the number of variants.
pub struct True;

impl DiscriminantInRange for True {

}

impl Array2 for [u8; 0] {
    type Content = False;
}

impl Array2 for [u8; 1] {
    type Content = True;
}

} // verus!
