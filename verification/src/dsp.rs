//! Constants shared by the reconstruction code.
use vstd::prelude::*;

verus! {

/// Stride of the prediction/reconstruction work buffer.
pub const BPS: isize = 32;
/// `BPS` as an unsigned index.
pub const UBPS: usize = 32;

} // verus!
