//! Units shared by the device-mapper modules.
use vstd::prelude::*;

verus! {

/// A count or position of 512-byte sectors.
pub type Sector = u64;

} // verus!
