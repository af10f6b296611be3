//! Messages of Nearby Connections and of Quick Share. Fields that newer phones
//! add are passed over.

pub mod conn;
pub mod share;

use vstd::prelude::*;

verus! {

/// The longest frame that is read.
pub const MAX_FRAME: usize = 8 * 1024 * 1024;

} // verus!
