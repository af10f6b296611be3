//! Transfers between computers that both run this program.

pub mod codec;
pub mod laws;
pub mod session;
pub mod tls;

use vstd::prelude::*;

verus! {

pub const SERVICE_TYPE: &'static str = "_whoosh._udp.local.";

} // verus!
