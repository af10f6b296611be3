//! Receiving from and sending to Android's Quick Share.

pub mod ble;
pub mod endpoint;
pub mod greeting;
pub mod laws;
pub mod numbers;
pub mod secrets;
pub mod proto;
pub mod secure;
pub mod session;
pub mod ukey2;
pub mod wire;
