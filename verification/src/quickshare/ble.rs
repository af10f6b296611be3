//! The Bluetooth packet that makes phones look for Quick Share receivers.
//!
//! It is service data of a fixed prefix and ten random bytes.

use vstd::prelude::*;

verus! {

pub const SERVICE_UUID: u16 = 0xFE2C;

pub const PREFIX: [u8; 14] = [
    0xFC, 0x12, 0x8E, 0x01, 0x42, 0x00, 0x00, 0x00, 0x00, 0x00, 0x00, 0x00, 0x00, 0x00,
];

pub fn wake_service_data(random: &[u8; 10]) -> (data: Vec<u8>)
    ensures
        data@ == PREFIX@ + random@,
{
    let mut data: Vec<u8> = Vec::new();
    data.extend_from_slice(&PREFIX);
    data.extend_from_slice(random);
    assert(data@ =~= PREFIX@ + random@);
    data
}

} // verus!
