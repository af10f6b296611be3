//! Bluetooth advertisements for Quick Share and AirDrop.
//!
//! Phones look for a service with a fixed prefix, Apple devices for a message of
//! their maker with empty contact hashes, which means everyone. The visible name
//! rides in the scan response.

use crate::quickshare::ble::{wake_service_data, PREFIX, SERVICE_UUID};
use crate::quickshare::endpoint::{cut_to, lemma_cut_fits, truncate_utf8};
use vstd::prelude::*;
use vstd::utf8::*;

verus! {

/// The longest packet.
pub const MAX_PACKET: usize = 31;

/// The longest name in a packet, in bytes.
pub const MAX_NAME: usize = 28;

/// The packet that phones look for.
pub open spec fn quickshare_packet(random: Seq<u8>) -> Seq<u8> {
    seq![0x02u8, 0x01, 0x06, 27, 0x16, 0x2C, 0xFE] + PREFIX@ + random
}

pub fn quickshare_advertisement(random: &[u8; 10]) -> (packet: Vec<u8>)
    ensures
        packet@ == quickshare_packet(random@),
        packet@.len() <= MAX_PACKET,
{
    let service = wake_service_data(random);
    let mut field: Vec<u8> = Vec::new();
    field.push(0x16);
    field.push((SERVICE_UUID % 256) as u8);
    field.push((SERVICE_UUID / 256) as u8);
    field.extend_from_slice(service.as_slice());
    let mut packet: Vec<u8> = Vec::new();
    packet.push(0x02);
    packet.push(0x01);
    packet.push(0x06);
    packet.push(field.len() as u8);
    packet.extend_from_slice(field.as_slice());
    assert(packet@ =~= quickshare_packet(random@));
    packet
}

/// The packet that Apple devices look for.
pub open spec fn airdrop_packet() -> Seq<u8> {
    seq![
        0x02u8, 0x01, 0x06, 0x17, 0xFF, 0x4C, 0x00, 0x05, 0x12, 0, 0, 0, 0, 0, 0, 0, 0, 0x01, 0, 0, 0,
        0, 0, 0, 0, 0, 0x00,
    ]
}

pub fn airdrop_advertisement() -> (packet: Vec<u8>)
    ensures
        packet@ == airdrop_packet(),
        packet@.len() <= MAX_PACKET,
{
    let zeros = [0u8; 8];
    let mut body: Vec<u8> = Vec::new();
    body.push(0x4C);
    body.push(0x00);
    body.push(0x05);
    body.push(0x12);
    body.extend_from_slice(&zeros);
    body.push(0x01);
    body.extend_from_slice(&zeros);
    body.push(0x00);
    let mut packet: Vec<u8> = Vec::new();
    packet.push(0x02);
    packet.push(0x01);
    packet.push(0x06);
    packet.push(1 + body.len() as u8);
    packet.push(0xFF);
    packet.extend_from_slice(body.as_slice());
    assert(packet@ =~= airdrop_packet());
    packet
}

/// The packet with the visible name, cut to what fits.
pub open spec fn name_packet(name: Seq<char>) -> Seq<u8> {
    let bytes = encode_utf8(cut_to(name, MAX_NAME as nat));
    seq![(1 + bytes.len()) as u8, 0x09u8] + bytes
}

pub fn name_response(name: &str) -> (packet: Vec<u8>)
    ensures
        packet@ == name_packet(name@),
        packet@.len() <= MAX_PACKET,
{
    let shown = truncate_utf8(name, MAX_NAME);
    let bytes = shown.as_str().as_bytes();
    proof {
        lemma_cut_fits(name@, MAX_NAME as nat);
    }
    let mut packet: Vec<u8> = Vec::new();
    packet.push(1 + bytes.len() as u8);
    packet.push(0x09);
    packet.extend_from_slice(bytes);
    assert(packet@ =~= name_packet(name@));
    packet
}

/// The packet of a turn: the three kinds take turns.
pub fn packet_at(tick: u8, random: &[u8; 10], name: &str) -> (packet: Vec<u8>)
    ensures
        packet@ == if tick % 3 == 0 {
            quickshare_packet(random@)
        } else if tick % 3 == 1 {
            airdrop_packet()
        } else {
            name_packet(name@)
        },
        packet@.len() <= MAX_PACKET,
{
    if tick % 3 == 0 {
        quickshare_advertisement(random)
    } else if tick % 3 == 1 {
        airdrop_advertisement()
    } else {
        name_response(name)
    }
}

} // verus!
