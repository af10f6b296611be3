use cbc::cipher::block_padding::Pkcs7;
use cbc::cipher::{BlockEncryptMut, KeyIvInit};
use hmac::Mac;
use sha2::Digest;
use std::collections::HashMap;
use whoosh::error::Error;
use whoosh::mime::{sniff, MediaKind};
use whoosh::quickshare::ble::wake_service_data;
use whoosh::quickshare::endpoint::{
    decode_b64, endpoint_id_of, nearby_service_prefix, parse_instance_name, random_endpoint_id,
    service_instance_name, truncate_utf8, EndpointInfo, DEVICE_LAPTOP,
};
use whoosh::quickshare::greeting::{
    connection_accepted, connection_request, peer_name_from_request, ClientGreeting,
    ServerGreeting,
};
use whoosh::quickshare::proto::{FieldValue, Fields, Message};
use whoosh::quickshare::secure::{
    DeviceToDeviceMessage, Header, HeaderAndBody, SecureChannel, SecureMessage, D2D_SALT,
};
use whoosh::quickshare::session::{
    body_len, framed_body, introduction, new_id, open_frame, paired_encryption,
    paired_encryption_of, paired_result, payload_id_of, push_payload, seal_frame, seal_payload,
    share_response, Action, Inbound, Next, Outbound, Outcome, Outgoing, QuickshareConfig, CHUNK,
};
use whoosh::quickshare::ukey2::{
    parse_twos, pin_from_auth, twos_complement, ClientHandshake, ServerHandshake,
};
use whoosh::quickshare::wire::conn::{self, OfflineFrame};
use whoosh::quickshare::wire::share;

#[test]
fn wake_packet_keeps_the_android_prefix() {
    let data = wake_service_data(&[1; 10]);
    assert_eq!(&data[..5], &[0xFC, 0x12, 0x8E, 0x01, 0x42]);
    assert_eq!(data.len(), 24);
    assert_eq!(&data[14..], &[1; 10]);
}

#[test]
fn service_prefix_is_the_nearby_sharing_digest() {
    assert_eq!(nearby_service_prefix(), [0xFC, 0x9F, 0x5E]);
    let digest = <sha2::Sha256 as sha2::Digest>::digest(b"NearbySharing");
    assert_eq!(&digest[..6], &[0xFC, 0x9F, 0x5E, 0xD4, 0x2C, 0x8A]);
}

fn decode_txt(value: &str) -> Vec<u8> {
    decode_b64(value).unwrap()
}

#[test]
fn endpoint_info_roundtrips_and_packs_bits() {
    let mut info = EndpointInfo::visible("Harry's Laptop", DEVICE_LAPTOP);
    info.salt = [1, 2];
    info.metadata_key = [3; 14];
    info.tlvs.push((2, vec![0]));
    let bytes = info.encode().unwrap();
    assert_eq!(bytes[0], 0b0010_0110);
    let decoded = EndpointInfo::decode(&bytes).unwrap();
    assert_eq!(decoded, info);
    assert_eq!(
        EndpointInfo::decode(&decode_txt(&info.encode_txt().unwrap())).unwrap(),
        info
    );
}

#[test]
fn hidden_endpoint_omits_the_name() {
    let info = EndpointInfo {
        version: 1,
        hidden: true,
        device_type: DEVICE_LAPTOP,
        salt: [0; 2],
        metadata_key: [0; 14],
        name: None,
        tlvs: vec![(1, vec![9, 9])],
    };
    let decoded = EndpointInfo::decode(&info.encode().unwrap()).unwrap();
    assert!(decoded.name.is_none());
    assert_eq!(decoded.tlvs, vec![(1, vec![9, 9])]);
}

#[test]
fn instance_name_roundtrips() {
    let name = service_instance_name("Ab12").unwrap();
    assert!(!name.contains('='));
    assert_eq!(parse_instance_name(&name).unwrap(), "Ab12");
    assert_eq!(
        parse_instance_name(&format!("{name}._FC9F5ED42C8A._tcp.local.")).unwrap(),
        "Ab12"
    );
}

#[test]
fn endpoints_have_exact_forms() {
    let info = EndpointInfo::visible_as("Mac", 3, &[5; 16]);
    let mut expected = vec![0b0010_0110];
    expected.extend_from_slice(&[5; 16]);
    expected.extend_from_slice(b"\x03Mac");
    assert_eq!(info.encode().unwrap(), expected);
    assert_eq!(service_instance_name("Ab12").unwrap(), "I0FiMTL8n14AAA");
    assert!(service_instance_name("Ab1").is_err());
    assert!(service_instance_name("Ab1é").is_err());
    assert!(parse_instance_name("AAAA").is_err());
    assert!(decode_b64("%").is_err());
    assert_eq!(decode_b64("_-8").unwrap(), [0xFF, 0xEF]);
    assert!(EndpointInfo::decode(&[1, 2, 3]).is_err());
    let id = random_endpoint_id();
    assert_eq!(id.len(), 4);
    assert!(service_instance_name(&id).is_ok());
    assert_eq!(endpoint_id_of(&[0, 1, 2, 3]).len(), 4);
    assert_eq!(truncate_utf8("éé", 3), "é");
}

#[test]
fn rejects_a_tampered_ciphertext_and_a_replay() {
    let mut sender = SecureChannel::from_next_secret(&[9u8; 32], true).unwrap();
    let mut receiver = SecureChannel::from_next_secret(&[9u8; 32], false).unwrap();
    let mut message = sender.encrypt(b"file").unwrap();
    assert_eq!(receiver.decrypt(&message).unwrap(), b"file");
    message[20] ^= 0x5A;
    assert!(receiver.decrypt(&message).is_err());
    let again = sender.encrypt(b"file").unwrap();
    assert_eq!(receiver.decrypt(&again).unwrap(), b"file");
    assert!(receiver.decrypt(&again).is_err());
}

#[test]
fn channels_are_one_way() {
    let mut one = SecureChannel::from_next_secret(&[9u8; 32], true).unwrap();
    let mut same = SecureChannel::from_next_secret(&[9u8; 32], true).unwrap();
    let sealed = one.encrypt_with(b"x", &[1; 16]).unwrap();
    assert!(same.decrypt(&sealed).is_err());
    let mut other = SecureChannel::from_next_secret(&[8u8; 32], false).unwrap();
    assert!(other.decrypt(&sealed).is_err());
    assert!(other.decrypt(b"junk").is_err());
    assert!(!sealed.windows(4).any(|window| window == b"xxxx"));
}

#[test]
fn both_sides_derive_the_same_secret_and_can_exchange() {
    let client = ClientHandshake::start().unwrap();
    let server = ServerHandshake::start(client.client_init()).unwrap();
    let finish = client.client_finish().to_vec();
    let server_init = server.server_init().to_vec();
    let client_secret = client.finish(&server_init).unwrap();
    let server_secret = server.finish(&finish).unwrap();
    assert_eq!(client_secret.auth_string, server_secret.auth_string);
    assert_eq!(client_secret.next_secret, server_secret.next_secret);
    assert_eq!(client_secret.pin().len(), 4);
    assert_eq!(client_secret.pin(), server_secret.pin());
    let mut client_channel = client_secret.client_channel().unwrap();
    let mut server_channel = server_secret.server_channel().unwrap();
    let encrypted = client_channel.encrypt(b"intro").unwrap();
    assert_eq!(server_channel.decrypt(&encrypted).unwrap(), b"intro");
    let reply = server_channel.encrypt(b"ok").unwrap();
    assert_eq!(client_channel.decrypt(&reply).unwrap(), b"ok");
}

#[test]
fn tampered_client_finish_fails_the_commitment() {
    let client = ClientHandshake::start().unwrap();
    let server = ServerHandshake::start(client.client_init()).unwrap();
    let mut finish = client.client_finish().to_vec();
    let last = finish.len() - 1;
    finish[last] ^= 0x01;
    assert!(server.finish(&finish).is_err());
}

#[test]
fn handshakes_follow_their_secrets() {
    let mut secret = [0u8; 32];
    secret[31] = 1;
    let client = ClientHandshake::start_with(secret, vec![7; 32]).unwrap();
    let again = ClientHandshake::start_with(secret, vec![7; 32]).unwrap();
    assert_eq!(client.client_init(), again.client_init());
    assert_eq!(client.client_finish(), again.client_finish());
    // The public point of the secret 1 is the generator of the curve.
    let x = [0x6B, 0x17, 0xD1, 0xF2, 0xE1, 0x2C, 0x42, 0x47];
    assert!(client.client_finish().windows(8).any(|window| window == x));
    assert!(ServerHandshake::start(b"junk").is_err());
    assert!(client.finish(b"junk").is_err());
}

#[test]
fn pin_is_four_digits() {
    assert_eq!(pin_from_auth(&[0, 1, 2, 3]).len(), 4);
    assert_eq!(pin_from_auth(&[0, 1, 2, 3]), pin_from_auth(&[0, 1, 2, 3]));
}

#[test]
fn pins_are_exact() {
    assert_eq!(pin_from_auth(&[]), "0000");
    assert_eq!(pin_from_auth(&[5]), "0005");
    // 1 + 2 * 31 + 3 * 961
    assert_eq!(pin_from_auth(&[1, 2, 3]), "2946");
    assert_eq!(pin_from_auth(&[255, 255]), "8160");
    // 255 * (1 + 31 + 961), modulo 9973
    assert_eq!(pin_from_auth(&[255, 255, 255]), "3890");
}

#[test]
fn high_bit_coordinates_gain_a_sign_byte() {
    let mut coord = [0u8; 32];
    coord[0] = 0x80;
    let encoded = twos_complement(&coord);
    assert_eq!(encoded[0], 0);
    assert_eq!(encoded[1], 0x80);
    assert_eq!(encoded.len(), 33);
}

#[test]
fn connection_response_roundtrips() {
    let frame = OfflineFrame::connection_response();
    let bytes = frame.encode_to_vec();
    let decoded = OfflineFrame::decode(bytes.as_slice()).unwrap();
    assert_eq!(decoded.version, Some(1));
    assert_eq!(
        decoded.v1.unwrap().frame_type,
        Some(conn::CONNECTION_RESPONSE)
    );
}

#[test]
fn bytes_payload_marks_the_second_frame_last() {
    let frames = conn::bytes_payload(7, b"hello");
    let chunk = frames[1]
        .v1
        .as_ref()
        .unwrap()
        .payload_transfer
        .as_ref()
        .unwrap();
    assert_eq!(
        chunk.payload_chunk.as_ref().unwrap().flags,
        Some(conn::LAST_CHUNK)
    );
    assert_eq!(chunk.payload_chunk.as_ref().unwrap().offset, Some(5));
}

#[test]
fn introduction_keeps_file_metadata() {
    let frame = share::Frame::new(
        share::INTRODUCTION,
        share::V1Frame {
            introduction: Some(share::IntroductionFrame {
                file_metadata: vec![share::FileMetadata {
                    name: Some("a.jpg".into()),
                    file_type: Some(1),
                    payload_id: Some(4),
                    size: Some(3),
                    mime_type: Some("image/jpeg".into()),
                    id: Some(4),
                }],
                text_metadata: Vec::new(),
            }),
            ..share::V1Frame::empty()
        },
    );
    let decoded = share::Frame::decode(frame.encode_to_vec().as_slice()).unwrap();
    let file = &decoded.v1.unwrap().introduction.unwrap().file_metadata[0];
    assert_eq!(file.name.as_deref(), Some("a.jpg"));
    assert_eq!(file.payload_id, Some(4));
}

#[test]
fn messages_have_the_wire_form() {
    let frame = OfflineFrame::keep_alive();
    // version = 1; v1 { type = 5; keep_alive {} }
    assert_eq!(frame.encode_to_vec(), [0x08, 1, 0x12, 4, 0x08, 5, 0x32, 0]);
    let mut fields = Fields::new();
    fields.put_i32(1, Some(-1));
    fields.put_text(2, &Some("é".to_string()));
    fields.put_i64(16, Some(300));
    let bytes = fields.encode();
    let mut expected = vec![0x08];
    expected.extend_from_slice(&[0xFF; 9]);
    expected.extend_from_slice(&[0x01, 0x12, 2, 0xC3, 0xA9, 0x80, 0x01, 0xAC, 0x02]);
    assert_eq!(bytes, expected);
    let parsed = Fields::parse(&bytes).unwrap();
    assert_eq!(parsed.list[0].value.as_i32().unwrap(), -1);
    assert_eq!(parsed.list[1].value.as_text().unwrap(), "é");
    assert_eq!(parsed.list[2].value.as_i64().unwrap(), 300);
    assert!(matches!(parsed.list[2].value, FieldValue::Varint(300)));
}

#[test]
fn unknown_fields_are_skipped() {
    let mut bytes = vec![0x19, 1, 2, 3, 4, 5, 6, 7, 8];
    bytes.extend_from_slice(&[0x25, 1, 2, 3, 4]);
    bytes.extend_from_slice(&[0x2B, 0x08, 1, 0x2C]);
    bytes.extend_from_slice(&OfflineFrame::keep_alive().encode_to_vec());
    let frame = OfflineFrame::decode(&bytes).unwrap();
    assert_eq!(frame, OfflineFrame::keep_alive());
    for odd in [&[0x08u8][..], &[0x12, 9, 1], &[0x00], &[0x0F], &[0x2C], &[0x0A, 0]] {
        assert!(OfflineFrame::decode(odd).is_err());
    }
    // A repeated message is merged field by field.
    let twice = [&[0x12u8, 2, 0x08, 5][..], &[0x12, 2, 0x32, 0]].concat();
    let v1 = OfflineFrame::decode(&twice).unwrap().v1.unwrap();
    assert_eq!(v1.frame_type, Some(5));
    assert!(v1.keep_alive.is_some());
}

#[test]
fn bodies_are_framed() {
    assert_eq!(framed_body(b"abc"), [0, 0, 0, 3, b'a', b'b', b'c']);
    assert_eq!(body_len(&[0, 0, 1, 2]).unwrap(), 258);
    assert!(body_len(&[0xFF, 0, 0, 0]).is_err());
}

#[test]
fn payloads_are_gathered() {
    let mut bufs = HashMap::new();
    let [first, last] = conn::bytes_payload(7, b"hello");
    let transfer = |frame: OfflineFrame| frame.v1.unwrap().payload_transfer.unwrap();
    assert_eq!(push_payload(&mut bufs, transfer(first)).unwrap(), None);
    assert_eq!(push_payload(&mut bufs, transfer(last)).unwrap(), Some(b"hello".to_vec()));
    assert!(bufs[&7].buf.is_empty());
    assert_eq!(payload_id_of(&[1, 0, 0, 0, 0, 0, 0, 0]), 1);
    assert!(new_id() > 0);
}

#[test]
fn requests_name_the_peer() {
    let info = EndpointInfo::visible("Pixel", 1).encode().unwrap();
    let frame = connection_request("Phone", "Ab12".into(), 5, info);
    let request = frame.v1.as_ref().unwrap().connection_request.as_ref().unwrap();
    assert_eq!(request.endpoint_name.as_deref(), Some("Phone"));
    assert_eq!(request.mediums, [conn::WIFI_LAN]);
    assert_eq!(peer_name_from_request(&frame), "Pixel");
    assert!(connection_accepted(&OfflineFrame::connection_response()));
    assert!(!connection_accepted(&OfflineFrame::keep_alive()));
}

/// Greets as both sides do and hands out the peer's name, the pins and the
/// channels.
fn greet(name: &str) -> (String, String, String, SecureChannel, SecureChannel) {
    let (client, request, init) = ClientGreeting::start(name).unwrap();
    let (server, none) = ServerGreeting::Request.on_body(&request).unwrap();
    assert!(none.is_none());
    let (server, reply) = server.on_body(&init).unwrap();
    let (client, finish) = client.on_body(&reply.unwrap()).unwrap();
    let (server, reply) = server.on_body(&finish).unwrap();
    let (client, response) = client.on_body(&reply.unwrap()).unwrap();
    let (server, _) = server.on_body(&response).unwrap();
    match (client, server) {
        (
            ClientGreeting::Ready { pin, channel },
            ServerGreeting::Ready { peer, pin: shown, channel: other },
        ) => (peer, pin, shown, channel, other),
        _ => panic!("not ready"),
    }
}

#[test]
fn greetings_end_in_paired_channels() {
    let (peer, pin, shown, mut client, mut server) = greet("Pixel");
    assert_eq!(peer, "Pixel");
    assert_eq!(pin, shown);
    let sealed = seal_frame(&mut client, &OfflineFrame::keep_alive()).unwrap();
    assert_eq!(open_frame(&mut server, &sealed).unwrap(), OfflineFrame::keep_alive());
    let (client, _, _) = ClientGreeting::start("Pixel").unwrap();
    assert!(client.on_body(b"junk").is_err());
    assert!(ServerGreeting::Request.on_body(&[0xFF]).is_err());
}

struct Done {
    sender: Result<u64, Error>,
    receiver: Result<bool, Error>,
    bytes: u64,
    saved: Vec<(String, Vec<u8>)>,
}

fn memory(name: &str, bytes: &[u8], payload_id: i64) -> Outgoing {
    let (kind, mime) = sniff(bytes, name);
    Outgoing {
        name: name.into(),
        mime: mime.into(),
        kind,
        payload_id,
        total: bytes.len() as u64,
        offset: 0,
    }
}

fn transfer(config: QuickshareConfig, files: &[(&str, Vec<u8>)], allow: bool) -> Done {
    let (peer, _, pin, mut client, mut server) = greet("Pixel");
    let mut inbound = Inbound::new(peer, pin, &config);
    let prepared = files
        .iter()
        .enumerate()
        .map(|(index, (name, bytes))| memory(name, bytes, index as i64 + 1))
        .collect();
    let mut outbound = Outbound::new(prepared);
    let mut to_client: Vec<Vec<u8>> =
        seal_payload(&mut server, new_id(), &paired_encryption()).unwrap();
    let mut to_server: Vec<Vec<u8>> = Vec::new();
    let mut partial: HashMap<i64, (String, Vec<u8>)> = HashMap::new();
    let mut done = Done { sender: Err(Error::Closed), receiver: Err(Error::Closed), bytes: 0, saved: Vec::new() };
    let mut receiving = true;
    let mut sending = true;
    while receiving || sending {
        let mut idle = true;
        for body in std::mem::take(&mut to_client) {
            idle = false;
            if !sending {
                continue;
            }
            let frame = open_frame(&mut client, &body).unwrap();
            match outbound.on_frame(frame) {
                Ok(Some(reply)) => {
                    if let Err(error) = outbound.on_reply(reply) {
                        done.sender = Err(error);
                        sending = false;
                    }
                }
                Ok(None) => {}
                Err(error) => {
                    done.sender = Err(error);
                    sending = false;
                }
            }
        }
        if sending {
            match outbound.next() {
                Next::SendKey => {
                    to_server.extend(seal_payload(&mut client, new_id(), &paired_encryption()).unwrap());
                    outbound.key_sent();
                }
                Next::SendResult => {
                    to_server.extend(seal_payload(&mut client, new_id(), &paired_result()).unwrap());
                    outbound.result_sent();
                }
                Next::SendIntroduction => {
                    let intro = introduction(&outbound.files);
                    to_server.extend(seal_payload(&mut client, new_id(), &intro).unwrap());
                    outbound.introduction_sent();
                }
                Next::SendChunk => {
                    let file = &outbound.files[outbound.index];
                    let bytes = &files[outbound.index].1;
                    let start = file.offset as usize;
                    let end = bytes.len().min(start + CHUNK);
                    if let Some(frame) = outbound.on_chunk(&bytes[start..end]).unwrap() {
                        to_server.push(seal_frame(&mut client, &frame).unwrap());
                    }
                }
                Next::Disconnect => {
                    to_server.push(seal_frame(&mut client, &OfflineFrame::disconnect()).unwrap());
                    done.sender = Ok(outbound.total_bytes());
                    sending = false;
                }
                Next::Wait => {}
            }
            idle = idle && to_server.is_empty() && to_client.is_empty();
        }
        for body in std::mem::take(&mut to_server) {
            idle = false;
            if !receiving {
                continue;
            }
            let frame = open_frame(&mut server, &body).unwrap();
            let mut steps = vec![inbound.on_frame(frame)];
            while let Some(step) = steps.pop() {
                for action in step.actions {
                    match action {
                        Action::Open { id, dest } => {
                            partial.insert(id, (dest.name, Vec::new()));
                        }
                        Action::Write { id, body } => {
                            partial.get_mut(&id).unwrap().1.extend_from_slice(&body);
                        }
                        Action::Commit { id } => done.saved.push(partial.remove(&id).unwrap()),
                        Action::Store { dest, body, .. } => done.saved.push((dest.name, body)),
                        Action::Share(frame) => {
                            to_client.extend(seal_payload(&mut server, new_id(), &frame).unwrap());
                        }
                        Action::Send(frame) => {
                            to_client.push(seal_frame(&mut server, &frame).unwrap());
                        }
                        Action::Ask(_) => steps.push(inbound.on_decision(allow)),
                    }
                }
                match step.outcome {
                    Outcome::Continue => {}
                    Outcome::Finish => {
                        done.receiver = Ok(inbound.accepted);
                        receiving = false;
                    }
                    Outcome::Fail(error) => {
                        done.receiver = Err(error);
                        receiving = false;
                    }
                }
            }
        }
        if idle {
            break;
        }
    }
    done.bytes = inbound.bytes;
    done
}

#[test]
fn transfers_a_photo_and_a_video() {
    let jpeg = vec![0xFF, 0xD8, 0xFF, 0x00, 0x11];
    let mut video = vec![0, 0, 0, 24];
    video.extend_from_slice(b"ftypisom");
    video.extend(std::iter::repeat(9).take(80_000));
    let files = [("café.jpg", jpeg.clone()), ("clip.mp4", video.clone())];
    let done = transfer(QuickshareConfig::auto(), &files, true);
    assert_eq!(done.sender.unwrap(), done.bytes);
    assert!(done.receiver.unwrap());
    assert_eq!(done.saved[0], ("café.jpg".to_string(), jpeg.clone()));
    assert_eq!(done.saved[1], ("clip.mp4".to_string(), video.clone()));
    assert_eq!(done.bytes, jpeg.len() as u64 + video.len() as u64);
}

#[test]
fn long_and_empty_files_arrive_whole() {
    let long: Vec<u8> = (0..CHUNK + 5).map(|i| i as u8).collect();
    let done = transfer(
        QuickshareConfig::auto(),
        &[("long.bin", long.clone()), ("empty.bin", Vec::new())],
        true,
    );
    assert!(done.receiver.unwrap());
    assert_eq!(done.saved[0].1, long);
    assert_eq!(done.saved[1], ("empty.bin".to_string(), Vec::new()));
}

#[test]
fn decline_writes_nothing() {
    let done = transfer(QuickshareConfig::auto(), &[("a.jpg", vec![0xFF, 0xD8, 0xFF])], false);
    assert!(done.sender.is_err());
    assert!(!done.receiver.unwrap());
    assert!(done.saved.is_empty());
}

#[test]
fn rejects_a_traversing_name_and_an_oversized_file() {
    let done = transfer(QuickshareConfig::auto(), &[("../x", b"pwn".to_vec())], true);
    assert!(done.receiver.is_err());
    assert!(!done.sender.unwrap_err().message().is_empty());
    assert!(done.saved.is_empty());

    let mut config = QuickshareConfig::auto();
    config.max_file_bytes = 4;
    let done = transfer(config, &[("big.bin", vec![1, 2, 3, 4, 5])], true);
    assert!(done.sender.unwrap_err().message().contains("status") || done.receiver.is_err());
    assert!(done.saved.is_empty());
}

#[test]
fn file_bytes_before_consent_fail() {
    let mut inbound = Inbound::new("p".into(), "0000".into(), &QuickshareConfig::auto());
    let frame = conn::file_chunk(1, 3, 0, b"abc", false, "a.txt");
    let step = inbound.on_frame(frame);
    assert!(matches!(step.outcome, Outcome::Fail(Error::Protocol(_))));
    assert!(step.actions.is_empty());
}

#[test]
fn prepared_files_are_sniffed() {
    let file = Outgoing::open("a.jpg", &[0xFF, 0xD8, 0xFF], 9, 4).unwrap();
    assert_eq!(file.kind, MediaKind::Photo);
    assert_eq!(file.mime, "image/jpeg");
    assert_eq!(file.total, 9);
    assert!(Outgoing::open("../a.jpg", &[], 9, 4).is_err());
    let pair = paired_encryption_of(vec![1; 72], vec![2; 6]);
    let keys = pair.v1.unwrap().paired_key_encryption.unwrap();
    assert_eq!(keys.signed_data, Some(vec![1; 72]));
    let random = paired_encryption().v1.unwrap().paired_key_encryption.unwrap();
    assert_eq!(random.secret_id_hash.unwrap().len(), 6);
    let status = share_response(share::REJECT).v1.unwrap().connection_response.unwrap().status;
    assert_eq!(status, Some(share::REJECT));
}

fn derived(ikm: &[u8], salt: &[u8], info: &[u8]) -> [u8; 32] {
    let mut key = [0u8; 32];
    hkdf::Hkdf::<sha2::Sha256>::new(Some(salt), ikm)
        .expand(info, &mut key)
        .unwrap();
    key
}

#[test]
fn sealed_messages_have_exact_bytes() {
    let mut channel = SecureChannel::from_next_secret(&[9u8; 32], true).unwrap();
    let sealed = channel.encrypt_with(b"file", &[7; 16]).unwrap();

    let master = derived(&[9; 32], &D2D_SALT, b"client");
    let salt = sha2::Sha256::digest(b"SecureMessage");
    let key = derived(&master, &salt, b"ENC:2");
    let plain = DeviceToDeviceMessage {
        message: Some(b"file".to_vec()),
        sequence_number: Some(1),
    };
    let cipher = cbc::Encryptor::<aes::Aes256>::new(&key.into(), &[7; 16].into());
    let header = Header {
        signature_scheme: Some(1),
        encryption_scheme: Some(2),
        iv: Some(vec![7; 16]),
        public_metadata: Some(vec![0x08, 13, 0x10, 1]),
    };
    let signed = HeaderAndBody {
        header: Some(header.encode_to_vec()),
        body: Some(cipher.encrypt_padded_vec_mut::<Pkcs7>(&plain.encode_to_vec())),
    }
    .encode_to_vec();
    let mut mac =
        hmac::Hmac::<sha2::Sha256>::new_from_slice(&derived(&master, &salt, b"SIG:1")).unwrap();
    mac.update(&signed);
    let expected = SecureMessage {
        header_and_body: Some(signed),
        signature: Some(mac.finalize().into_bytes().to_vec()),
    };
    assert_eq!(sealed, expected.encode_to_vec());
}

#[test]
fn clients_commit_to_their_last_message() {
    let client = ClientHandshake::start().unwrap();
    let digest = sha2::Sha512::digest(client.client_finish());
    assert!(client
        .client_init()
        .windows(64)
        .any(|window| window == digest.as_slice()));
}

#[test]
fn coordinates_have_a_shortest_form() {
    for (first, at) in [(0x80u8, 0usize), (0x7F, 0), (0x80, 5), (1, 31), (0, 31), (0xFF, 31)] {
        let mut coord = [0u8; 32];
        coord[at] = first;
        let form = twos_complement(&coord);
        assert_eq!(parse_twos(&form).unwrap(), coord);
        assert!(!form.is_empty() && form.len() <= 33 && form[0] < 0x80);
        if form.len() > 1 {
            assert_ne!(parse_twos(&form[1..]).ok(), Some(coord));
        }
        let mut longer = vec![0];
        longer.extend_from_slice(&form);
        if longer.len() <= 33 {
            assert_eq!(parse_twos(&longer).unwrap(), coord);
        }
    }
    let mut odd = vec![0u8; 33];
    odd[0] = 1;
    for bytes in [&[][..], &[0x80], &[0; 34], &odd] {
        assert!(matches!(parse_twos(bytes), Err(Error::Crypto(_))));
    }
}

fn bytes_chunk(id: i64, total: i64, offset: i64, body: &[u8], last: bool) -> conn::PayloadTransferFrame {
    conn::PayloadTransferFrame {
        packet_type: Some(conn::PACKET_DATA),
        payload_header: Some(conn::PayloadHeader {
            id: Some(id),
            payload_type: Some(conn::BYTES),
            total_size: Some(total),
            file_name: None,
        }),
        payload_chunk: Some(conn::PayloadChunk {
            flags: Some(if last { conn::LAST_CHUNK } else { 0 }),
            offset: Some(offset),
            body: Some(body.to_vec()),
        }),
    }
}

#[test]
fn payloads_are_gathered_among_others() {
    let transfer = |frame: OfflineFrame| frame.v1.unwrap().payload_transfer.unwrap();
    let mut bufs = HashMap::new();
    let mut push = |packet| push_payload(&mut bufs, packet);
    assert_eq!(push(bytes_chunk(7, 6, 0, b"ab", false)).unwrap(), None);
    assert_eq!(push(bytes_chunk(8, 3, 0, b"x", false)).unwrap(), None);
    assert_eq!(push(transfer(conn::payload_ack(7, conn::BYTES, 6))).unwrap(), None);
    assert_eq!(push(bytes_chunk(7, 6, 2, b"", false)).unwrap(), None);
    assert_eq!(push(transfer(conn::file_chunk(7, 3, 0, b"abc", true, "f"))).unwrap(), None);
    assert!(matches!(push(bytes_chunk(8, 3, 2, b"z", true)), Err(Error::Protocol(_))));
    assert_eq!(push(bytes_chunk(7, 6, 2, b"cd", false)).unwrap(), None);
    assert_eq!(
        push(bytes_chunk(7, 6, 4, b"ef", true)).unwrap(),
        Some(b"abcdef".to_vec())
    );
    assert!(matches!(push(bytes_chunk(8, 3, 1, b"y", true)), Err(Error::Protocol(_))));
    assert_eq!(bufs[&8].buf, b"xy");
    assert!(bufs[&7].buf.is_empty());
}

#[test]
fn a_refused_introduction_changes_nothing_but_the_list() {
    let mut config = QuickshareConfig::auto();
    config.max_file_bytes = 4;
    let mut inbound = Inbound::new("p".into(), "0000".into(), &config);
    let files = vec![memory("ok.bin", b"1", 1), memory("big.bin", b"12345", 2)];
    let bytes = introduction(&files).encode_to_vec();
    let [first, last] = conn::bytes_payload(9, &bytes);
    assert!(matches!(inbound.on_frame(first).outcome, Outcome::Continue));
    let step = inbound.on_frame(last);
    assert!(matches!(step.outcome, Outcome::Fail(Error::TooLarge)));
    assert!(matches!(step.actions[..], [Action::Share(_)]));
    assert!(!inbound.waiting && !inbound.accepted);
    assert!(inbound.files.contains_key(&1) && !inbound.files.contains_key(&2));
}

#[test]
fn read_descriptions_are_written_back() {
    let mut info = EndpointInfo::visible_as("Mac", 3, &[5; 16]);
    info.tlvs.push((1, vec![9, 9]));
    let mut bytes = info.encode().unwrap();
    bytes[0] |= 1;
    let again = EndpointInfo::decode(&bytes).unwrap().encode().unwrap();
    assert_eq!(again[0], bytes[0] & 0xFE);
    assert_eq!(again[1..], bytes[1..]);
}
