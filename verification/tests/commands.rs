use whoosh::airdrop::{airdrop_visibility_line, companion_txt, companion_txt_of, printed_name};
use whoosh::approve::{IncomingFile, TransferOffer};
use whoosh::cli::{
    max_file_bytes, native_row, parse_fingerprint, peer_row, receive_config, remember, remembered,
    sent_line, trust_for,
};
use whoosh::discover::{dns_sd_plan, Address, FoundPeer, PeerAddr};
use whoosh::error::Error;
use whoosh::mime::MediaKind;
use whoosh::native::tls::{
    check_fingerprint, fingerprint, fingerprint_hex, generate_identity, identity_of, subject_names, Trust,
};
use whoosh::quickshare::endpoint::EndpointInfo;
use whoosh::radio::{airdrop_advertisement, name_response, packet_at, quickshare_advertisement};
use whoosh::service::{
    airdrop_advert, airdrop_advert_of, airdrop_alt_advert, airdrop_instance_name, companion_advert,
    describe_offer, format_pin, is_yes, native_advert, quickshare_advert, random_pin,
    received_line, DaemonConfig,
};
use whoosh::text::{is_control, is_white};

#[test]
fn iphone_keeps_the_mac_name_and_lists_whoosh() {
    let line = airdrop_visibility_line("Harry's Mac", "Hariom’s MacBook Pro");
    assert!(line.contains("separate row \"Harry's Mac\""));
    assert!(line.contains("Hariom’s MacBook Pro"));
    assert!(line.contains("stays the macOS AirDrop name"));
    assert!(line.contains("Downloads"));
    assert!(line.contains("Everyone"));
}

#[test]
fn a_computer_without_a_name_is_this_mac() {
    assert!(airdrop_visibility_line("x", "  \n").contains("\"this Mac\""));
    assert_eq!(printed_name(" Harry's Mac\n").as_deref(), Some("Harry's Mac"));
    assert_eq!(printed_name(" \n"), None);
}

fn value(txt: &[(String, String)], key: &str) -> String {
    txt.iter()
        .find(|(name, _)| name == key)
        .map(|(_, item)| item.clone())
        .unwrap_or_default()
}

#[test]
fn companion_record_uses_the_live_rapport_keys() {
    let txt = companion_txt();
    let keys: Vec<&str> = txt.iter().map(|(key, _)| key.as_str()).collect();
    assert_eq!(
        keys,
        ["rpMac", "rpHN", "rpFl", "rpHA", "rpVr", "rpAD", "rpHI", "rpBA"]
    );
    assert_eq!(value(&txt, "rpFl"), "0x20000");
    assert_eq!(value(&txt, "rpVr"), "715.2");
    assert_eq!(value(&txt, "rpMac"), "0");
    let mac = value(&txt, "rpBA");
    assert_eq!(mac.len(), 17);
    assert_eq!(mac.chars().filter(|ch| *ch == ':').count(), 5);
}

#[test]
fn companion_record_spells_its_bytes() {
    let bytes: Vec<u8> = (0..30).map(|i| i * 8).collect();
    let txt = companion_txt_of(&bytes);
    assert_eq!(value(&txt, "rpHN"), "000810182028");
    assert_eq!(value(&txt, "rpHI"), "9098a0a8b0b8");
    assert_eq!(value(&txt, "rpBA"), "C0:C8:D0:D8:E0:E8");
    assert_ne!(companion_txt(), companion_txt());
}

#[test]
fn quickshare_advertisement_carries_the_android_prefix() {
    let packet = quickshare_advertisement(&[0xAB; 10]);
    assert!(packet.len() <= 31);
    assert_eq!(&packet[..3], &[0x02, 0x01, 0x06]);
    assert!(packet
        .windows(5)
        .any(|window| window == [0xFC, 0x12, 0x8E, 0x01, 0x42]));
    assert!(packet.windows(2).any(|window| window == [0x2C, 0xFE]));
    assert!(packet.ends_with(&[0xAB; 10]));
}

#[test]
fn airdrop_advertisement_is_the_everyone_beacon() {
    let packet = airdrop_advertisement();
    assert!(packet.len() <= 31);
    assert!(packet
        .windows(4)
        .any(|window| window == [0x4C, 0x00, 0x05, 0x12]));
}

#[test]
fn scan_response_uses_the_whoosh_name() {
    let packet = name_response("Harry's Mac");
    assert_eq!(packet[1], 0x09);
    assert_eq!(&packet[2..], b"Harry's Mac");
    assert!(name_response(&"n".repeat(40)).len() <= 31);
}

#[test]
fn packets_take_turns() {
    let random = [7; 10];
    assert_eq!(packet_at(0, &random, "x"), quickshare_advertisement(&random));
    assert_eq!(packet_at(1, &random, "x"), airdrop_advertisement());
    assert_eq!(packet_at(2, &random, "x"), name_response("x"));
    assert_eq!(packet_at(255, &random, "x"), quickshare_advertisement(&random));
    assert_eq!(name_response(&"é".repeat(20)).len(), 2 + 28);
    assert_eq!(packet_at(0, &random, "x")[3], 27);
    assert_eq!(airdrop_advertisement().len(), 27);
}

#[test]
fn receive_options_make_a_config() {
    let config = receive_config("Mac".into(), true, true, false, true, false, false, 2);
    assert_eq!(
        config,
        DaemonConfig {
            name: "Mac".into(),
            native: false,
            quickshare: true,
            airdrop: true,
            require_pin: true,
            sort_media: false,
            max_file_bytes: 2 * 1024 * 1024,
            ask: false,
        }
    );
    let plain = DaemonConfig::receive("Mac".into(), false);
    assert!(plain.native && plain.quickshare && plain.airdrop && plain.ask);
    assert_eq!(plain.max_file_bytes, 32 * 1024 * 1024 * 1024);
    assert_eq!(max_file_bytes(8192), 8192 * 1024 * 1024);
    assert_eq!(max_file_bytes(u64::MAX), u64::MAX);
}

#[test]
fn remembered_fingerprints_are_found() {
    let mut first = [0u8; 32];
    first[0] = 0xAB;
    let second = [2u8; 32];
    let text = remember("", "10.0.0.1:9", &first);
    assert_eq!(text, format!("10.0.0.1:9 ab{}\n", "00".repeat(31)));
    let text = remember(&text, "10.0.0.2:9", &second);
    assert_eq!(remembered(&text, "10.0.0.1:9"), Some(first));
    assert_eq!(remembered(&text, "10.0.0.2:9"), Some(second));
    assert_eq!(remembered(&text, "10.0.0.3:9"), None);
    let again = remember(&text, "10.0.0.1:9", &second);
    assert_eq!(remembered(&again, "10.0.0.1:9"), Some(first));
    let open = remember("10.0.0.9:1 zz", "10.0.0.1:9", &first);
    assert!(open.starts_with("10.0.0.9:1 zz\n10.0.0.1:9 ab"));
    assert_eq!(remembered(&open, "10.0.0.9:1"), None);
    assert_eq!(remembered("lonely\n\n", "lonely"), None);
    assert_eq!(remembered(&format!(" a \t{}  x\r\n", "11".repeat(32)), "a"), Some([0x11; 32]));
}

#[test]
fn strangers_need_trust_first() {
    assert_eq!(
        trust_for(Some([1; 32]), "a:1", false).unwrap(),
        Trust::Fingerprint(Some([1; 32]))
    );
    assert_eq!(
        trust_for(Some([1; 32]), "a:1", true).unwrap(),
        Trust::Fingerprint(Some([1; 32]))
    );
    assert_eq!(trust_for(None, "a:1", true).unwrap(), Trust::Fingerprint(None));
    let error = trust_for(None, "a:1", false).unwrap_err();
    assert!(matches!(error, Error::Untrusted(_)));
    assert_eq!(
        error.message(),
        "untrusted peer certificate a:1 is not a remembered peer. Run again with --trust-first after checking the receiver's fingerprint."
    );
}

#[test]
fn fingerprints_are_sixty_four_digits() {
    assert_eq!(parse_fingerprint(&"Ff".repeat(32)), Some([0xFF; 32]));
    assert_eq!(parse_fingerprint(&"ff".repeat(31)), None);
    assert_eq!(parse_fingerprint("xy"), None);
    assert_eq!(parse_fingerprint("fff"), None);
    assert_eq!(
        fingerprint_hex(&fingerprint(b"abc")),
        "ba7816bf8f01cfea414140de5dae2223b00361a396177a9cb410ff61f20015ad"
    );
}

#[test]
fn a_wrong_certificate_is_refused() {
    assert!(check_fingerprint(&[1; 32], None).is_ok());
    assert!(check_fingerprint(&[1; 32], Some([1; 32])).is_ok());
    let error = check_fingerprint(&[1; 32], Some([9; 32])).unwrap_err();
    assert_eq!(
        error,
        format!(
            "certificate fingerprint {} does not match {}",
            "01".repeat(32),
            "09".repeat(32)
        )
    );
}

#[test]
fn identities_carry_their_fingerprint() {
    let made = generate_identity().unwrap();
    assert_eq!(made.fingerprint, fingerprint(&made.cert_der));
    assert!(made.cert_der.len() > 100 && !made.key_der.is_empty());
    assert_ne!(made.cert_der, made.key_der);
    let other = identity_of(vec![1], vec![2]);
    assert_eq!(other.fingerprint, fingerprint(&[1]));
    assert_eq!(other.key_der, [2]);
    let airdrop = whoosh::airdrop::tls::server_identity().unwrap();
    assert!(airdrop.cert_der.windows(9).any(|window| window == b"\x82\x07AirDrop"));
    assert!(made.cert_der.windows(8).any(|window| window == b"\x82\x06whoosh"));
    assert_eq!(subject_names("whoosh"), ["whoosh"]);
    for identity in [&made, &airdrop] {
        let public = &identity.key_der[identity.key_der.len() - 65..];
        assert_eq!(public[0], 4);
        assert!(identity.cert_der.windows(65).any(|window| window == public));
    }
    assert_ne!(made.key_der, airdrop.key_der);
}

#[test]
fn reports_and_rows() {
    assert_eq!(
        sent_line(2, 30, &[0xAA; 32]),
        format!("sent 2 file(s), 30 bytes, fingerprint {}", "aa".repeat(32))
    );
    assert_eq!(received_line(1, 9, "Pixel"), "received 1 file(s), 9 bytes, from Pixel");
    assert_eq!(peer_row("Pixel", "10.0.0.1:9"), "  Pixel  10.0.0.1:9");
    let peer = FoundPeer {
        instance: "abcd".into(),
        addr: PeerAddr { ip: Address::V4([10, 0, 0, 1]), port: 9 },
        txt: vec![("n".into(), "Mac".into()), ("fp".into(), "00ff".into())],
    };
    assert_eq!(native_row(&peer, "10.0.0.1:9"), "  Mac  10.0.0.1:9  fp 00ff");
    let bare = FoundPeer { txt: Vec::new(), ..peer };
    assert_eq!(native_row(&bare, "10.0.0.1:9"), "  abcd  10.0.0.1:9  fp -");
}

#[test]
fn adverts_carry_the_name() {
    let native = native_advert("Mac", &[0x5A; 32]);
    assert_eq!(native.service_type, "_whoosh._udp.local.");
    assert_eq!(native.instance, "5a5a5a5a5a5a5a5a");
    assert_eq!(value(&native.txt, "n"), "Mac");
    assert_eq!(value(&native.txt, "v"), "1");
    assert_eq!(value(&native.txt, "fp"), "5a".repeat(32));
    let share = quickshare_advert("Ab12", &EndpointInfo::visible("Mac", 3)).unwrap();
    assert_eq!(share.service_type, "_FC9F5ED42C8A._tcp.local.");
    assert!(quickshare_advert("Ab1", &EndpointInfo::visible("Mac", 3)).is_err());
    let airdrop = airdrop_advert_of(&[1, 2, 3, 4, 5, 6, 7, 8]);
    assert_eq!(airdrop.instance, "010203040506");
    assert_eq!(value(&airdrop.txt, "flags"), "140");
    assert_ne!(airdrop_advert().instance, airdrop_advert().instance);
    assert_eq!(airdrop_alt_advert("Mac").instance, "Mac");
    assert_eq!(companion_advert("Mac", companion_txt()).txt.len(), 8);
}

#[test]
fn instance_names_fit_a_label() {
    assert_eq!(airdrop_instance_name("Harry's\u{7} Mac"), "Harry's Mac");
    assert_eq!(airdrop_instance_name("\u{1}\n"), "Whoosh");
    assert_eq!(airdrop_instance_name(&"é".repeat(40)), "é".repeat(31));
    assert_eq!(airdrop_instance_name(&"n".repeat(70)).len(), 63);
}

#[test]
fn pins_have_four_digits() {
    assert_eq!(format_pin(7), "0007");
    assert_eq!(format_pin(9876), "9876");
    for _ in 0..50 {
        let pin = random_pin();
        assert_eq!(pin.len(), 4);
        assert!(pin.chars().all(|c| c.is_ascii_digit()));
    }
}

#[test]
fn a_person_answers_yes() {
    for line in ["y\n", " YES \r\n", "Yes"] {
        assert!(is_yes(line));
    }
    for line in ["", "n\n", "yess", "ja"] {
        assert!(!is_yes(line));
    }
}

#[test]
fn offers_are_described() {
    let mut offer = TransferOffer {
        protocol: "quick share",
        peer: "Pixel".into(),
        pin: Some("1234".into()),
        files: vec![IncomingFile {
            name: "a.jpg".into(),
            bytes: 2048,
            mime: "image/jpeg".into(),
            kind: MediaKind::Photo,
        }],
    };
    assert_eq!(
        describe_offer(&offer),
        [
            "",
            "quick share from Pixel",
            "  pin 1234",
            "  a.jpg  2.0 KB  image/jpeg",
            "accept? [y/N]"
        ]
    );
    assert_eq!(offer.total_bytes(), 2048);
    offer.pin = None;
    offer.files.clear();
    assert_eq!(describe_offer(&offer), ["", "quick share from Pixel", "accept? [y/N]"]);
    assert_eq!(offer.total_bytes(), 0);
}

#[test]
fn characters_are_classed_as_unicode_has_them() {
    for code in 0..=0x10FFFFu32 {
        if let Some(c) = char::from_u32(code) {
            assert_eq!(is_control(c), c.is_control());
            assert_eq!(is_white(c), c.is_whitespace());
        }
    }
}

#[test]
fn errors_have_texts() {
    let text = |error: Error| error.message();
    assert_eq!(text(Error::protocol("odd")), "odd");
    assert_eq!(text(Error::crypto("bad")), "cryptography failure: bad");
    assert_eq!(text(Error::Rejected("no".into())), "transfer rejected: no");
    assert_eq!(text(Error::UnsafeName), "unsafe file name");
    assert_eq!(text(Error::TooLarge), "file exceeds the size limit");
    assert_eq!(text(Error::Closed), "peer closed the connection");
    assert_eq!(text(Error::Timeout), "timed out");
    assert_eq!(text(Error::Pin), "wrong or missing pin");
    assert_eq!(text(Error::NotFound("x".into())), "not found: x");
    assert_eq!(text(Error::Hash("x".into())), "hash mismatch for x");
    assert_eq!(text(Error::Untrusted("x".into())), "untrusted peer certificate x");
    let inner = std::io::Error::new(std::io::ErrorKind::Other, "disk");
    assert_eq!(text(Error::Io(inner)), "disk");
}

#[test]
fn every_name_can_be_announced() {
    for name in ["Harry's Mac", "", "\0", "\u{7f}x", &"é".repeat(100), &"\u{1F4F1}".repeat(100)] {
        let advert = airdrop_alt_advert(name);
        let plan = dns_sd_plan(advert.service_type, &advert.instance, 9, &[("flags", "140")], None);
        assert!(plan.is_ok(), "{name:?}");
    }
}
