use whoosh::discover::{
    capture_line, confirm_registration, convert, device_name, dns_sd_plan, find_peer,
    mdns_hostname, note_peer, pick_addr, registration_confirmed, userspace_detail, userspace_plan,
    Address, FoundPeer, PeerAddr, Registration,
};
use whoosh::error::Error;
use whoosh::net::{
    explain_visibility, format_ip, parse_airport_ssid, parse_wifi_device, pick_lan_ipv4,
    visibility_report, InterfaceV4, LanAddress,
};
use whoosh::quickshare::endpoint::EndpointInfo;

#[test]
fn airdrop_registration_includes_awdl_and_keeps_interface_addresses() {
    let plan = dns_sd_plan(
        "_airdrop._tcp.local.",
        "aabbccddeeff",
        8770,
        &[("flags", "136")],
        Some(("en0", [192, 168, 1, 11])),
    )
    .unwrap();
    assert_eq!(
        plan.args,
        vec![
            "-includeAWDL",
            "-R",
            "aabbccddeeff",
            "_airdrop._tcp",
            "local",
            "8770",
            "flags=136",
        ]
    );
    assert!(!plan.args.iter().any(|arg| arg == "-i"));
}

#[test]
fn airdrop_alt_is_registered_on_awdl() {
    let plan = dns_sd_plan(
        "_airdrop-alt._tcp.local.",
        "Harry's Mac",
        9,
        &[("flags", "140")],
        Some(("en0", [192, 168, 1, 11])),
    )
    .unwrap();
    assert!(plan.args.iter().any(|arg| arg == "-includeAWDL"));
    assert!(plan.args.iter().any(|arg| arg == "_airdrop-alt._tcp"));
    assert!(plan.args.iter().any(|arg| arg == "Harry's Mac"));
    assert!(!plan.args.iter().any(|arg| arg == "-i"));
}

#[test]
fn companion_link_is_a_separate_device_on_the_lan() {
    let plan = dns_sd_plan(
        "_companion-link._tcp.local.",
        "Harry's Mac",
        52628,
        &[("rpFl", "0x20000"), ("rpVr", "715.2")],
        Some(("en0", [192, 168, 1, 11])),
    )
    .unwrap();
    assert_eq!(
        plan.args,
        vec![
            "-i",
            "en0",
            "-P",
            "Harry's Mac",
            "_companion-link._tcp",
            "local",
            "52628",
            "whoosh-52628.local",
            "192.168.1.11",
            "rpFl=0x20000",
            "rpVr=715.2",
        ]
    );
    assert!(plan.summary.contains("iPhone list"));
    assert!(!plan.args.iter().any(|arg| arg == "-includeAWDL"));
    assert!(!plan.args.iter().any(|arg| arg.contains("MacBook")));
}

#[test]
fn companion_link_without_a_lan_address_is_rejected() {
    let error = dns_sd_plan(
        "_companion-link._tcp.local.",
        "Harry's Mac",
        9,
        &[("rpFl", "0x20000")],
        None,
    )
    .unwrap_err();
    assert!(error.message().contains("Wi-Fi"));
}

#[test]
fn quickshare_registration_pins_the_lan_address() {
    let plan = dns_sd_plan(
        "_FC9F5ED42C8A._tcp.local.",
        "I1VYVzD8n14AAA",
        53521,
        &[("n", "e30")],
        Some(("en0", [192, 168, 1, 11])),
    )
    .unwrap();
    assert_eq!(
        plan.args,
        vec![
            "-i",
            "en0",
            "-R",
            "I1VYVzD8n14AAA",
            "_FC9F5ED42C8A._tcp",
            "local",
            "53521",
            "n=e30",
        ]
    );
    assert!(plan.summary.contains("en0"));
    assert!(plan.summary.contains("192.168.1.11"));
    assert!(!plan.args.iter().any(|arg| arg == "-P"));
}

#[test]
fn missing_lan_address_registers_without_a_proxy() {
    let plan = dns_sd_plan(
        "_whoosh._udp.local.",
        "abcd",
        1,
        &[("n", "Harry's Mac"), ("v", "1")],
        None,
    )
    .unwrap();
    assert_eq!(plan.args[1], "-R");
    assert!(plan.args.iter().any(|arg| arg == "n=Harry's Mac"));
    assert!(!plan.args.iter().any(|arg| arg == "-P"));
}

#[test]
fn unusable_registrations_are_refused() {
    let long = "n".repeat(64);
    for (service, instance) in [
        ("_whoosh._udp.local.", ""),
        ("_whoosh._udp.local.", long.as_str()),
        ("whoosh", "abcd"),
    ] {
        assert!(matches!(
            dns_sd_plan(service, instance, 1, &[], None),
            Err(Error::Protocol(_))
        ));
    }
    assert!(dns_sd_plan(
        "_whoosh._udp.local.",
        "abcd",
        1,
        &[],
        Some(("bad name", [10, 0, 0, 1]))
    )
    .is_err());
}

#[test]
fn registration_line_is_the_mdnsresponder_success_text() {
    assert!(registration_confirmed(
        "12:00:00.000  Name now registered and active\n"
    ));
    assert!(!registration_confirmed("Registering Service whoosh\n"));
}

#[test]
fn registration_ends_in_one_of_three_ways() {
    assert!(matches!(
        confirm_registration("Name now registered and active", "a", None, false),
        Registration::Confirmed
    ));
    assert!(matches!(
        confirm_registration("Registering", "a", None, false),
        Registration::Waiting
    ));
    assert!(matches!(
        confirm_registration("Registering", "a", Some("exit status: 1"), false),
        Registration::Failed(_)
    ));
    assert!(matches!(
        confirm_registration("Registering", "a", None, true),
        Registration::Failed(_)
    ));
    let mut captured = String::new();
    capture_line(&mut captured, "one\n");
    capture_line(&mut captured, "two\n");
    assert!(captured.contains("one") && captured.contains("two"));
}

#[test]
fn userspace_records_pin_the_lan_address() {
    let pinned = userspace_plan("_whoosh._udp.local.", 9, Some([10, 0, 0, 7]), Some("my-box"));
    assert!(pinned.pinned);
    assert_eq!(pinned.ip, "10.0.0.7");
    assert_eq!(pinned.host, "whoosh-9.local.");
    assert_eq!(
        userspace_detail(&pinned, "x._whoosh._udp.local."),
        "userspace mDNS pinned at 10.0.0.7"
    );
    let open = userspace_plan("_whoosh._udp.local.", 9, None, Some("my-box"));
    assert_eq!(open.host, "my-box.local.");
    assert!(!open.pinned);
    assert_eq!(open.ip, "");
    assert_eq!(
        userspace_detail(&open, "x._whoosh._udp.local."),
        "userspace mDNS x._whoosh._udp.local."
    );
    let companion = userspace_plan("_companion-link._tcp.local.", 9, None, Some("my-box"));
    assert_eq!(companion.host, "whoosh-9.local.");
}

#[test]
fn host_names_are_labels() {
    assert_eq!(mdns_hostname(Some("Harry's box")), "Harrysbox.local.");
    assert_eq!(mdns_hostname(Some("-x")), "whoosh.local.");
    assert_eq!(mdns_hostname(None), "whoosh.local.");
    assert_eq!(mdns_hostname(Some(&"a".repeat(50))), format!("{}.local.", "a".repeat(40)));
    assert_eq!(device_name(Some("box")), "box");
    assert_eq!(device_name(Some("")), "Whoosh");
    assert_eq!(device_name(None), "Whoosh");
}

fn v6(last: u8) -> Address {
    let mut octets = [0u8; 16];
    octets[0] = 0x20;
    octets[15] = last;
    Address::V6(octets)
}

#[test]
fn addresses_that_lead_out_are_preferred() {
    assert_eq!(pick_addr(&[]), None);
    assert_eq!(
        pick_addr(&[Address::V4([127, 0, 0, 1]), Address::V4([10, 0, 0, 2]), v6(2)]),
        Some(Address::V4([10, 0, 0, 2]))
    );
    assert_eq!(pick_addr(&[Address::V4([224, 0, 0, 1]), v6(2)]), Some(v6(2)));
    assert_eq!(
        pick_addr(&[Address::V4([127, 0, 0, 1])]),
        Some(Address::V4([127, 0, 0, 1]))
    );
}

fn peer(instance: &str, ip: [u8; 4], txt: &[(&str, &str)]) -> FoundPeer {
    FoundPeer {
        instance: instance.to_string(),
        addr: PeerAddr { ip: Address::V4(ip), port: 5 },
        txt: txt.iter().map(|(key, value)| (key.to_string(), value.to_string())).collect(),
    }
}

#[test]
fn peers_are_found_by_instance_or_name() {
    let mut peers = Vec::new();
    note_peer(&mut peers, peer("abcd", [10, 0, 0, 1], &[("n", "Harry")]));
    note_peer(&mut peers, peer("efgh", [10, 0, 0, 2], &[]));
    assert_eq!(peers.len(), 2);
    assert_eq!(find_peer(&peers, "Harry").unwrap().ip, Address::V4([10, 0, 0, 1]));
    assert_eq!(find_peer(&peers, "efgh").unwrap().ip, Address::V4([10, 0, 0, 2]));
    assert_eq!(find_peer(&peers, "nobody").unwrap_err().message(), "not found: nobody");
    assert_eq!(peers[0].display_name(), "Harry");
    assert_eq!(peers[1].display_name(), "efgh");
    assert_eq!(peers[0].txt_get("fp"), None);
}

#[test]
fn resolved_services_become_peers() {
    let found = convert(
        "abcd._whoosh._udp.local.",
        9,
        &[Address::V4([10, 0, 0, 1])],
        vec![("v".to_string(), "1".to_string())],
    )
    .unwrap();
    assert_eq!(found.instance, "abcd");
    assert_eq!(found.addr.port, 9);
    assert!(convert("abcd._whoosh._udp.local.", 9, &[], Vec::new()).is_none());
}

#[test]
fn quick_share_peers_describe_themselves() {
    let info = EndpointInfo::visible("Pixel", 1);
    let text = info.encode_txt().unwrap();
    assert_eq!(peer("x", [10, 0, 0, 1], &[("n", &text)]).share_name(), "Pixel");
    assert_eq!(peer("x", [10, 0, 0, 1], &[("n", "%%")]).share_name(), "x");
    assert_eq!(peer("x", [10, 0, 0, 1], &[]).share_name(), "x");
}

fn iface(name: &str, ip: [u8; 4]) -> InterfaceV4 {
    InterfaceV4 { name: name.into(), ip }
}

#[test]
fn lan_pick_skips_tunnel_and_prefers_ethernet() {
    let candidates = vec![
        iface("utun4", [10, 0, 0, 2]),
        iface("lo0", [127, 0, 0, 1]),
        iface("awdl0", [169, 254, 1, 1]),
        iface("bridge0", [192, 168, 2, 1]),
        iface("en0", [192, 168, 1, 11]),
        iface("docker0", [172, 17, 0, 1]),
    ];
    let chosen = pick_lan_ipv4(&candidates).unwrap();
    assert_eq!(chosen.name, "en0");
    assert_eq!(chosen.ip, [192, 168, 1, 11]);
}

#[test]
fn lan_pick_uses_shared_address_when_that_is_all_there_is() {
    let candidates = vec![iface("eth0", [100, 64, 0, 8])];
    assert_eq!(pick_lan_ipv4(&candidates).unwrap().ip, [100, 64, 0, 8]);
}

#[test]
fn wifi_port_and_ssid_parse() {
    let ports = "\
Hardware Port: Ethernet
Device: en8

Hardware Port: Wi-Fi
Device: en0
Ethernet Address: aa
";
    assert_eq!(parse_wifi_device(ports).as_deref(), Some("en0"));
    assert_eq!(
        parse_airport_ssid("Current Wi-Fi Network: Harry Net").as_deref(),
        Some("Harry Net")
    );
    assert_eq!(
        parse_airport_ssid("You are not associated with an AirPort network."),
        None
    );
}

#[test]
fn visibility_text_covers_ethernet_and_wifi() {
    let lan = LanAddress {
        interface: "en0".into(),
        ip: [192, 168, 1, 11],
    };
    let joined = explain_visibility(&lan, Some("en0"), Some("Harry Net"));
    assert!(joined.contains("Harry Net"));
    let ethernet = explain_visibility(&lan, Some("en0"), None);
    assert!(ethernet.contains("Wi-Fi interface"));
    assert!(ethernet.contains("192.168.1.11"));
    assert!(!ethernet.contains("not joined"));
    let split = explain_visibility(&lan, Some("en1"), Some("Phone Net"));
    assert!(split.contains("en1"));
    assert!(split.contains("Phone Net"));
}

#[test]
fn the_report_names_the_address() {
    let lan = LanAddress { interface: "eth0".into(), ip: [10, 1, 2, 255] };
    assert!(visibility_report(Some(&lan)).contains("10.1.2.255"));
    assert_ne!(visibility_report(None), visibility_report(Some(&lan)));
    assert_eq!(format_ip(&[0, 10, 100, 255]), "0.10.100.255");
}
