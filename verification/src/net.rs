//! The address of this machine that a phone can open.

use crate::text::{
    begins_with, chars_of, decimal, decimal_is_one_to_one, decimal_text, has_prefix,
    lemma_decimal_digits, lemma_parts_append, lemma_starts_spelled, lower, lowered, opt_view,
    parts_at, same_text, seq_view, slice_of, split_lines, starts_spelled, string_of, text_lines,
    trim, trimmed,
};
use vstd::prelude::*;
use vstd::utf8::*;

verus! {

/// An address of a network interface.
#[derive(Debug, Clone, PartialEq, Eq)]
pub struct InterfaceV4 {
    pub name: String,
    pub ip: [u8; 4],
}

pub ghost struct InterfaceView {
    pub name: Seq<char>,
    pub ip: Seq<u8>,
}

impl View for InterfaceV4 {
    type V = InterfaceView;

    open spec fn view(&self) -> InterfaceView {
        InterfaceView { name: self.name@, ip: self.ip@ }
    }
}

/// The address of this machine on the local network.
#[derive(Debug, Clone, PartialEq, Eq)]
pub struct LanAddress {
    pub interface: String,
    pub ip: [u8; 4],
}

/// Interfaces that do not lead to the local network.
pub open spec fn is_skipped(name: Seq<char>) -> bool {
    let name = lowered(name);
    ||| begins_with(name, "lo"@)
    ||| begins_with(name, "utun"@)
    ||| begins_with(name, "awdl"@)
    ||| begins_with(name, "llw"@)
    ||| begins_with(name, "gif"@)
    ||| begins_with(name, "stf"@)
    ||| begins_with(name, "anpi"@)
    ||| begins_with(name, "pktap"@)
    ||| begins_with(name, "ipsec"@)
    ||| begins_with(name, "ppp"@)
    ||| begins_with(name, "tun"@)
    ||| begins_with(name, "tap"@)
    ||| begins_with(name, "wg"@)
    ||| begins_with(name, "docker"@)
    ||| begins_with(name, "vboxnet"@)
    ||| begins_with(name, "vmnet"@)
    ||| begins_with(name, "veth"@)
    ||| begins_with(name, "virbr"@)
    ||| begins_with(name, "br-"@)
    ||| begins_with(name, "zt"@)
    ||| begins_with(name, "tailscale"@)
    ||| begins_with(name, "nan"@)
}

/// An address that a peer on the local network may have: not the unspecified,
/// loopback, broadcast, multicast or link-local ones.
pub open spec fn is_reachable(ip: Seq<u8>) -> bool {
    &&& !(ip[0] == 0 && ip[1] == 0 && ip[2] == 0 && ip[3] == 0)
    &&& ip[0] != 127
    &&& !(ip[0] == 255 && ip[1] == 255 && ip[2] == 255 && ip[3] == 255)
    &&& !(224 <= ip[0] <= 239)
    &&& !(ip[0] == 169 && ip[1] == 254)
}

pub open spec fn is_usable(candidate: InterfaceView) -> bool {
    !is_skipped(candidate.name) && is_reachable(candidate.ip)
}

/// Private addresses come first, shared ones second.
pub open spec fn ip_rank(ip: Seq<u8>) -> u16 {
    if ip[0] == 10 || (ip[0] == 172 && 16 <= ip[1] < 32) || (ip[0] == 192 && ip[1] == 168) {
        0
    } else if ip[0] == 100 && 64 <= ip[1] < 128 {
        1
    } else {
        2
    }
}

/// Cable and radio come first, access points and bridges second.
pub open spec fn name_rank(name: Seq<char>) -> u16 {
    let name = lowered(name);
    if begins_with(name, "en"@) || begins_with(name, "eth"@) || begins_with(name, "wlan"@)
        || begins_with(name, "wl"@) || begins_with(name, "wifi"@) {
        0
    } else if begins_with(name, "ap"@) || begins_with(name, "bridge"@) {
        1
    } else {
        2
    }
}

/// The numbers by which candidates are ordered: the rank of the address, the
/// rank of the name, the bytes of the name up to an end mark, the address.
pub open spec fn order_key(candidate: InterfaceView) -> Seq<u16> {
    seq![ip_rank(candidate.ip), name_rank(candidate.name)] + raised_bytes(
        encode_utf8(candidate.name),
    ) + seq![0u16] + raised_bytes(candidate.ip)
}

/// Bytes as numbers above zero.
pub open spec fn raised_bytes(bytes: Seq<u8>) -> Seq<u16> {
    Seq::new(bytes.len(), |i: int| (bytes[i] + 1) as u16)
}

/// The order of dictionaries.
pub open spec fn sorts_before(a: Seq<u16>, b: Seq<u16>) -> bool
    decreases a.len(),
{
    if b.len() == 0 {
        false
    } else if a.len() == 0 {
        true
    } else if a[0] != b[0] {
        a[0] < b[0]
    } else {
        sorts_before(a.skip(1), b.skip(1))
    }
}

proof fn lemma_order_strict(a: Seq<u16>, b: Seq<u16>, c: Seq<u16>)
    requires
        sorts_before(a, b),
        !sorts_before(c, b),
    ensures
        sorts_before(a, c),
    decreases a.len(),
{
    if a.len() > 0 && b.len() > 0 && c.len() > 0 && a[0] == b[0] && b[0] == c[0] {
        lemma_order_strict(a.skip(1), b.skip(1), c.skip(1));
    }
}

proof fn lemma_order_irreflexive(a: Seq<u16>)
    ensures
        !sorts_before(a, a),
    decreases a.len(),
{
    if a.len() > 0 {
        lemma_order_irreflexive(a.skip(1));
    }
}

fn comes_before(a: &Vec<u16>, b: &Vec<u16>) -> (yes: bool)
    ensures
        yes == sorts_before(a@, b@),
{
    let mut i: usize = 0;
    assert(a@.skip(0) =~= a@);
    assert(b@.skip(0) =~= b@);
    loop
        invariant
            i <= a@.len(),
            i <= b@.len(),
            sorts_before(a@, b@) == sorts_before(a@.skip(i as int), b@.skip(i as int)),
        decreases a@.len() - i,
    {
        if i >= b.len() {
            return false;
        }
        if i >= a.len() {
            return true;
        }
        if a[i] != b[i] {
            return a[i] < b[i];
        }
        assert(a@.skip(i as int).skip(1) =~= a@.skip(i + 1));
        assert(b@.skip(i as int).skip(1) =~= b@.skip(i + 1));
        i = i + 1;
    }
}

fn push_raised(key: &mut Vec<u16>, bytes: &[u8])
    ensures
        final(key)@ == old(key)@ + raised_bytes(bytes@),
{
    for i in 0..bytes.len()
        invariant
            key@ == old(key)@ + raised_bytes(bytes@).take(i as int),
    {
        key.push(bytes[i] as u16 + 1);
        assert(raised_bytes(bytes@).take(i + 1) =~= raised_bytes(bytes@).take(i as int).push(
            raised_bytes(bytes@)[i as int],
        ));
    }
    assert(key@ =~= old(key)@ + raised_bytes(bytes@));
}

fn key_of(candidate: &InterfaceV4) -> (key: Vec<u16>)
    ensures
        key@ == order_key(candidate@),
{
    let mut key: Vec<u16> = Vec::new();
    key.push(address_rank(&candidate.ip));
    key.push(interface_rank(candidate.name.as_str()));
    push_raised(&mut key, candidate.name.as_str().as_bytes());
    key.push(0);
    push_raised(&mut key, &candidate.ip);
    assert(key@ =~= order_key(candidate@));
    key
}

fn lower_begins(name: &[char], prefix: &str) -> (yes: bool)
    ensures
        yes == begins_with(name@, prefix@),
{
    has_prefix(name, chars_of(prefix).as_slice())
}

fn skipped_interface(name: &str) -> (skipped: bool)
    ensures
        skipped == is_skipped(name@),
{
    let chars = lower(chars_of(name).as_slice());
    let name = chars.as_slice();
    lower_begins(name, "lo") || lower_begins(name, "utun") || lower_begins(name, "awdl")
        || lower_begins(name, "llw") || lower_begins(name, "gif") || lower_begins(name, "stf")
        || lower_begins(name, "anpi") || lower_begins(name, "pktap") || lower_begins(
        name,
        "ipsec",
    ) || lower_begins(name, "ppp") || lower_begins(name, "tun") || lower_begins(name, "tap")
        || lower_begins(name, "wg") || lower_begins(name, "docker") || lower_begins(
        name,
        "vboxnet",
    ) || lower_begins(name, "vmnet") || lower_begins(name, "veth") || lower_begins(name, "virbr")
        || lower_begins(name, "br-") || lower_begins(name, "zt") || lower_begins(
        name,
        "tailscale",
    ) || lower_begins(name, "nan")
}

fn usable_lan(candidate: &InterfaceV4) -> (usable: bool)
    ensures
        usable == is_usable(candidate@),
{
    if skipped_interface(candidate.name.as_str()) {
        return false;
    }
    let ip = &candidate.ip;
    !(ip[0] == 0 && ip[1] == 0 && ip[2] == 0 && ip[3] == 0) && ip[0] != 127 && !(ip[0] == 255
        && ip[1] == 255 && ip[2] == 255 && ip[3] == 255) && !(224 <= ip[0] && ip[0] <= 239) && !(
    ip[0] == 169 && ip[1] == 254)
}

fn address_rank(ip: &[u8; 4]) -> (rank: u16)
    ensures
        rank == ip_rank(ip@),
{
    let a = ip[0];
    let b = ip[1];
    if a == 10 || (a == 172 && 16 <= b && b < 32) || (a == 192 && b == 168) {
        0
    } else if a == 100 && 64 <= b && b < 128 {
        1
    } else {
        2
    }
}

fn interface_rank(name: &str) -> (rank: u16)
    ensures
        rank == name_rank(name@),
{
    let chars = lower(chars_of(name).as_slice());
    let name = chars.as_slice();
    if lower_begins(name, "en") || lower_begins(name, "eth") || lower_begins(name, "wlan")
        || lower_begins(name, "wl") || lower_begins(name, "wifi") {
        0
    } else if lower_begins(name, "ap") || lower_begins(name, "bridge") {
        1
    } else {
        2
    }
}

/// The candidate at `at` is the usable one that comes first in the order, and
/// the first of those that are equal in it.
pub open spec fn is_best(candidates: Seq<InterfaceView>, at: int) -> bool {
    &&& 0 <= at < candidates.len()
    &&& is_usable(candidates[at])
    &&& forall|i: int|
        0 <= i < candidates.len() && is_usable(#[trigger] candidates[i]) ==> !sorts_before(
            order_key(candidates[i]),
            order_key(candidates[at]),
        )
    &&& forall|i: int|
        0 <= i < at && is_usable(#[trigger] candidates[i]) ==> sorts_before(
            order_key(candidates[at]),
            order_key(candidates[i]),
        )
}

/// The address that a phone can open, where there is one.
pub fn pick_lan_ipv4(candidates: &[InterfaceV4]) -> (picked: Option<&InterfaceV4>)
    ensures
        match picked {
            Some(chosen) => exists|at: int|
                #[trigger] is_best(seq_view(candidates@), at) && *chosen == candidates@[at],
            None => forall|i: int|
                0 <= i < candidates@.len() ==> !is_usable(#[trigger] candidates@[i]@),
        },
        (exists|i: int|
            0 <= i < candidates@.len() && is_private((#[trigger] candidates@[i]).ip@)
                && !leads_elsewhere(candidates@[i].name@)) ==> picked is Some && is_private(
            picked->0.ip@,
        ) && !leads_elsewhere(picked->0.name@),
{
    let ghost views = seq_view(candidates@);
    let mut best: Option<usize> = None;
    for i in 0..candidates.len()
        invariant
            views == seq_view(candidates@),
            match best {
                Some(at) => at < i && is_best(views.take(i as int), at as int),
                None => forall|j: int| 0 <= j < i ==> !is_usable(#[trigger] views[j]),
            },
    {
        let ghost seen = views.take(i as int);
        let ghost more = views.take(i + 1);
        assert(forall|j: int| 0 <= j < i ==> #[trigger] seen[j] == more[j]);
        assert(more[i as int] == candidates@[i as int]@);
        if usable_lan(&candidates[i]) {
            match best {
                None => {
                    proof {
                        lemma_order_irreflexive(order_key(views[i as int]));
                        assert forall|j: int| 0 <= j < i implies !is_usable(#[trigger] more[j]) by {
                            assert(!is_usable(views[j]));
                        }
                        assert(is_best(more, i as int));
                    }
                    best = Some(i);
                },
                Some(at) => {
                    let here = key_of(&candidates[i]);
                    let there = key_of(&candidates[at]);
                    assert(there@ == order_key(seen[at as int]));
                    if comes_before(&here, &there) {
                        proof {
                            lemma_order_irreflexive(order_key(views[i as int]));
                            assert forall|j: int|
                                0 <= j < i && is_usable(#[trigger] more[j]) implies sorts_before(
                                here@,
                                order_key(more[j]),
                            ) && !sorts_before(order_key(more[j]), here@) by {
                                assert(is_usable(seen[j]));
                                lemma_order_strict(here@, there@, order_key(more[j]));
                                if sorts_before(order_key(more[j]), here@) {
                                    lemma_order_asymmetric(here@, order_key(more[j]));
                                }
                            }
                            assert(is_best(more, i as int));
                        }
                        best = Some(i);
                    } else {
                        proof {
                            assert(more[at as int] == seen[at as int]);
                            assert forall|j: int|
                                0 <= j < more.len() && is_usable(#[trigger] more[j]) implies !sorts_before(
                                order_key(more[j]),
                                order_key(more[at as int]),
                            ) by {
                                if j < i {
                                    assert(is_usable(seen[j]));
                                }
                            }
                            assert forall|j: int|
                                0 <= j < at && is_usable(#[trigger] more[j]) implies sorts_before(
                                order_key(more[at as int]),
                                order_key(more[j]),
                            ) by {
                                assert(is_usable(seen[j]));
                            }
                            assert(is_best(more, at as int));
                        }
                    }
                },
            }
        } else {
            proof {
                if let Some(at) = best {
                    assert(more[at as int] == seen[at as int]);
                    assert forall|j: int|
                        0 <= j < more.len() && is_usable(#[trigger] more[j]) implies !sorts_before(
                        order_key(more[j]),
                        order_key(more[at as int]),
                    ) by {
                        assert(is_usable(seen[j]));
                    }
                    assert forall|j: int|
                        0 <= j < at && is_usable(#[trigger] more[j]) implies sorts_before(
                        order_key(more[at as int]),
                        order_key(more[j]),
                    ) by {
                        assert(is_usable(seen[j]));
                    }
                    assert(is_best(more, at as int));
                }
            }
        }
    }
    proof {
        assert(views.take(views.len() as int) =~= views);
        lemma_private_is_picked(views, best);
        assert forall|i: int|
            0 <= i < candidates@.len() && is_private((#[trigger] candidates@[i]).ip@)
                && !leads_elsewhere(candidates@[i].name@) implies is_private(views[i].ip)
            && !leads_elsewhere(views[i].name) by {}
    }
    match best {
        Some(at) => Some(&candidates[at]),
        None => {
            assert forall|i: int| 0 <= i < candidates@.len() implies !is_usable(
                #[trigger] candidates@[i]@,
            ) by {
                assert(!is_usable(views[i]));
            }
            None
        },
    }
}

proof fn lemma_order_asymmetric(a: Seq<u16>, b: Seq<u16>)
    requires
        sorts_before(a, b),
    ensures
        !sorts_before(b, a),
    decreases a.len(),
{
    if a.len() > 0 && b.len() > 0 && a[0] == b[0] {
        lemma_order_asymmetric(a.skip(1), b.skip(1));
    }
}

/// No two candidates are best.
pub proof fn best_is_unique(candidates: Seq<InterfaceView>, a: int, b: int)
    requires
        is_best(candidates, a),
        is_best(candidates, b),
    ensures
        a == b,
{
    if a < b {
        assert(is_usable(candidates[a]));
    } else if b < a {
        assert(is_usable(candidates[b]));
    }
}

/// An address in decimal parts.
pub open spec fn ip_text(ip: Seq<u8>) -> Seq<char> {
    decimal_text(ip[0] as nat) + "."@ + decimal_text(ip[1] as nat) + "."@ + decimal_text(
        ip[2] as nat,
    ) + "."@ + decimal_text(ip[3] as nat)
}

pub fn format_ip(ip: &[u8; 4]) -> (text: String)
    ensures
        text@ == ip_text(ip@),
{
    let mut text = decimal(ip[0] as u64);
    text.append(".");
    text.append(decimal(ip[1] as u64).as_str());
    text.append(".");
    text.append(decimal(ip[2] as u64).as_str());
    text.append(".");
    text.append(decimal(ip[3] as u64).as_str());
    text
}

/// What is said of the address that a phone must reach.
pub open spec fn visibility_text(
    ip: Seq<char>,
    interface: Seq<char>,
    wifi: Option<Seq<char>>,
    ssid: Option<Seq<char>>,
) -> Seq<char> {
    match (wifi, ssid) {
        (Some(wifi), Some(ssid)) => if wifi == interface {
            "lan address "@ + ip + " on "@ + wifi + " (Wi-Fi "@ + ssid
                + "). Put the phone on this Wi-Fi."@
        } else {
            "quick share address "@ + ip + " is on "@ + interface + ", and Wi-Fi "@ + ssid
                + " is on "@ + wifi + ". The phone must be able to reach "@ + ip + "."@
        },
        (Some(wifi), None) => if wifi == interface {
            "lan address "@ + ip + " on "@ + wifi
                + ", the Wi-Fi interface. Put the phone on this same network."@
        } else {
            "lan address "@ + ip + " is on "@ + interface + ". Wi-Fi is "@ + wifi
                + ". Put the phone on the network that can reach "@ + ip + "."@
        },
        (None, _) => "lan address "@ + ip + " on "@ + interface
            + ". Quick Share needs the phone on a network that can reach it. AirDrop from an iPhone uses AWDL."@,
    }
}

pub fn explain_visibility(lan: &LanAddress, wifi_interface: Option<&str>, ssid: Option<&str>) -> (text:
    String)
    ensures
        text@ == visibility_text(
            ip_text(lan.ip@),
            lan.interface@,
            opt_view(wifi_interface),
            opt_view(ssid),
        ),
{
    let ip = format_ip(&lan.ip);
    let interface = lan.interface.as_str();
    let mut text = String::new();
    match (wifi_interface, ssid) {
        (Some(wifi), Some(ssid)) => if same_text(wifi, interface) {
            text.append("lan address ");
            text.append(ip.as_str());
            text.append(" on ");
            text.append(wifi);
            text.append(" (Wi-Fi ");
            text.append(ssid);
            text.append("). Put the phone on this Wi-Fi.");
        } else {
            text.append("quick share address ");
            text.append(ip.as_str());
            text.append(" is on ");
            text.append(interface);
            text.append(", and Wi-Fi ");
            text.append(ssid);
            text.append(" is on ");
            text.append(wifi);
            text.append(". The phone must be able to reach ");
            text.append(ip.as_str());
            text.append(".");
        },
        (Some(wifi), None) => if same_text(wifi, interface) {
            text.append("lan address ");
            text.append(ip.as_str());
            text.append(" on ");
            text.append(wifi);
            text.append(", the Wi-Fi interface. Put the phone on this same network.");
        } else {
            text.append("lan address ");
            text.append(ip.as_str());
            text.append(" is on ");
            text.append(interface);
            text.append(". Wi-Fi is ");
            text.append(wifi);
            text.append(". Put the phone on the network that can reach ");
            text.append(ip.as_str());
            text.append(".");
        },
        (None, _) => {
            text.append("lan address ");
            text.append(ip.as_str());
            text.append(" on ");
            text.append(interface);
            text.append(
                ". Quick Share needs the phone on a network that can reach it. AirDrop from an iPhone uses AWDL.",
            );
        },
    }
    assert(text@ =~= visibility_text(
        ip_text(lan.ip@),
        lan.interface@,
        opt_view(wifi_interface),
        opt_view(ssid),
    ));
    text
}

/// What is said where nothing is known of Wi-Fi, or where there is no address.
pub open spec fn report_text(lan: Option<(Seq<char>, Seq<char>)>) -> Seq<char> {
    match lan {
        Some((ip, interface)) => "lan address "@ + ip + " on "@ + interface
            + ". Quick Share needs the phone on a network that can reach it."@,
        None => "no private IPv4 address. Quick Share needs the phone on a shared network. AirDrop from an iPhone uses AWDL and does not need that address."@,
    }
}

/// One line that tells which address a phone has to reach, where nothing is
/// known of Wi-Fi.
pub fn visibility_report(lan: Option<&LanAddress>) -> (text: String)
    ensures
        text@ == report_text(
            match lan {
                Some(lan) => Some((ip_text(lan.ip@), lan.interface@)),
                None => None,
            },
        ),
{
    match lan {
        Some(lan) => {
            let mut text = "lan address ".to_owned();
            text.append(format_ip(&lan.ip).as_str());
            text.append(" on ");
            text.append(lan.interface.as_str());
            text.append(". Quick Share needs the phone on a network that can reach it.");
            text
        },
        None => "no private IPv4 address. Quick Share needs the phone on a shared network. AirDrop from an iPhone uses AWDL and does not need that address.".to_owned(),
    }
}

/// What follows a prefix.
pub open spec fn without_prefix(text: Seq<char>, prefix: Seq<char>) -> Option<Seq<char>> {
    if begins_with(text, prefix) {
        Some(text.skip(prefix.len() as int))
    } else {
        None
    }
}

fn strip_prefix(text: &[char], prefix: &str) -> (rest: Option<Vec<char>>)
    ensures
        opt_view(rest) == without_prefix(text@, prefix@),
{
    let prefix = chars_of(prefix);
    if has_prefix(text, prefix.as_slice()) {
        let rest = slice_of(text, prefix.len(), text.len());
        assert(rest@ =~= text@.skip(prefix@.len() as int));
        Some(rest)
    } else {
        None
    }
}

/// The port that a list of hardware ports names before its devices is the radio.
pub open spec fn is_radio(port: Seq<char>) -> bool {
    lowered(port) == "wi-fi"@ || lowered(port) == "airport"@
}

/// The device of the radio in a list of hardware ports, when `port` was named
/// last.
pub open spec fn radio_device(lines: Seq<Seq<char>>, port: Seq<char>) -> Option<Seq<char>>
    decreases lines.len(),
{
    if lines.len() == 0 {
        None
    } else {
        let line = trimmed(lines[0]);
        match without_prefix(line, "Hardware Port:"@) {
            Some(rest) => radio_device(lines.skip(1), trimmed(rest)),
            None => match without_prefix(line, "Device:"@) {
                Some(rest) => if is_radio(port) && trimmed(rest).len() > 0 {
                    Some(trimmed(rest))
                } else {
                    radio_device(lines.skip(1), port)
                },
                None => radio_device(lines.skip(1), port),
            },
        }
    }
}

fn radio_port(port: &Vec<char>) -> (yes: bool)
    ensures
        yes == is_radio(port@),
{
    let name = string_of(lower(port.as_slice()).as_slice());
    same_text(name.as_str(), "wi-fi") || same_text(name.as_str(), "airport")
}

/// The device of the radio in a list of hardware ports.
pub fn parse_wifi_device(hardware_ports: &str) -> (device: Option<String>)
    ensures
        opt_view(device) == radio_device(text_lines(hardware_ports@), Seq::empty()),
{
    let lines = split_lines(chars_of(hardware_ports).as_slice());
    let ghost views = text_lines(hardware_ports@);
    let mut port: Vec<char> = Vec::new();
    assert(views.skip(0) =~= views);
    assert(port@ =~= Seq::empty());
    for i in 0..lines.len()
        invariant
            views == seq_view(lines@),
            views == text_lines(hardware_ports@),
            radio_device(views, Seq::empty()) == radio_device(views.skip(i as int), port@),
    {
        assert(views.skip(i as int)[0] == lines@[i as int]@);
        assert(views.skip(i as int).skip(1) =~= views.skip(i + 1));
        let line = trim(lines[i].as_slice());
        if let Some(rest) = strip_prefix(line.as_slice(), "Hardware Port:") {
            port = trim(rest.as_slice());
        } else if let Some(rest) = strip_prefix(line.as_slice(), "Device:") {
            if radio_port(&port) {
                let device = trim(rest.as_slice());
                if device.len() > 0 {
                    return Some(string_of(device.as_slice()));
                }
            }
        }
    }
    None
}

/// The text without colons in front.
pub open spec fn without_colons(text: Seq<char>) -> Seq<char>
    decreases text.len(),
{
    if text.len() > 0 && text[0] == ':' {
        without_colons(text.skip(1))
    } else {
        text
    }
}

/// What follows the label of a line that names the network.
pub open spec fn after_label(line: Seq<char>) -> Option<Seq<char>> {
    match without_prefix(line, "Current Wi-Fi Network:"@) {
        Some(rest) => Some(rest),
        None => without_prefix(line, "Current Wi-Fi Network"@),
    }
}

/// The name of the network in the output of the system: every line up to the one
/// that names it must begin as such a line does.
pub open spec fn network_name(lines: Seq<Seq<char>>) -> Option<Seq<char>>
    decreases lines.len(),
{
    if lines.len() == 0 {
        None
    } else {
        match after_label(trimmed(lines[0])) {
            None => None,
            Some(rest) => {
                let name = trimmed(without_colons(trimmed(rest)));
                if name.len() > 0 {
                    Some(name)
                } else {
                    network_name(lines.skip(1))
                }
            },
        }
    }
}

fn strip_colons(text: &[char]) -> (rest: Vec<char>)
    ensures
        rest@ == without_colons(text@),
{
    let mut start: usize = 0;
    assert(text@.skip(0) =~= text@);
    while start < text.len() && text[start] == ':'
        invariant
            start <= text@.len(),
            without_colons(text@) == without_colons(text@.skip(start as int)),
        decreases text@.len() - start,
    {
        assert(text@.skip(start as int).skip(1) =~= text@.skip(start + 1));
        start = start + 1;
    }
    assert(text@.skip(start as int) =~= text@.subrange(start as int, text@.len() as int));
    slice_of(text, start, text.len())
}

/// The name of the network in the output of the system.
pub fn parse_airport_ssid(output: &str) -> (ssid: Option<String>)
    ensures
        opt_view(ssid) == network_name(text_lines(output@)),
{
    let lines = split_lines(chars_of(output).as_slice());
    let ghost views = text_lines(output@);
    assert(views.skip(0) =~= views);
    for i in 0..lines.len()
        invariant
            views == seq_view(lines@),
            views == text_lines(output@),
            network_name(views) == network_name(views.skip(i as int)),
    {
        assert(views.skip(i as int)[0] == lines@[i as int]@);
        assert(views.skip(i as int).skip(1) =~= views.skip(i + 1));
        let line = trim(lines[i].as_slice());
        let rest = match strip_prefix(line.as_slice(), "Current Wi-Fi Network:") {
            Some(rest) => rest,
            None => match strip_prefix(line.as_slice(), "Current Wi-Fi Network") {
                Some(rest) => rest,
                None => return None,
            },
        };
        let name = trim(strip_colons(trim(rest.as_slice()).as_slice()).as_slice());
        if name.len() > 0 {
            return Some(string_of(name.as_slice()));
        }
    }
    None
}

/// A private address: 10/8, 172.16/12 or 192.168/16.
pub open spec fn is_private(ip: Seq<u8>) -> bool {
    ||| ip[0] == 10
    ||| ip[0] == 172 && 16 <= ip[1] <= 31
    ||| ip[0] == 192 && ip[1] == 168
}

/// An address that a carrier shares out: 100.64/10.
pub open spec fn is_shared(ip: Seq<u8>) -> bool {
    ip[0] == 100 && 64 <= ip[1] <= 127
}

/// Interfaces of tunnels, virtual machines, peer-to-peer radio and the machine
/// itself, by the beginning of their names in either case.
pub open spec fn leads_elsewhere(name: Seq<char>) -> bool {
    ||| starts_spelled(name, "lo"@)
    ||| starts_spelled(name, "utun"@)
    ||| starts_spelled(name, "awdl"@)
    ||| starts_spelled(name, "llw"@)
    ||| starts_spelled(name, "gif"@)
    ||| starts_spelled(name, "stf"@)
    ||| starts_spelled(name, "anpi"@)
    ||| starts_spelled(name, "pktap"@)
    ||| starts_spelled(name, "ipsec"@)
    ||| starts_spelled(name, "ppp"@)
    ||| starts_spelled(name, "tun"@)
    ||| starts_spelled(name, "tap"@)
    ||| starts_spelled(name, "wg"@)
    ||| starts_spelled(name, "docker"@)
    ||| starts_spelled(name, "vboxnet"@)
    ||| starts_spelled(name, "vmnet"@)
    ||| starts_spelled(name, "veth"@)
    ||| starts_spelled(name, "virbr"@)
    ||| starts_spelled(name, "br-"@)
    ||| starts_spelled(name, "zt"@)
    ||| starts_spelled(name, "tailscale"@)
    ||| starts_spelled(name, "nan"@)
}

/// Cables and radio, by the beginning of their names in either case.
pub open spec fn is_cable_or_radio(name: Seq<char>) -> bool {
    ||| starts_spelled(name, "en"@)
    ||| starts_spelled(name, "eth"@)
    ||| starts_spelled(name, "wlan"@)
    ||| starts_spelled(name, "wl"@)
    ||| starts_spelled(name, "wifi"@)
}

proof fn lemma_names(name: Seq<char>)
    ensures
        is_skipped(name) == leads_elsewhere(name),
        name_rank(name) == 0 <==> is_cable_or_radio(name),
        name_rank(name) == 1 <==> !is_cable_or_radio(name) && (starts_spelled(name, "ap"@)
            || starts_spelled(name, "bridge"@)),
{
    reveal_strlit("lo");
    lemma_starts_spelled(name, "lo"@);
    reveal_strlit("utun");
    lemma_starts_spelled(name, "utun"@);
    reveal_strlit("awdl");
    lemma_starts_spelled(name, "awdl"@);
    reveal_strlit("llw");
    lemma_starts_spelled(name, "llw"@);
    reveal_strlit("gif");
    lemma_starts_spelled(name, "gif"@);
    reveal_strlit("stf");
    lemma_starts_spelled(name, "stf"@);
    reveal_strlit("anpi");
    lemma_starts_spelled(name, "anpi"@);
    reveal_strlit("pktap");
    lemma_starts_spelled(name, "pktap"@);
    reveal_strlit("ipsec");
    lemma_starts_spelled(name, "ipsec"@);
    reveal_strlit("ppp");
    lemma_starts_spelled(name, "ppp"@);
    reveal_strlit("tun");
    lemma_starts_spelled(name, "tun"@);
    reveal_strlit("tap");
    lemma_starts_spelled(name, "tap"@);
    reveal_strlit("wg");
    lemma_starts_spelled(name, "wg"@);
    reveal_strlit("docker");
    lemma_starts_spelled(name, "docker"@);
    reveal_strlit("vboxnet");
    lemma_starts_spelled(name, "vboxnet"@);
    reveal_strlit("vmnet");
    lemma_starts_spelled(name, "vmnet"@);
    reveal_strlit("veth");
    lemma_starts_spelled(name, "veth"@);
    reveal_strlit("virbr");
    lemma_starts_spelled(name, "virbr"@);
    reveal_strlit("br-");
    lemma_starts_spelled(name, "br-"@);
    reveal_strlit("zt");
    lemma_starts_spelled(name, "zt"@);
    reveal_strlit("tailscale");
    lemma_starts_spelled(name, "tailscale"@);
    reveal_strlit("nan");
    lemma_starts_spelled(name, "nan"@);
    reveal_strlit("en");
    lemma_starts_spelled(name, "en"@);
    reveal_strlit("eth");
    lemma_starts_spelled(name, "eth"@);
    reveal_strlit("wlan");
    lemma_starts_spelled(name, "wlan"@);
    reveal_strlit("wl");
    lemma_starts_spelled(name, "wl"@);
    reveal_strlit("wifi");
    lemma_starts_spelled(name, "wifi"@);
    reveal_strlit("ap");
    lemma_starts_spelled(name, "ap"@);
    reveal_strlit("bridge");
    lemma_starts_spelled(name, "bridge"@);
}

/// Every private address on an interface that leads to the local network is
/// usable; so is every other unicast address there, and no loopback, link-local,
/// multicast, broadcast or unspecified one. Nothing on another interface is.
pub proof fn usable_addresses(candidate: InterfaceView)
    requires
        candidate.ip.len() == 4,
    ensures
        is_private(candidate.ip) && !leads_elsewhere(candidate.name) ==> is_usable(candidate),
        is_shared(candidate.ip) && !leads_elsewhere(candidate.name) ==> is_usable(candidate),
        1 <= candidate.ip[0] <= 223 && candidate.ip[0] != 127 && !(candidate.ip[0] == 169
            && candidate.ip[1] == 254) && !leads_elsewhere(candidate.name) ==> is_usable(candidate),
        candidate.ip[0] == 127 || 224 <= candidate.ip[0] <= 239 || (candidate.ip[0] == 169
            && candidate.ip[1] == 254) ==> !is_usable(candidate),
        candidate.ip == seq![0u8, 0, 0, 0] || candidate.ip == seq![255u8, 255, 255, 255]
            ==> !is_usable(candidate),
        leads_elsewhere(candidate.name) ==> !is_usable(candidate),
{
    lemma_names(candidate.name);
}

proof fn lemma_first_difference(a: Seq<u16>, b: Seq<u16>, at: int)
    requires
        0 <= at < a.len(),
        at < b.len(),
        forall|i: int| 0 <= i < at ==> a[i] == b[i],
        a[at] < b[at],
    ensures
        sorts_before(a, b),
    decreases at,
{
    if at > 0 {
        assert(a[0] == b[0]);
        assert forall|i: int| 0 <= i < at - 1 implies a.skip(1)[i] == b.skip(1)[i] by {
            assert(a[i + 1] == b[i + 1]);
        }
        lemma_first_difference(a.skip(1), b.skip(1), at - 1);
    }
}

/// The chosen address is private where any usable one is, and else shared where
/// any is.
pub proof fn private_addresses_come_first(candidates: Seq<InterfaceView>, at: int, i: int)
    requires
        is_best(candidates, at),
        0 <= i < candidates.len(),
        is_usable(candidates[i]),
    ensures
        is_private(candidates[i].ip) ==> is_private(candidates[at].ip),
        is_shared(candidates[i].ip) ==> is_private(candidates[at].ip) || is_shared(
            candidates[at].ip,
        ),
{
    let mine = order_key(candidates[at]);
    let other = order_key(candidates[i]);
    if other[0] < mine[0] {
        lemma_first_difference(other, mine, 0);
    }
}

/// Among addresses of one kind, one on a cable or radio is chosen where there is
/// one; among those, the one whose name comes first.
pub proof fn cables_and_radio_come_first(candidates: Seq<InterfaceView>, at: int, i: int)
    requires
        is_best(candidates, at),
        0 <= i < candidates.len(),
        is_usable(candidates[i]),
        is_private(candidates[i].ip) == is_private(candidates[at].ip),
        is_shared(candidates[i].ip) == is_shared(candidates[at].ip),
    ensures
        is_cable_or_radio(candidates[i].name) ==> is_cable_or_radio(candidates[at].name),
        is_cable_or_radio(candidates[i].name) ==> forall|k: int|
            0 <= k < encode_utf8(candidates[i].name).len() && k < encode_utf8(
                candidates[at].name,
            ).len() && encode_utf8(candidates[i].name).take(k) == encode_utf8(
                candidates[at].name,
            ).take(k) ==> #[trigger] encode_utf8(candidates[at].name)[k] <= encode_utf8(
                candidates[i].name,
            )[k],
{
    lemma_names(candidates[i].name);
    lemma_names(candidates[at].name);
    let mine = order_key(candidates[at]);
    let other = order_key(candidates[i]);
    assert(other[0] == mine[0]);
    if other[1] < mine[1] {
        lemma_first_difference(other, mine, 1);
    }
    if is_cable_or_radio(candidates[i].name) {
        let a = encode_utf8(candidates[at].name);
        let b = encode_utf8(candidates[i].name);
        assert forall|k: int|
            0 <= k < b.len() && k < a.len() && b.take(k) == a.take(k) implies #[trigger] a[k]
            <= b[k] by {
            if a[k] > b[k] {
                assert forall|j: int| 0 <= j < k + 2 implies other[j] == mine[j] by {
                    if j >= 2 {
                        assert(b.take(k)[j - 2] == a.take(k)[j - 2]);
                    }
                }
                lemma_first_difference(other, mine, k + 2);
            }
        }
    }
}

/// An address in words is its four numbers in decimal with dots between them, so
/// different addresses read differently.
pub proof fn addresses_read_differently(a: Seq<u8>, b: Seq<u8>)
    requires
        a.len() == 4,
        b.len() == 4,
    ensures
        parts_at(ip_text(a), '.') == Seq::new(4, |i: int| decimal_text(a[i] as nat)),
        ip_text(a) == ip_text(b) ==> a == b,
{
    lemma_ip_parts(a);
    lemma_ip_parts(b);
    if ip_text(a) == ip_text(b) {
        let x = Seq::new(4, |i: int| decimal_text(a[i] as nat));
        let y = Seq::new(4, |i: int| decimal_text(b[i] as nat));
        assert forall|i: int| 0 <= i < 4 implies a[i] == b[i] by {
            assert(x[i] == y[i]);
            decimal_is_one_to_one(a[i] as nat, b[i] as nat);
        }
        assert(a =~= b);
    }
}

proof fn lemma_ip_parts(ip: Seq<u8>)
    requires
        ip.len() == 4,
    ensures
        parts_at(ip_text(ip), '.') == Seq::new(4, |i: int| decimal_text(ip[i] as nat)),
{
    reveal_strlit(".");
    let one = decimal_text(ip[0] as nat);
    let two = decimal_text(ip[1] as nat);
    let three = decimal_text(ip[2] as nat);
    let four = decimal_text(ip[3] as nat);
    lemma_decimal_digits(ip[0] as nat);
    lemma_decimal_digits(ip[1] as nat);
    lemma_decimal_digits(ip[2] as nat);
    lemma_decimal_digits(ip[3] as nat);
    let none = Seq::<char>::empty();
    lemma_parts_append(none, one, '.');
    assert(none + one =~= one);
    assert((one + "."@).drop_last() =~= one);
    lemma_parts_append(one + "."@, two, '.');
    assert((one + "."@ + two + "."@).drop_last() =~= one + "."@ + two);
    lemma_parts_append(one + "."@ + two + "."@, three, '.');
    assert((one + "."@ + two + "."@ + three + "."@).drop_last() =~= one + "."@ + two + "."@ + three);
    lemma_parts_append(one + "."@ + two + "."@ + three + "."@, four, '.');
    assert(none + two =~= two && none + three =~= three && none + four =~= four);
    assert(parts_at(ip_text(ip), '.') =~= Seq::new(4, |i: int| decimal_text(ip[i] as nat)));
}

proof fn lemma_private_is_picked(candidates: Seq<InterfaceView>, best: Option<usize>)
    requires
        forall|i: int| 0 <= i < candidates.len() ==> (#[trigger] candidates[i]).ip.len() == 4,
        match best {
            Some(at) => is_best(candidates, at as int),
            None => forall|i: int| 0 <= i < candidates.len() ==> !is_usable(#[trigger] candidates[i]),
        },
    ensures
        (exists|i: int|
            0 <= i < candidates.len() && is_private((#[trigger] candidates[i]).ip)
                && !leads_elsewhere(candidates[i].name)) ==> best is Some && is_private(
            candidates[best->0 as int].ip,
        ) && !leads_elsewhere(candidates[best->0 as int].name),
{
    if exists|i: int|
        0 <= i < candidates.len() && is_private((#[trigger] candidates[i]).ip) && !leads_elsewhere(
            candidates[i].name,
        ) {
        let i = choose|i: int|
            0 <= i < candidates.len() && is_private((#[trigger] candidates[i]).ip)
                && !leads_elsewhere(candidates[i].name);
        usable_addresses(candidates[i]);
        private_addresses_come_first(candidates, best->0 as int, i);
        usable_addresses(candidates[best->0 as int]);
    }
}

/// How an interface is connected, by its name: 0 over a cable or radio, 1 as an
/// access point or bridge, 2 otherwise.
pub open spec fn class_of(name: Seq<char>) -> int {
    if is_cable_or_radio(name) {
        0
    } else if starts_spelled(name, "ap"@) || starts_spelled(name, "bridge"@) {
        1
    } else {
        2
    }
}

/// Among addresses of one kind the class of the interface decides. Among interfaces
/// of one class the name that comes first does, byte by byte, a shorter one before
/// a longer one that begins like it; and of one name the lower address does.
pub proof fn ties_are_broken(candidates: Seq<InterfaceView>, at: int, i: int)
    requires
        is_best(candidates, at),
        0 <= i < candidates.len(),
        is_usable(candidates[i]),
        candidates[i].ip.len() == 4,
        candidates[at].ip.len() == 4,
        is_private(candidates[i].ip) == is_private(candidates[at].ip),
        is_shared(candidates[i].ip) == is_shared(candidates[at].ip),
    ensures
        class_of(candidates[at].name) <= class_of(candidates[i].name),
        class_of(candidates[at].name) == class_of(candidates[i].name) ==> {
            let mine = encode_utf8(candidates[at].name);
            let other = encode_utf8(candidates[i].name);
            &&& forall|k: int|
                0 <= k < mine.len() && k < other.len() && mine.take(k) == other.take(k)
                    ==> #[trigger] mine[k] <= other[k]
            &&& other.len() < mine.len() ==> mine.take(other.len() as int) != other
            &&& mine == other ==> forall|k: int|
                0 <= k < 4 && candidates[at].ip.take(k) == candidates[i].ip.take(k) ==> #[trigger] candidates[at].ip[k]
                    <= candidates[i].ip[k]
        },
{
    lemma_names(candidates[i].name);
    lemma_names(candidates[at].name);
    let mine = order_key(candidates[at]);
    let other = order_key(candidates[i]);
    assert(other[0] == mine[0]);
    assert(mine[1] == class_of(candidates[at].name));
    assert(other[1] == class_of(candidates[i].name));
    if other[1] < mine[1] {
        lemma_first_difference(other, mine, 1);
    }
    if mine[1] == other[1] {
        let a = encode_utf8(candidates[at].name);
        let b = encode_utf8(candidates[i].name);
        assert forall|k: int|
            0 <= k < a.len() && k < b.len() && a.take(k) == b.take(k) implies #[trigger] a[k]
            <= b[k] by {
            if a[k] > b[k] {
                assert forall|j: int| 0 <= j < k + 2 implies other[j] == mine[j] by {
                    if j >= 2 {
                        assert(b.take(k)[j - 2] == a.take(k)[j - 2]);
                    }
                }
                lemma_first_difference(other, mine, k + 2);
            }
        }
        if b.len() < a.len() && a.take(b.len() as int) == b {
            assert forall|j: int| 0 <= j < b.len() + 2 implies other[j] == mine[j] by {
                if j >= 2 {
                    assert(a.take(b.len() as int)[j - 2] == b[j - 2]);
                }
            }
            lemma_first_difference(other, mine, b.len() as int + 2);
        }
        if a == b {
            let x = candidates[at].ip;
            let y = candidates[i].ip;
            assert forall|k: int| 0 <= k < 4 && x.take(k) == y.take(k) implies #[trigger] x[k]
                <= y[k] by {
                if x[k] > y[k] {
                    let base = a.len() as int + 3;
                    assert forall|j: int| 0 <= j < base + k implies other[j] == mine[j] by {
                        if j >= base {
                            assert(x.take(k)[j - base] == y.take(k)[j - base]);
                        }
                    }
                    lemma_first_difference(other, mine, base + k);
                }
            }
        }
    }
}

} // verus!
