//! How services are announced and found on the local network.
//!
//! On macOS the `dns-sd` command announces them. AirDrop is registered with the
//! addresses of every interface, so that the peer-to-peer one stays in the
//! answer. Companion Link is a proxy with a host name of its own. Quick Share is
//! registered on the interface of the local network only.

use crate::bytes::same_bytes;
use crate::encoding::base64_padded;
use crate::error::{outcome, Error, ErrorView, Result};
use crate::net::{format_ip, ip_text};
use crate::quickshare::endpoint::{decode_b64, filled_up, read_info, EndpointInfo};
use crate::text::{
    after, after_last, before, before_first, chars_of, decimal, decimal_text, holds,
    lemma_after_last_len, lower, lowered, opt_view, same_text, seq_view, slice_of, str_contains,
    string_of,
};
use vstd::prelude::*;
use vstd::utf8::*;

verus! {

/// What `dns-sd` is called with, and what is said of it.
#[derive(Debug, Clone, PartialEq, Eq)]
pub struct DnsSdPlan {
    pub args: Vec<String>,
    pub summary: String,
}

pub ghost struct PlanView {
    pub args: Seq<Seq<char>>,
    pub summary: Seq<char>,
}

impl View for DnsSdPlan {
    type V = PlanView;

    open spec fn view(&self) -> PlanView {
        PlanView { args: seq_view(self.args@), summary: self.summary@ }
    }
}

/// The text without dots around it.
pub open spec fn undotted_start(text: Seq<char>) -> Seq<char>
    decreases text.len(),
{
    if text.len() > 0 && text[0] == '.' {
        undotted_start(text.skip(1))
    } else {
        text
    }
}

pub open spec fn undotted_end(text: Seq<char>) -> Seq<char>
    decreases text.len(),
{
    if text.len() > 0 && text.last() == '.' {
        undotted_end(text.drop_last())
    } else {
        text
    }
}

/// The service type without its domain.
pub open spec fn bare_type(service_type: Seq<char>) -> std::result::Result<Seq<char>, ErrorView> {
    let text = undotted_end(undotted_start(service_type));
    let domain = after_last(text, '.');
    if domain.len() == text.len() {
        Err(ErrorView::Protocol("mDNS service type is invalid"@))
    } else {
        let name = text.take(text.len() - domain.len() - 1);
        if name.len() == 0 || name[0] != '_' || !holds(name, "._"@) {
            Err(
                ErrorView::Protocol("mDNS service type "@ + service_type + " is invalid"@),
            )
        } else {
            Ok(name)
        }
    }
}

/// An instance name takes 1 to 63 bytes, none of them zero.
pub open spec fn instance_fits(instance: Seq<char>) -> bool {
    &&& 0 < encode_utf8(instance).len() <= 63
    &&& forall|i: int| 0 <= i < encode_utf8(instance).len() ==> #[trigger] encode_utf8(instance)[i] != 0
}

/// A byte of a key: ASCII, but not `=` and no white space.
pub open spec fn key_byte(byte: u8) -> bool {
    byte < 0x80 && byte != 0x3D && byte != 0x20 && byte != 0x09 && byte != 0x0A && byte != 0x0C
        && byte != 0x0D
}

pub open spec fn key_fits(key: Seq<char>) -> bool {
    &&& encode_utf8(key).len() > 0
    &&& forall|i: int| 0 <= i < encode_utf8(key).len() ==> key_byte(#[trigger] encode_utf8(key)[i])
}

/// A value holds no line ends and no zero characters.
pub open spec fn value_fits(value: Seq<char>) -> bool {
    forall|i: int| 0 <= i < value.len() ==> (#[trigger] value[i]) != '\n' && value[i] != '\r' && value[i]
        != '\0'
}

pub open spec fn pairs_of(txt: Seq<(&str, &str)>) -> Seq<(Seq<char>, Seq<char>)> {
    Seq::new(txt.len(), |i: int| (txt[i].0@, txt[i].1@))
}

/// What is wrong with a record's text: the first pair that is.
pub open spec fn txt_objection(txt: Seq<(Seq<char>, Seq<char>)>) -> Option<ErrorView>
    decreases txt.len(),
{
    if txt.len() == 0 {
        None
    } else if !key_fits(txt[0].0) {
        Some(ErrorView::Protocol("mDNS txt key is invalid"@))
    } else if !value_fits(txt[0].1) {
        Some(ErrorView::Protocol("mDNS txt value is invalid"@))
    } else {
        txt_objection(txt.skip(1))
    }
}

pub open spec fn txt_args(txt: Seq<(Seq<char>, Seq<char>)>) -> Seq<Seq<char>> {
    Seq::new(txt.len(), |i: int| txt[i].0 + "="@ + txt[i].1)
}

/// The name of an interface: letters, digits, `-` and `_`.
pub open spec fn interface_fits(interface: Seq<char>) -> bool {
    let bytes = encode_utf8(interface);
    &&& bytes.len() > 0
    &&& forall|i: int|
        0 <= i < bytes.len() ==> {
            let byte = #[trigger] bytes[i];
            0x30 <= byte <= 0x39 || 0x41 <= byte <= 0x5A || 0x61 <= byte <= 0x7A || byte == 0x2D
                || byte == 0x5F
        }
}

/// The host name of a service of this program.
pub open spec fn own_host(port: u16) -> Seq<char> {
    "whoosh-"@ + decimal_text(port as nat) + ".local"@
}

/// Whether a service is announced with the addresses of every interface.
pub open spec fn keeps_addresses(service_type: Seq<char>) -> bool {
    holds(service_type, "_airdrop"@)
}

pub open spec fn is_companion(service_type: Seq<char>) -> bool {
    holds(service_type, "_companion-link"@)
}

/// How a service is announced, once its parts are found to be in order.
pub open spec fn registration(
    service_type: Seq<char>,
    reg_type: Seq<char>,
    instance: Seq<char>,
    port: u16,
    txt: Seq<Seq<char>>,
    lan: Option<(Seq<char>, Seq<char>)>,
) -> std::result::Result<PlanView, ErrorView> {
    let port_text = decimal_text(port as nat);
    if is_companion(service_type) {
        match lan {
            None => Err(
                ErrorView::Protocol("companion-link needs the Wi-Fi address of this Mac"@),
            ),
            Some((interface, ip)) => if !interface_fits(interface) {
                Err(ErrorView::Protocol("LAN interface name is invalid"@))
            } else {
                Ok(
                    PlanView {
                        args: seq![
                            "-i"@,
                            interface,
                            "-P"@,
                            instance,
                            reg_type,
                            "local"@,
                            port_text,
                            own_host(port),
                            ip,
                        ] + txt,
                        summary: "iPhone list on "@ + interface + " at "@ + ip + " as "@ + own_host(
                            port,
                        ),
                    },
                )
            },
        }
    } else if keeps_addresses(service_type) || lan is None {
        Ok(
            PlanView {
                args: seq!["-includeAWDL"@, "-R"@, instance, reg_type, "local"@, port_text] + txt,
                summary: "macOS mDNS including AWDL"@,
            },
        )
    } else {
        let (interface, ip) = lan->0;
        if !interface_fits(interface) {
            Err(ErrorView::Protocol("LAN interface name is invalid"@))
        } else {
            Ok(
                PlanView {
                    args: seq!["-i"@, interface, "-R"@, instance, reg_type, "local"@, port_text]
                        + txt,
                    summary: "macOS mDNS on "@ + interface + " at "@ + ip,
                },
            )
        }
    }
}

/// How a service is announced, or why it cannot be.
pub open spec fn plan_of(
    service_type: Seq<char>,
    instance: Seq<char>,
    port: u16,
    txt: Seq<(Seq<char>, Seq<char>)>,
    lan: Option<(Seq<char>, Seq<char>)>,
) -> std::result::Result<PlanView, ErrorView> {
    if !instance_fits(instance) {
        Err(ErrorView::Protocol("mDNS instance name must be 1 to 63 bytes"@))
    } else {
        match bare_type(service_type) {
            Err(error) => Err(error),
            Ok(reg_type) => match txt_objection(txt) {
                Some(error) => Err(error),
                None => registration(service_type, reg_type, instance, port, txt_args(txt), lan),
            },
        }
    }
}

fn trim_dots(text: &[char]) -> (part: Vec<char>)
    ensures
        part@ == undotted_end(undotted_start(text@)),
{
    let mut start: usize = 0;
    assert(text@.skip(0) =~= text@);
    while start < text.len() && text[start] == '.'
        invariant
            start <= text@.len(),
            undotted_start(text@) == undotted_start(text@.skip(start as int)),
        decreases text@.len() - start,
    {
        assert(text@.skip(start as int).skip(1) =~= text@.skip(start + 1));
        start = start + 1;
    }
    let mut end: usize = text.len();
    assert(text@.subrange(start as int, end as int) =~= text@.skip(start as int));
    while end > start && text[end - 1] == '.'
        invariant
            start <= end <= text@.len(),
            undotted_end(undotted_start(text@)) == undotted_end(
                text@.subrange(start as int, end as int),
            ),
        decreases end,
    {
        assert(text@.subrange(start as int, end as int).drop_last() =~= text@.subrange(
            start as int,
            end - 1,
        ));
        end = end - 1;
    }
    slice_of(text, start, end)
}

fn dns_sd_type(service_type: &str) -> (name: Result<String>)
    ensures
        outcome(name) == bare_type(service_type@),
{
    let text = trim_dots(chars_of(service_type).as_slice());
    let domain = after(text.as_slice(), '.');
    proof {
        lemma_after_last_len(text@, '.');
    }
    if domain.len() == text.len() {
        return Err(Error::protocol("mDNS service type is invalid"));
    }
    let name = slice_of(text.as_slice(), 0, text.len() - domain.len() - 1);
    assert(name@ =~= text@.take(text@.len() - domain@.len() - 1));
    let name_text = string_of(name.as_slice());
    if name.len() == 0 || name[0] != '_' || !str_contains(name_text.as_str(), "._") {
        let mut message = "mDNS service type ".to_owned();
        message.append(service_type);
        message.append(" is invalid");
        return Err(Error::Protocol(message));
    }
    Ok(name_text)
}

fn check_interface(interface: &str) -> (checked: Result<()>)
    ensures
        interface_fits(interface@) ==> checked is Ok,
        !interface_fits(interface@) ==> checked is Err && checked->Err_0@ == ErrorView::Protocol(
            "LAN interface name is invalid"@,
        ),
{
    let bytes = interface.as_bytes();
    if bytes.len() == 0 {
        return Err(Error::protocol("LAN interface name is invalid"));
    }
    for i in 0..bytes.len()
        invariant
            bytes@ == encode_utf8(interface@),
            forall|j: int|
                0 <= j < i ==> {
                    let byte = #[trigger] bytes@[j];
                    0x30 <= byte <= 0x39 || 0x41 <= byte <= 0x5A || 0x61 <= byte <= 0x7A || byte
                        == 0x2D || byte == 0x5F
                },
    {
        let byte = bytes[i];
        if !((0x30 <= byte && byte <= 0x39) || (0x41 <= byte && byte <= 0x5A) || (0x61 <= byte
            && byte <= 0x7A) || byte == 0x2D || byte == 0x5F) {
            assert(bytes@[i as int] == byte);
            return Err(Error::protocol("LAN interface name is invalid"));
        }
    }
    Ok(())
}

fn instance_is_valid(instance: &str) -> (yes: bool)
    ensures
        yes == instance_fits(instance@),
{
    let bytes = instance.as_bytes();
    if bytes.len() == 0 || bytes.len() > 63 {
        return false;
    }
    for i in 0..bytes.len()
        invariant
            bytes@ == encode_utf8(instance@),
            forall|j: int| 0 <= j < i ==> #[trigger] bytes@[j] != 0,
    {
        if bytes[i] == 0 {
            assert(bytes@[i as int] == 0);
            return false;
        }
    }
    true
}

fn key_is_valid(key: &str) -> (yes: bool)
    ensures
        yes == key_fits(key@),
{
    let bytes = key.as_bytes();
    if bytes.len() == 0 {
        return false;
    }
    for i in 0..bytes.len()
        invariant
            bytes@ == encode_utf8(key@),
            forall|j: int| 0 <= j < i ==> key_byte(#[trigger] bytes@[j]),
    {
        let byte = bytes[i];
        if byte >= 0x80 || byte == 0x3D || byte == 0x20 || byte == 0x09 || byte == 0x0A || byte
            == 0x0C || byte == 0x0D {
            assert(!key_byte(bytes@[i as int]));
            return false;
        }
    }
    true
}

fn value_is_valid(value: &str) -> (yes: bool)
    ensures
        yes == value_fits(value@),
{
    let chars = chars_of(value);
    for i in 0..chars.len()
        invariant
            chars@ == value@,
            forall|j: int|
                0 <= j < i ==> (#[trigger] chars@[j]) != '\n' && chars@[j] != '\r' && chars@[j]
                    != '\0',
    {
        let c = chars[i];
        if c == '\n' || c == '\r' || c == '\0' {
            assert(value@[i as int] == c);
            return false;
        }
    }
    true
}

fn push_text(list: &mut Vec<String>, text: &str)
    ensures
        seq_view(final(list)@) == seq_view(old(list)@).push(text@),
{
    list.push(text.to_owned());
    assert(seq_view(list@) =~= seq_view(old(list)@).push(text@));
}

fn push_all(list: &mut Vec<String>, more: &Vec<String>)
    ensures
        seq_view(final(list)@) == seq_view(old(list)@) + seq_view(more@),
{
    for i in 0..more.len()
        invariant
            seq_view(list@) == seq_view(old(list)@) + seq_view(more@).take(i as int),
    {
        push_text(list, more[i].as_str());
        assert(seq_view(more@).take(i + 1) =~= seq_view(more@).take(i as int).push(
            more@[i as int]@,
        ));
    }
    assert(seq_view(list@) =~= seq_view(old(list)@) + seq_view(more@));
}

fn txt_arguments(txt: &[(&str, &str)]) -> (args: Result<Vec<String>>)
    ensures
        match txt_objection(pairs_of(txt@)) {
            Some(error) => args is Err && args->Err_0@ == error,
            None => args is Ok && seq_view(args->Ok_0@) == txt_args(pairs_of(txt@)),
        },
{
    let mut args: Vec<String> = Vec::new();
    let ghost pairs = pairs_of(txt@);
    assert(pairs.skip(0) =~= pairs);
    for i in 0..txt.len()
        invariant
            pairs == pairs_of(txt@),
            txt_objection(pairs) == txt_objection(pairs.skip(i as int)),
            seq_view(args@) == txt_args(pairs).take(i as int),
    {
        let (key, value) = txt[i];
        assert(pairs.skip(i as int)[0] == (key@, value@));
        assert(pairs.skip(i as int).skip(1) =~= pairs.skip(i + 1));
        if !key_is_valid(key) {
            return Err(Error::protocol("mDNS txt key is invalid"));
        }
        if !value_is_valid(value) {
            return Err(Error::protocol("mDNS txt value is invalid"));
        }
        let mut arg = key.to_owned();
        arg.append("=");
        arg.append(value);
        push_text(&mut args, arg.as_str());
        assert(txt_args(pairs).take(i + 1) =~= txt_args(pairs).take(i as int).push(arg@));
    }
    assert(seq_view(args@) =~= txt_args(pairs));
    Ok(args)
}

fn host_of(port: u16) -> (host: String)
    ensures
        host@ == own_host(port),
{
    let mut host = "whoosh-".to_owned();
    host.append(decimal(port as u64).as_str());
    host.append(".local");
    host
}

/// Plans the call of `dns-sd`.
pub fn dns_sd_plan(
    service_type: &str,
    instance: &str,
    port: u16,
    txt: &[(&str, &str)],
    lan: Option<(&str, [u8; 4])>,
) -> (plan: Result<DnsSdPlan>)
    ensures
        outcome(plan) == plan_of(
            service_type@,
            instance@,
            port,
            pairs_of(txt@),
            match lan {
                Some((interface, ip)) => Some((interface@, ip_text(ip@))),
                None => None,
            },
        ),
{
    if !instance_is_valid(instance) {
        return Err(Error::protocol("mDNS instance name must be 1 to 63 bytes"));
    }
    let reg_type = dns_sd_type(service_type)?;
    let txt_args = txt_arguments(txt)?;
    let port_text = decimal(port as u64);
    let mut args: Vec<String> = Vec::new();
    assert(seq_view(args@) =~= Seq::empty());
    if str_contains(service_type, "_companion-link") {
        let (interface, ip) = match lan {
            Some(lan) => lan,
            None => return Err(
                Error::protocol("companion-link needs the Wi-Fi address of this Mac"),
            ),
        };
        check_interface(interface)?;
        let ip = format_ip(&ip);
        let host = host_of(port);
        push_text(&mut args, "-i");
        push_text(&mut args, interface);
        push_text(&mut args, "-P");
        push_text(&mut args, instance);
        push_text(&mut args, reg_type.as_str());
        push_text(&mut args, "local");
        push_text(&mut args, port_text.as_str());
        push_text(&mut args, host.as_str());
        push_text(&mut args, ip.as_str());
        assert(seq_view(args@) =~= seq![
            "-i"@,
            interface@,
            "-P"@,
            instance@,
            reg_type@,
            "local"@,
            port_text@,
            host@,
            ip@,
        ]);
        push_all(&mut args, &txt_args);
        let mut summary = "iPhone list on ".to_owned();
        summary.append(interface);
        summary.append(" at ");
        summary.append(ip.as_str());
        summary.append(" as ");
        summary.append(host.as_str());
        return Ok(DnsSdPlan { args, summary });
    }
    if str_contains(service_type, "_airdrop") || lan.is_none() {
        push_text(&mut args, "-includeAWDL");
        push_text(&mut args, "-R");
        push_text(&mut args, instance);
        push_text(&mut args, reg_type.as_str());
        push_text(&mut args, "local");
        push_text(&mut args, port_text.as_str());
        assert(seq_view(args@) =~= seq![
            "-includeAWDL"@,
            "-R"@,
            instance@,
            reg_type@,
            "local"@,
            port_text@,
        ]);
        push_all(&mut args, &txt_args);
        return Ok(DnsSdPlan { args, summary: "macOS mDNS including AWDL".to_owned() });
    }
    let (interface, ip) = match lan {
        Some(lan) => lan,
        None => return Err(Error::protocol("no LAN address")),
    };
    check_interface(interface)?;
    push_text(&mut args, "-i");
    push_text(&mut args, interface);
    push_text(&mut args, "-R");
    push_text(&mut args, instance);
    push_text(&mut args, reg_type.as_str());
    push_text(&mut args, "local");
    push_text(&mut args, port_text.as_str());
    assert(seq_view(args@) =~= seq![
        "-i"@,
        interface@,
        "-R"@,
        instance@,
        reg_type@,
        "local"@,
        port_text@,
    ]);
    push_all(&mut args, &txt_args);
    let mut summary = "macOS mDNS on ".to_owned();
    summary.append(interface);
    summary.append(" at ");
    summary.append(format_ip(&ip).as_str());
    Ok(DnsSdPlan { args, summary })
}

/// Companion Link goes to the local network under a host name of its own; it is
/// never announced without the address there.
pub proof fn companion_has_its_own_host(
    service_type: Seq<char>,
    instance: Seq<char>,
    port: u16,
    txt: Seq<(Seq<char>, Seq<char>)>,
    lan: Option<(Seq<char>, Seq<char>)>,
)
    requires
        is_companion(service_type),
        plan_of(service_type, instance, port, txt, lan) is Ok,
    ensures
        lan is Some,
        plan_of(service_type, instance, port, txt, lan)->Ok_0.args[7] == own_host(port),
{
}

/// The output of `dns-sd` says that a service is registered.
pub open spec fn says_registered(output: Seq<char>) -> bool {
    holds(lowered(output), "registered and active"@)
}

pub fn registration_confirmed(output: &str) -> (confirmed: bool)
    ensures
        confirmed == says_registered(output@),
{
    let text = string_of(lower(chars_of(output).as_slice()).as_slice());
    str_contains(text.as_str(), "registered and active")
}

/// How far the output that is kept may grow before it takes no more.
pub const MAX_CAPTURED: usize = 4096;

/// Keeps a line of the output of `dns-sd`, unless enough is kept already.
pub fn capture_line(captured: &mut String, line: &str)
    ensures
        final(captured)@ == if encode_utf8(old(captured)@).len() < MAX_CAPTURED {
            old(captured)@ + line@
        } else {
            old(captured)@
        },
{
    if captured.as_str().as_bytes().len() < MAX_CAPTURED {
        captured.append(line);
    }
}

/// Whether a registration is waited for.
#[derive(Debug)]
pub enum Registration {
    Confirmed,
    Waiting,
    Failed(Error),
}

pub ghost enum RegistrationView {
    Confirmed,
    Waiting,
    Failed(ErrorView),
}

impl View for Registration {
    type V = RegistrationView;

    open spec fn view(&self) -> RegistrationView {
        match *self {
            Registration::Confirmed => RegistrationView::Confirmed,
            Registration::Waiting => RegistrationView::Waiting,
            Registration::Failed(error) => RegistrationView::Failed(error@),
        }
    }
}

/// What the output so far means, given how the command exited, if it did, and
/// whether the time is up.
pub open spec fn registration_state(
    text: Seq<char>,
    instance: Seq<char>,
    exited: Option<Seq<char>>,
    expired: bool,
) -> RegistrationView {
    if says_registered(text) && holds(text, instance) {
        RegistrationView::Confirmed
    } else {
        match exited {
            Some(status) => RegistrationView::Failed(
                ErrorView::Protocol("dns-sd exited "@ + status + ": "@ + text),
            ),
            None => if expired {
                RegistrationView::Failed(
                    ErrorView::Protocol("dns-sd did not register the service: "@ + text),
                )
            } else {
                RegistrationView::Waiting
            },
        }
    }
}

/// Looks at the output of `dns-sd` while a registration is waited for.
pub fn confirm_registration(text: &str, instance: &str, exited: Option<&str>, expired: bool) -> (state:
    Registration)
    ensures
        state@ == registration_state(text@, instance@, opt_view(exited), expired),
{
    if registration_confirmed(text) && str_contains(text, instance) {
        return Registration::Confirmed;
    }
    match exited {
        Some(status) => {
            let mut message = "dns-sd exited ".to_owned();
            message.append(status);
            message.append(": ");
            message.append(text);
            Registration::Failed(Error::Protocol(message))
        },
        None => if expired {
            let mut message = "dns-sd did not register the service: ".to_owned();
            message.append(text);
            Registration::Failed(Error::Protocol(message))
        } else {
            Registration::Waiting
        },
    }
}

/// How a service is announced without `dns-sd`.
#[derive(Debug, Clone, PartialEq, Eq)]
pub struct UserspacePlan {
    pub host: String,
    /// The address that the record is pinned to; empty where every address of
    /// the machine is announced.
    pub ip: String,
    pub pinned: bool,
}

/// Whether the record is pinned to the address on the local network.
pub open spec fn is_pinned(service_type: Seq<char>, lan: Option<[u8; 4]>) -> bool {
    !keeps_addresses(service_type) && lan is Some
}

/// Plans an announcement without `dns-sd`. A pinned record and Companion Link
/// have a host name of their own.
pub fn userspace_plan(service_type: &str, port: u16, lan: Option<[u8; 4]>, hostname: Option<&str>) -> (plan:
    UserspacePlan)
    ensures
        plan.pinned == is_pinned(service_type@, lan),
        plan.ip@ == if is_pinned(service_type@, lan) {
            ip_text(lan->0@)
        } else {
            Seq::empty()
        },
        plan.host@ == if is_companion(service_type@) || is_pinned(service_type@, lan) {
            own_host(port) + "."@
        } else {
            host_label(opt_view(hostname)) + ".local."@
        },
{
    let pinned = !str_contains(service_type, "_airdrop") && lan.is_some();
    let host = if str_contains(service_type, "_companion-link") || pinned {
        let mut host = host_of(port);
        host.append(".");
        host
    } else {
        mdns_hostname(hostname)
    };
    let ip = match lan {
        Some(ip) => if pinned {
            format_ip(&ip)
        } else {
            String::new()
        },
        None => String::new(),
    };
    UserspacePlan { host, ip, pinned }
}

/// What is said of an announcement without `dns-sd`.
pub fn userspace_detail(plan: &UserspacePlan, fullname: &str) -> (text: String)
    ensures
        text@ == if plan.pinned {
            "userspace mDNS pinned at "@ + plan.ip@
        } else {
            "userspace mDNS "@ + fullname@
        },
{
    if plan.pinned {
        let mut text = "userspace mDNS pinned at ".to_owned();
        text.append(plan.ip.as_str());
        text
    } else {
        let mut text = "userspace mDNS ".to_owned();
        text.append(fullname);
        text
    }
}

/// A character of a host name.
pub open spec fn host_char(c: char) -> bool {
    '0' <= c <= '9' || 'a' <= c <= 'z' || 'A' <= c <= 'Z' || c == '-'
}

/// The characters of a text that may stand in a host name.
pub open spec fn host_chars(text: Seq<char>) -> Seq<char>
    decreases text.len(),
{
    if text.len() == 0 {
        Seq::empty()
    } else if host_char(text.last()) {
        host_chars(text.drop_last()).push(text.last())
    } else {
        host_chars(text.drop_last())
    }
}

/// The first label of a host name: up to 40 characters of the machine's name;
/// `whoosh` where nothing is left or a hyphen would stand at an end.
pub open spec fn host_label(raw: Option<Seq<char>>) -> Seq<char> {
    let kept = host_chars(
        match raw {
            Some(raw) => raw,
            None => "whoosh"@,
        },
    );
    let label = if kept.len() > 40 {
        kept.take(40)
    } else {
        kept
    };
    if label.len() == 0 || label[0] == '-' || label.last() == '-' {
        "whoosh"@
    } else {
        label
    }
}

/// The host name that goes with the machine's name.
pub fn mdns_hostname(raw: Option<&str>) -> (host: String)
    ensures
        host@ == host_label(opt_view(raw)) + ".local."@,
{
    let raw = match raw {
        Some(raw) => raw,
        None => "whoosh",
    };
    let chars = chars_of(raw);
    let mut kept: Vec<char> = Vec::new();
    for i in 0..chars.len()
        invariant
            chars@ == raw@,
            kept@ == host_chars(raw@.take(i as int)),
    {
        let c = chars[i];
        assert(raw@.take(i + 1).drop_last() =~= raw@.take(i as int));
        if ('0' <= c && c <= '9') || ('a' <= c && c <= 'z') || ('A' <= c && c <= 'Z') || c == '-' {
            kept.push(c);
        }
    }
    assert(raw@.take(raw@.len() as int) =~= raw@);
    let label = if kept.len() > 40 {
        let part = slice_of(kept.as_slice(), 0, 40);
        assert(part@ =~= kept@.take(40));
        part
    } else {
        kept
    };
    let mut host = if label.len() == 0 || label[0] == '-' || label[label.len() - 1] == '-' {
        "whoosh".to_owned()
    } else {
        string_of(label.as_slice())
    };
    host.append(".local.");
    host
}

/// The name of this device: the machine's name, where it has one.
pub fn device_name(raw: Option<&str>) -> (name: String)
    ensures
        name@ == match raw {
            Some(raw) if raw@.len() > 0 => raw@,
            _ => "Whoosh"@,
        },
{
    match raw {
        Some(raw) if !raw.is_empty() => raw.to_owned(),
        _ => "Whoosh".to_owned(),
    }
}

/// The address of a machine.
#[derive(Debug, Clone, Copy, PartialEq, Eq)]
pub enum Address {
    V4([u8; 4]),
    V6([u8; 16]),
}

pub ghost enum AddressView {
    V4(Seq<u8>),
    V6(Seq<u8>),
}

impl View for Address {
    type V = AddressView;

    open spec fn view(&self) -> AddressView {
        match *self {
            Address::V4(octets) => AddressView::V4(octets@),
            Address::V6(octets) => AddressView::V6(octets@),
        }
    }
}

/// An address that leads to another machine alone: neither loopback nor
/// multicast.
pub open spec fn leads_out(address: AddressView) -> bool {
    match address {
        AddressView::V4(octets) => octets[0] != 127 && !(224 <= octets[0] <= 239),
        AddressView::V6(octets) => octets[0] != 0xFF && octets != Seq::new(
            16,
            |i: int|
                if i == 15 {
                    1u8
                } else {
                    0u8
                },
        ),
    }
}

fn is_outward(address: &Address) -> (yes: bool)
    ensures
        yes == leads_out(address@),
{
    match address {
        Address::V4(octets) => octets[0] != 127 && !(224 <= octets[0] && octets[0] <= 239),
        Address::V6(octets) => {
            let mut loopback = octets[15] == 1;
            let ghost one = Seq::new(
                16,
                |i: int|
                    if i == 15 {
                        1u8
                    } else {
                        0u8
                    },
            );
            for i in 0..15
                invariant
                    one.len() == 16,
                    forall|j: int| 0 <= j < 15 ==> one[j] == 0,
                    one[15] == 1,
                    loopback == (octets@[15] == 1 && forall|j: int| 0 <= j < i ==> octets@[j] == 0),
            {
                loopback = loopback && octets[i] == 0;
            }
            assert(loopback == (octets@ =~= one)) by {
                if octets@ =~= one {
                    assert(octets@[15] == 1);
                    assert forall|j: int| 0 <= j < 15 implies octets@[j] == 0 by {
                        assert(one[j] == 0);
                    }
                }
            }
            octets[0] != 0xFF && !loopback
        },
    }
}

/// Where the first address that leads out stands; the first of all where none
/// does.
pub open spec fn preferred(addresses: Seq<AddressView>) -> Option<int>
    decreases addresses.len(),
{
    if addresses.len() == 0 {
        None
    } else {
        match first_outward(addresses) {
            Some(at) => Some(at),
            None => Some(0),
        }
    }
}

pub open spec fn first_outward(addresses: Seq<AddressView>) -> Option<int>
    decreases addresses.len(),
{
    if addresses.len() == 0 {
        None
    } else if leads_out(addresses[0]) {
        Some(0)
    } else {
        match first_outward(addresses.skip(1)) {
            Some(at) => Some(at + 1),
            None => None,
        }
    }
}

/// The address to use of those that a service has.
pub fn pick_addr(addresses: &[Address]) -> (picked: Option<Address>)
    ensures
        match preferred(seq_view(addresses@)) {
            Some(at) => picked is Some && 0 <= at < addresses@.len() && picked->0 == addresses@[at],
            None => picked is None,
        },
{
    let ghost views = seq_view(addresses@);
    assert(views.skip(0) =~= views);
    for i in 0..addresses.len()
        invariant
            views == seq_view(addresses@),
            first_outward(views) == match first_outward(views.skip(i as int)) {
                Some(at) => Some(at + i),
                None => None,
            },
    {
        assert(views.skip(i as int)[0] == addresses@[i as int]@);
        assert(views.skip(i as int).skip(1) =~= views.skip(i + 1));
        if is_outward(&addresses[i]) {
            return Some(addresses[i]);
        }
    }
    if addresses.len() == 0 {
        None
    } else {
        Some(addresses[0])
    }
}

/// The address and port of a service.
#[derive(Debug, Clone, Copy, PartialEq, Eq)]
pub struct PeerAddr {
    pub ip: Address,
    pub port: u16,
}

impl View for PeerAddr {
    type V = (AddressView, u16);

    open spec fn view(&self) -> (AddressView, u16) {
        (self.ip@, self.port)
    }
}

/// A service that was found.
#[derive(Debug, Clone)]
pub struct FoundPeer {
    pub instance: String,
    pub addr: PeerAddr,
    pub txt: Vec<(String, String)>,
}

pub ghost struct PeerView {
    pub instance: Seq<char>,
    pub addr: (AddressView, u16),
    pub txt: Seq<(Seq<char>, Seq<char>)>,
}

pub open spec fn txt_view(txt: Seq<(String, String)>) -> Seq<(Seq<char>, Seq<char>)> {
    Seq::new(txt.len(), |i: int| (txt[i].0@, txt[i].1@))
}

impl View for FoundPeer {
    type V = PeerView;

    open spec fn view(&self) -> PeerView {
        PeerView { instance: self.instance@, addr: self.addr@, txt: txt_view(self.txt@) }
    }
}

/// The value of a key of a record.
pub open spec fn txt_value(txt: Seq<(Seq<char>, Seq<char>)>, key: Seq<char>) -> Option<Seq<char>>
    decreases txt.len(),
{
    if txt.len() == 0 {
        None
    } else if txt[0].0 == key {
        Some(txt[0].1)
    } else {
        txt_value(txt.skip(1), key)
    }
}

/// A service that was resolved: its instance name is the first label of its full
/// name. One without an address is none.
pub fn convert(fullname: &str, port: u16, addresses: &[Address], txt: Vec<(String, String)>) -> (peer:
    Option<FoundPeer>)
    ensures
        match preferred(seq_view(addresses@)) {
            Some(at) => peer is Some && peer->0@ == (PeerView {
                instance: before_first(fullname@, '.'),
                addr: (addresses@[at]@, port),
                txt: txt_view(txt@),
            }),
            None => peer is None,
        },
{
    match pick_addr(addresses) {
        Some(ip) => {
            let instance = string_of(before(chars_of(fullname).as_slice(), '.').as_slice());
            Some(FoundPeer { instance, addr: PeerAddr { ip, port }, txt })
        },
        None => None,
    }
}

fn same_addr(a: &PeerAddr, b: &PeerAddr) -> (same: bool)
    ensures
        same == (a@ == b@),
{
    let same_ip = match (&a.ip, &b.ip) {
        (Address::V4(a), Address::V4(b)) => same_bytes(a, b),
        (Address::V6(a), Address::V6(b)) => same_bytes(a, b),
        _ => false,
    };
    same_ip && a.port == b.port
}

/// A service at the address is among those found.
pub open spec fn is_known(peers: Seq<PeerView>, addr: (AddressView, u16)) -> bool {
    exists|i: int| 0 <= i < peers.len() && (#[trigger] peers[i]).addr == addr
}

/// Notes a service, unless one at its address is known.
pub fn note_peer(peers: &mut Vec<FoundPeer>, peer: FoundPeer)
    ensures
        seq_view(final(peers)@) == if is_known(seq_view(old(peers)@), peer@.addr) {
            seq_view(old(peers)@)
        } else {
            seq_view(old(peers)@).push(peer@)
        },
{
    let ghost views = seq_view(peers@);
    for i in 0..peers.len()
        invariant
            peers@ == old(peers)@,
            views == seq_view(peers@),
            forall|j: int| 0 <= j < i ==> (#[trigger] views[j]).addr != peer@.addr,
    {
        if same_addr(&peers[i].addr, &peer.addr) {
            assert(views[i as int].addr == peer@.addr);
            return;
        }
    }
    peers.push(peer);
    assert(seq_view(peers@) =~= views.push(peer@));
}

impl FoundPeer {
    /// The value of a key of its record.
    pub fn txt_get(&self, key: &str) -> (value: Option<&String>)
        ensures
            match txt_value(self@.txt, key@) {
                Some(expected) => value is Some && value->0@ == expected,
                None => value is None,
            },
    {
        let ghost views = self@.txt;
        assert(views.skip(0) =~= views);
        for i in 0..self.txt.len()
            invariant
                views == txt_view(self.txt@),
                txt_value(views, key@) == txt_value(views.skip(i as int), key@),
        {
            let (name, value) = &self.txt[i];
            assert(views.skip(i as int)[0] == (name@, value@));
            assert(views.skip(i as int).skip(1) =~= views.skip(i + 1));
            if same_text(name.as_str(), key) {
                return Some(value);
            }
        }
        None
    }

    /// The name that the peer gives itself, or its instance name.
    pub fn display_name(&self) -> (name: String)
        ensures
            name@ == match txt_value(self@.txt, "n"@) {
                Some(name) => name,
                None => self@.instance,
            },
    {
        match self.txt_get("n") {
            Some(name) => name.clone(),
            None => self.instance.clone(),
        }
    }

    /// The name in the description that a Quick Share peer gives of itself, or
    /// its instance name.
    pub fn share_name(&self) -> (name: String)
        ensures
            match txt_value(self@.txt, "n"@) {
                Some(text) => {
                    &&& forall|bytes: Seq<u8>|
                        #[trigger] base64_padded(bytes) == filled_up(text) ==> name@
                            == described_or(bytes, self@.instance)
                    &&& (forall|bytes: Seq<u8>| #[trigger] base64_padded(bytes) != filled_up(text))
                        ==> name@ == self@.instance
                },
                None => name@ == self@.instance,
            },
    {
        match self.txt_get("n") {
            Some(text) => match decode_b64(text.as_str()) {
                Ok(bytes) => match EndpointInfo::decode(bytes.as_slice()) {
                    Ok(info) => match info.name {
                        Some(name) => name,
                        None => self.instance.clone(),
                    },
                    Err(_) => self.instance.clone(),
                },
                Err(_) => self.instance.clone(),
            },
            None => self.instance.clone(),
        }
    }
}

/// The name in a description, or another one.
pub open spec fn described_or(bytes: Seq<u8>, or: Seq<char>) -> Seq<char> {
    match read_info(bytes) {
        Ok(info) => match info.name {
            Some(name) => name,
            None => or,
        },
        Err(_) => or,
    }
}

/// The peer is called `to`, by its instance name or by the name that it gives
/// itself.
pub open spec fn is_called(peer: PeerView, to: Seq<char>) -> bool {
    peer.instance == to || txt_value(peer.txt, "n"@) == Some(to)
}

/// The first peer that is called `to`.
pub open spec fn first_called(peers: Seq<PeerView>, to: Seq<char>) -> Option<(AddressView, u16)>
    decreases peers.len(),
{
    if peers.len() == 0 {
        None
    } else if is_called(peers[0], to) {
        Some(peers[0].addr)
    } else {
        first_called(peers.skip(1), to)
    }
}

/// Finds the peer that is called `to`.
pub fn find_peer(peers: &[FoundPeer], to: &str) -> (addr: Result<PeerAddr>)
    ensures
        match first_called(seq_view(peers@), to@) {
            Some(expected) => addr is Ok && addr->Ok_0@ == expected,
            None => addr is Err && addr->Err_0@ == ErrorView::NotFound(to@),
        },
{
    let ghost views = seq_view(peers@);
    assert(views.skip(0) =~= views);
    for i in 0..peers.len()
        invariant
            views == seq_view(peers@),
            first_called(views, to@) == first_called(views.skip(i as int), to@),
    {
        assert(views.skip(i as int)[0] == peers@[i as int]@);
        assert(views.skip(i as int).skip(1) =~= views.skip(i + 1));
        let by_name = match peers[i].txt_get("n") {
            Some(name) => same_text(name.as_str(), to),
            None => false,
        };
        if same_text(peers[i].instance.as_str(), to) || by_name {
            return Ok(peers[i].addr);
        }
    }
    Err(Error::NotFound(to.to_owned()))
}

} // verus!
