//! Apple's AirDrop: discover, ask and upload.

pub mod cpio;
pub mod exchange;
pub mod http;
pub mod laws;
pub mod layout;
pub mod property;
pub mod protocol;
pub mod server;
pub mod tls;

use crate::crypto::random_bytes;
use crate::discover::txt_view;
use crate::encoding::{hex_encode, hex_text};
use crate::text::{chars_of, string_of, trim, trimmed};
use vstd::prelude::*;
use vstd::slice::slice_subrange;

verus! {

pub const SERVICE_TYPE: &'static str = "_airdrop._tcp.local.";

/// The second type under which AirDrop is looked for.
pub const ALT_SERVICE_TYPE: &'static str = "_airdrop-alt._tcp.local.";

/// The service that the share sheet of an iPhone lists. The instance name is the
/// label on that sheet.
pub const COMPANION_SERVICE_TYPE: &'static str = "_companion-link._tcp.local.";

/// The flags of a record: discover, mixed types, and pipelining. A receiver
/// without the last two is passed over.
pub const MDNS_FLAGS: &'static str = "140";

/// The name of the computer, or what stands for it where it has none.
pub open spec fn computer_label(computer_name: Seq<char>) -> Seq<char> {
    if trimmed(computer_name).len() == 0 {
        "this Mac"@
    } else {
        trimmed(computer_name)
    }
}

/// What is said of the share sheets of phones.
pub fn airdrop_visibility_line(whoosh_name: &str, computer_name: &str) -> (line: String)
    ensures
        line@ == "look for a separate row \""@ + whoosh_name@ + "\". \""@ + computer_label(
            computer_name@,
        )
            + "\" stays the macOS AirDrop name and saves into Downloads. AirDrop on the iPhone must be Everyone for 10 minutes. Quick Share must be open and set to Everyone on this Wi-Fi."@,
{
    let trimmed_name = trim(chars_of(computer_name).as_slice());
    let label = if trimmed_name.len() == 0 {
        "this Mac".to_owned()
    } else {
        string_of(trimmed_name.as_slice())
    };
    let mut line = "look for a separate row \"".to_owned();
    line.append(whoosh_name);
    line.append("\". \"");
    line.append(label.as_str());
    line.append(
        "\" stays the macOS AirDrop name and saves into Downloads. AirDrop on the iPhone must be Everyone for 10 minutes. Quick Share must be open and set to Everyone on this Wi-Fi.",
    );
    line
}

/// The name that the system printed, if it printed one.
pub fn printed_name(output: &str) -> (name: Option<String>)
    ensures
        match name {
            Some(name) => name@ == trimmed(output@) && name@.len() > 0,
            None => trimmed(output@).len() == 0,
        },
{
    let name = trim(chars_of(output).as_slice());
    if name.len() == 0 {
        None
    } else {
        Some(string_of(name.as_slice()))
    }
}

pub open spec fn upper_hex(digit: int) -> char {
    if digit < 10 {
        ('0' as int + digit) as char
    } else {
        ('A' as int + digit - 10) as char
    }
}

/// A hardware address: pairs of hexadecimal digits with colons between them.
pub open spec fn mac_text(bytes: Seq<u8>) -> Seq<char>
    decreases bytes.len(),
{
    if bytes.len() == 0 {
        Seq::empty()
    } else {
        let head = mac_text(bytes.drop_last());
        let pair = seq![
            upper_hex(bytes.last() as int / 16),
            upper_hex(bytes.last() as int % 16),
        ];
        if bytes.len() == 1 {
            pair
        } else {
            head.push(':') + pair
        }
    }
}

fn upper_digit(digit: u8) -> (c: char)
    requires
        digit < 16,
    ensures
        c == upper_hex(digit as int),
{
    if digit < 10 {
        (48 + digit) as char
    } else {
        (65 + (digit - 10)) as char
    }
}

fn format_mac(bytes: &[u8]) -> (text: String)
    ensures
        text@ == mac_text(bytes@),
{
    let mut text = String::new();
    for i in 0..bytes.len()
        invariant
            text@ == mac_text(bytes@.take(i as int)),
    {
        let ghost part = bytes@.take(i + 1);
        assert(part.drop_last() =~= bytes@.take(i as int));
        if i > 0 {
            text.push(':');
        }
        let ghost before = text@;
        text.push(upper_digit(bytes[i] / 16));
        text.push(upper_digit(bytes[i] % 16));
        assert(text@ =~= before + seq![
            upper_hex(part.last() as int / 16),
            upper_hex(part.last() as int % 16),
        ]);
        assert(text@ =~= mac_text(part));
    }
    assert(bytes@.take(bytes@.len() as int) =~= bytes@);
    text
}

/// The record of Companion Link made of 30 random bytes, under the keys that
/// macOS uses.
pub open spec fn companion_record(bytes: Seq<u8>) -> Seq<(Seq<char>, Seq<char>)> {
    seq![
        ("rpMac"@, "0"@),
        ("rpHN"@, hex_text(bytes.subrange(0, 6))),
        ("rpFl"@, "0x20000"@),
        ("rpHA"@, hex_text(bytes.subrange(6, 12))),
        ("rpVr"@, "715.2"@),
        ("rpAD"@, hex_text(bytes.subrange(12, 18))),
        ("rpHI"@, hex_text(bytes.subrange(18, 24))),
        ("rpBA"@, mac_text(bytes.subrange(24, 30))),
    ]
}

/// The record of Companion Link, made of random bytes.
pub fn companion_txt() -> (txt: Vec<(String, String)>)
    ensures
        exists|bytes: Seq<u8>|
            bytes.len() == 30 && txt_view(txt@) == #[trigger] companion_record(bytes),
{
    let bytes = random_bytes(30);
    companion_txt_of(bytes.as_slice())
}

/// The record of Companion Link, made of the given bytes.
pub fn companion_txt_of(bytes: &[u8]) -> (txt: Vec<(String, String)>)
    requires
        bytes@.len() == 30,
    ensures
        txt_view(txt@) == companion_record(bytes@),
{
    let txt = vec![
        ("rpMac".to_owned(), "0".to_owned()),
        ("rpHN".to_owned(), hex_encode(slice_subrange(bytes, 0, 6))),
        ("rpFl".to_owned(), "0x20000".to_owned()),
        ("rpHA".to_owned(), hex_encode(slice_subrange(bytes, 6, 12))),
        ("rpVr".to_owned(), "715.2".to_owned()),
        ("rpAD".to_owned(), hex_encode(slice_subrange(bytes, 12, 18))),
        ("rpHI".to_owned(), hex_encode(slice_subrange(bytes, 18, 24))),
        ("rpBA".to_owned(), format_mac(slice_subrange(bytes, 24, 30))),
    ];
    assert(txt_view(txt@) =~= companion_record(bytes@));
    txt
}

} // verus!
