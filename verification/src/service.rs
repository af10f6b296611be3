//! What the receiver announces, and how a person answers it.

use crate::airdrop::{self, ALT_SERVICE_TYPE, COMPANION_SERVICE_TYPE, MDNS_FLAGS};
use crate::approve::{IncomingFileView, TransferOffer, TransferOfferView};
use crate::crypto::random_bytes;
use crate::discover::{instance_fits, txt_view};
use crate::encoding::{base64_text, hex_encode, hex_text};
use crate::error::{ErrorView, Result};
use crate::mime::{human_size, size_text};
use crate::native;
use crate::quickshare::endpoint::{
    self, cut_to, info_bytes, instance_bytes, is_endpoint_id, lemma_cut_fits,
    service_instance_name, truncate_utf8, EndpointInfo,
};
use crate::text::{
    chars_of, decimal, decimal_text, digit, digit_char, is_control, is_control_char, lemma_no_byte, lower, lowered, same_text, seq_view, string_of,
    trim, trimmed,
};
use rand::Rng;
use vstd::prelude::*;
use vstd::slice::slice_subrange;
use vstd::utf8::*;

verus! {

/// What a receiver offers.
#[derive(Debug, Clone, PartialEq, Eq)]
pub struct DaemonConfig {
    pub name: String,
    pub native: bool,
    pub quickshare: bool,
    pub airdrop: bool,
    pub require_pin: bool,
    pub sort_media: bool,
    pub max_file_bytes: u64,
    pub ask: bool,
}

/// The largest file that a receiver takes unless told otherwise.
pub const DEFAULT_MAX_FILE: u64 = 32 * 1024 * 1024 * 1024;

impl DaemonConfig {
    /// A receiver of all three kinds, which asks before it takes files unless
    /// `yes`.
    pub fn receive(name: String, yes: bool) -> (config: Self)
        ensures
            config == (DaemonConfig {
                name,
                native: true,
                quickshare: true,
                airdrop: true,
                require_pin: false,
                sort_media: false,
                max_file_bytes: DEFAULT_MAX_FILE,
                ask: !yes,
            }),
    {
        DaemonConfig {
            name,
            native: true,
            quickshare: true,
            airdrop: true,
            require_pin: false,
            sort_media: false,
            max_file_bytes: DEFAULT_MAX_FILE,
            ask: !yes,
        }
    }
}

/// A record of a service.
#[derive(Debug, Clone, PartialEq, Eq)]
pub struct Advert {
    pub service_type: &'static str,
    pub instance: String,
    pub txt: Vec<(String, String)>,
}

pub ghost struct AdvertView {
    pub service_type: Seq<char>,
    pub instance: Seq<char>,
    pub txt: Seq<(Seq<char>, Seq<char>)>,
}

impl View for Advert {
    type V = AdvertView;

    open spec fn view(&self) -> AdvertView {
        AdvertView {
            service_type: self.service_type@,
            instance: self.instance@,
            txt: txt_view(self.txt@),
        }
    }
}

/// The record of the native service: the instance is the first eight bytes of
/// the fingerprint.
pub fn native_advert(name: &str, fingerprint: &[u8; 32]) -> (advert: Advert)
    ensures
        advert@ == (AdvertView {
            service_type: native::SERVICE_TYPE@,
            instance: hex_text(fingerprint@.take(8)),
            txt: seq![("n"@, name@), ("v"@, "1"@), ("fp"@, hex_text(fingerprint@))],
        }),
{
    let head = slice_subrange(fingerprint.as_slice(), 0, 8);
    assert(head@ =~= fingerprint@.take(8));
    let advert = Advert {
        service_type: native::SERVICE_TYPE,
        instance: hex_encode(head),
        txt: vec![
            ("n".to_owned(), name.to_owned()),
            ("v".to_owned(), "1".to_owned()),
            ("fp".to_owned(), hex_encode(fingerprint)),
        ],
    };
    assert(advert@.txt =~= seq![("n"@, name@), ("v"@, "1"@), ("fp"@, hex_text(fingerprint@))]);
    advert
}

/// The record of the Quick Share service.
pub fn quickshare_advert(endpoint_id: &str, info: &EndpointInfo) -> (advert: Result<Advert>)
    ensures
        !is_endpoint_id(endpoint_id@) ==> advert is Err && advert->Err_0@ == ErrorView::Protocol(
            "endpoint id must be 4 alphanumeric characters"@,
        ),
        is_endpoint_id(endpoint_id@) ==> match info_bytes(info@) {
            Ok(bytes) => advert is Ok && advert->Ok_0@ == (AdvertView {
                service_type: endpoint::SERVICE_TYPE@,
                instance: base64_text(instance_bytes(endpoint_id@)),
                txt: seq![("n"@, base64_text(bytes))],
            }),
            Err(error) => advert is Err && advert->Err_0@ == error,
        },
{
    let instance = service_instance_name(endpoint_id)?;
    let text = info.encode_txt()?;
    let advert = Advert {
        service_type: endpoint::SERVICE_TYPE,
        instance,
        txt: vec![("n".to_owned(), text)],
    };
    assert(advert@.txt =~= seq![("n"@, text@)]);
    Ok(advert)
}

/// The flags of an AirDrop record.
pub open spec fn flags_txt() -> Seq<(Seq<char>, Seq<char>)> {
    seq![("flags"@, MDNS_FLAGS@)]
}

fn flags() -> (txt: Vec<(String, String)>)
    ensures
        txt_view(txt@) == flags_txt(),
{
    let txt = vec![("flags".to_owned(), MDNS_FLAGS.to_owned())];
    assert(txt_view(txt@) =~= flags_txt());
    txt
}

/// The record under which older devices find AirDrop: an instance of twelve
/// hexadecimal digits.
pub open spec fn airdrop_record(id: Seq<u8>) -> AdvertView {
    AdvertView {
        service_type: airdrop::SERVICE_TYPE@,
        instance: hex_text(id).take(12),
        txt: flags_txt(),
    }
}

/// The record under which older devices find AirDrop, with a random instance.
pub fn airdrop_advert() -> (advert: Advert)
    ensures
        exists|id: Seq<u8>| id.len() == 8 && advert@ == #[trigger] airdrop_record(id),
{
    airdrop_advert_of(random_bytes(8).as_slice())
}

/// The record under which older devices find AirDrop, with the instance that
/// goes with the id.
pub fn airdrop_advert_of(id: &[u8]) -> (advert: Advert)
    requires
        id@.len() == 8,
    ensures
        advert@ == airdrop_record(id@),
{
    let head = slice_subrange(id, 0, 6);
    assert(hex_text(head@) =~= hex_text(id@).take(12));
    Advert { service_type: airdrop::SERVICE_TYPE, instance: hex_encode(head), txt: flags() }
}

/// The second record of AirDrop, under the name of the receiver.
pub fn airdrop_alt_advert(name: &str) -> (advert: Advert)
    ensures
        advert@ == (AdvertView {
            service_type: ALT_SERVICE_TYPE@,
            instance: instance_label(name@),
            txt: flags_txt(),
        }),
{
    Advert { service_type: ALT_SERVICE_TYPE, instance: airdrop_instance_name(name), txt: flags() }
}

/// The record that the share sheet of an iPhone lists, under the name of the
/// receiver.
pub fn companion_advert(name: &str, txt: Vec<(String, String)>) -> (advert: Advert)
    ensures
        advert@ == (AdvertView {
            service_type: COMPANION_SERVICE_TYPE@,
            instance: instance_label(name@),
            txt: txt_view(txt@),
        }),
{
    Advert { service_type: COMPANION_SERVICE_TYPE, instance: airdrop_instance_name(name), txt }
}

/// The text without control characters.
pub open spec fn without_controls(text: Seq<char>) -> Seq<char>
    decreases text.len(),
{
    if text.len() == 0 {
        Seq::empty()
    } else if is_control_char(text.last()) {
        without_controls(text.drop_last())
    } else {
        without_controls(text.drop_last()).push(text.last())
    }
}

/// The longest instance name, in bytes.
pub const MAX_INSTANCE: usize = 63;

/// The instance name that goes with the name of a receiver: without control
/// characters, and cut to what fits.
pub open spec fn instance_label(name: Seq<char>) -> Seq<char> {
    let label = cut_to(without_controls(name), MAX_INSTANCE as nat);
    if label.len() == 0 {
        "Whoosh"@
    } else {
        label
    }
}

pub fn airdrop_instance_name(name: &str) -> (label: String)
    ensures
        label@ == instance_label(name@),
{
    let chars = chars_of(name);
    let mut kept: Vec<char> = Vec::new();
    for i in 0..chars.len()
        invariant
            chars@ == name@,
            kept@ == without_controls(name@.take(i as int)),
    {
        assert(name@.take(i + 1).drop_last() =~= name@.take(i as int));
        if !is_control(chars[i]) {
            kept.push(chars[i]);
        }
    }
    assert(name@.take(name@.len() as int) =~= name@);
    let label = truncate_utf8(string_of(kept.as_slice()).as_str(), MAX_INSTANCE);
    if label.as_str().is_empty() {
        "Whoosh".to_owned()
    } else {
        label
    }
}

proof fn lemma_without_controls(text: Seq<char>)
    ensures
        forall|i: int|
            0 <= i < without_controls(text).len() ==> !is_control_char(
                #[trigger] without_controls(text)[i],
            ),
    decreases text.len(),
{
    if text.len() > 0 {
        lemma_without_controls(text.drop_last());
        let before = without_controls(text.drop_last());
        let after = without_controls(text);
        assert forall|i: int| 0 <= i < after.len() implies !is_control_char(#[trigger] after[i]) by {
            if i < before.len() {
                assert(after[i] == before[i]);
            }
        }
    }
}

proof fn lemma_cut_is_prefix(text: Seq<char>, max: nat)
    ensures
        cut_to(text, max).len() <= text.len(),
        forall|i: int| 0 <= i < cut_to(text, max).len() ==> #[trigger] cut_to(text, max)[i] == text[i],
    decreases text.len(),
{
    if text.len() > 0 && encode_utf8(text).len() > max {
        lemma_cut_is_prefix(text.drop_last(), max);
    }
}

/// Whatever a receiver is called, its instance name can be announced.
pub proof fn label_can_be_announced(name: Seq<char>)
    ensures
        instance_fits(instance_label(name)),
{
    let kept = without_controls(name);
    let label = instance_label(name);
    reveal_strlit("Whoosh");
    lemma_without_controls(name);
    lemma_cut_is_prefix(kept, MAX_INSTANCE as nat);
    lemma_cut_fits(kept, MAX_INSTANCE as nat);
    assert(label.len() > 0);
    assert(encode_scalar(label[0] as u32).len() > 0);
    assert(encode_utf8(label).len() > 0);
    assert forall|i: int| 0 <= i < label.len() implies label[i] != '\0' by {
        if cut_to(kept, MAX_INSTANCE as nat).len() > 0 {
            assert(label[i] == kept[i]);
        }
    }
    lemma_no_byte(label, 0);
    if cut_to(kept, MAX_INSTANCE as nat).len() == 0 {
        lemma_short_text(label);
    }
}

/// A character takes at most four bytes.
proof fn lemma_short_text(text: Seq<char>)
    ensures
        encode_utf8(text).len() <= 4 * text.len(),
    decreases text.len(),
{
    if text.len() > 0 {
        lemma_short_text(text.drop_first());
    }
}

/// Calls `gen_range` of `rand::thread_rng` on the numbers below the bound.
#[verifier::external_body]
fn random_below(bound: u32) -> (number: u32)
    requires
        bound > 0,
    ensures
        number < bound,
{
    rand::thread_rng().gen_range(0..bound)
}

/// Four decimal digits.
pub open spec fn four_digits(number: u32) -> Seq<char> {
    seq![
        digit_char(number as int / 1000),
        digit_char(number as int / 100 % 10),
        digit_char(number as int / 10 % 10),
        digit_char(number as int % 10),
    ]
}

pub fn format_pin(number: u32) -> (pin: String)
    requires
        number < 10_000,
    ensures
        pin@ == four_digits(number),
{
    let number: u64 = number as u64;
    let digits = [
        digit(number / 1000),
        digit(number / 100 % 10),
        digit(number / 10 % 10),
        digit(number % 10),
    ];
    assert(digits@ =~= four_digits(number as u32));
    string_of(&digits)
}

/// A pin of four digits, drawn at random.
pub fn random_pin() -> (pin: String)
    ensures
        exists|number: u32| number < 10_000 && pin@ == #[trigger] four_digits(number),
{
    format_pin(random_below(10_000))
}

/// What is said of a transfer that was received.
pub fn received_line(files: u64, bytes: u64, peer: &str) -> (line: String)
    ensures
        line@ == "received "@ + decimal_text(files as nat) + " file(s), "@ + decimal_text(
            bytes as nat,
        ) + " bytes, from "@ + peer@,
{
    let mut line = "received ".to_owned();
    line.append(decimal(files).as_str());
    line.append(" file(s), ");
    line.append(decimal(bytes).as_str());
    line.append(" bytes, from ");
    line.append(peer);
    line
}

/// What a person is shown of a file before deciding.
pub open spec fn file_line(file: IncomingFileView) -> Seq<char> {
    "  "@ + file.name + "  "@ + size_text(file.bytes as nat) + "  "@ + file.mime
}

/// What a person is shown before deciding, line by line: who sends, the pin
/// where there is one, and the files.
pub open spec fn offer_lines(offer: TransferOfferView) -> Seq<Seq<char>> {
    seq![Seq::empty(), offer.protocol + " from "@ + offer.peer] + match offer.pin {
        Some(pin) => seq!["  pin "@ + pin],
        None => Seq::empty(),
    } + Seq::new(offer.files.len(), |i: int| file_line(offer.files[i])) + seq!["accept? [y/N]"@]
}

/// What a person is shown before deciding.
pub fn describe_offer(offer: &TransferOffer) -> (lines: Vec<String>)
    ensures
        seq_view(lines@) == offer_lines(offer@),
{
    let mut lines: Vec<String> = Vec::new();
    lines.push(String::new());
    let mut from = offer.protocol.to_owned();
    from.append(" from ");
    from.append(offer.peer.as_str());
    lines.push(from);
    if let Some(pin) = &offer.pin {
        let mut line = "  pin ".to_owned();
        line.append(pin.as_str());
        lines.push(line);
    }
    let ghost head = seq![Seq::empty(), offer@.protocol + " from "@ + offer@.peer]
        + match offer@.pin {
        Some(pin) => seq!["  pin "@ + pin],
        None => Seq::empty(),
    };
    let ghost rows = Seq::new(offer@.files.len(), |i: int| file_line(offer@.files[i]));
    assert(seq_view(lines@)[0] =~= Seq::empty());
    assert(seq_view(lines@) =~= head + rows.take(0));
    for i in 0..offer.files.len()
        invariant
            rows == Seq::new(offer@.files.len(), |i: int| file_line(offer@.files[i])),
            seq_view(lines@) == head + rows.take(i as int),
    {
        let file = &offer.files[i];
        let mut line = "  ".to_owned();
        line.append(file.name.as_str());
        line.append("  ");
        line.append(human_size(file.bytes).as_str());
        line.append("  ");
        line.append(file.mime.as_str());
        let ghost held = seq_view(lines@);
        assert(line@ == rows[i as int]);
        lines.push(line);
        assert(seq_view(lines@) =~= held.push(line@));
        assert(rows.take(i + 1) =~= rows.take(i as int).push(rows[i as int]));
        assert(held.push(line@) =~= head + rows.take(i + 1));
    }
    assert(rows.take(rows.len() as int) =~= rows);
    let ghost held = seq_view(lines@);
    lines.push("accept? [y/N]".to_owned());
    assert(seq_view(lines@) =~= held.push("accept? [y/N]"@));
    assert(seq_view(lines@) =~= offer_lines(offer@));
    lines
}

/// Whether a line that was typed is a yes.
pub open spec fn says_yes(line: Seq<char>) -> bool {
    let answer = lowered(trimmed(line));
    answer == "y"@ || answer == "yes"@
}

pub fn is_yes(line: &str) -> (yes: bool)
    ensures
        yes == says_yes(line@),
{
    let answer = string_of(lower(trim(chars_of(line).as_slice()).as_slice()).as_slice());
    same_text(answer.as_str(), "y") || same_text(answer.as_str(), "yes")
}

} // verus!
