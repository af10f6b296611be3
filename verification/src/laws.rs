//! What holds of all that is announced, found and shown.

use crate::airdrop::exchange::lemma_first_words;
use crate::airdrop::laws::{is_hex, lemma_mentions, mentions, worth};
use crate::airdrop::{companion_record, computer_label, mac_text};
use crate::approve::{total_size, IncomingFileView, TransferOfferView};
use crate::cli::{fingerprint_in, saved_fingerprint, unknown_peer};
use crate::discover::{
    bare_type, described_or, first_called, first_outward, host_chars, host_label, instance_fits,
    interface_fits, is_companion, is_pinned, keeps_addresses, key_byte, key_fits, leads_out,
    plan_of, preferred, registration_state, txt_args, txt_objection, txt_value, undotted_end,
    undotted_start, value_fits, AddressView, PeerView,
};
use crate::encoding::{hex_bytes, hex_digit, hex_text};
use crate::error::{error_text, ErrorView};
use crate::net::{network_name, radio_device, report_text, visibility_text, without_colons};
use crate::mime::size_text;
use crate::native::tls::mismatch_text;
use crate::quickshare::endpoint::{
    cut_to, id_in, id_text, info_bytes, instance_bytes, is_endpoint_id, lemma_cut_fits, read_info,
    tlvs_bytes, visible_info, EndpointView,
};
use crate::radio::{airdrop_packet, name_packet, quickshare_packet};
use crate::service::{
    airdrop_record, flags_txt, four_digits, instance_label, offer_lines, says_yes, without_controls,
};
use crate::text::{
    begins_with, decimal_text, holds, is_white_char, is_word, last_parts_begin_at_separators,
    lemma_spelled, spelled, trimmed, trimming_keeps_the_core,
};
use vstd::arithmetic::div_mod::lemma_div_denominator;
use vstd::prelude::*;
use vstd::utf8::*;

verus! {

/// An answer means yes if it is `y` or `yes` in either case, with any white space
/// around it, and in no other case.
pub proof fn what_means_yes(before: Seq<char>, answer: Seq<char>, behind: Seq<char>)
    requires
        forall|i: int| 0 <= i < before.len() ==> is_white_char(#[trigger] before[i]),
        forall|i: int| 0 <= i < behind.len() ==> is_white_char(#[trigger] behind[i]),
        answer.len() > 0 ==> !is_white_char(answer[0]) && !is_white_char(answer.last()),
    ensures
        says_yes(before + answer + behind) <==> spelled(answer, seq!['y']) || spelled(
            answer,
            seq!['y', 'e', 's'],
        ),
{
    trimming_keeps_the_core(before, answer, behind);
    reveal_strlit("y");
    reveal_strlit("yes");
    assert("y"@ =~= seq!['y']);
    assert("yes"@ =~= seq!['y', 'e', 's']);
    lemma_spelled(answer, seq!['y']);
    lemma_spelled(answer, seq!['y', 'e', 's']);
}

/// A pin has four digits, which are the number in decimal with zeros before it.
pub proof fn pins_have_four_digits(number: u32)
    requires
        number < 10_000,
    ensures
        ({
            let pin = four_digits(number);
            &&& pin.len() == 4
            &&& '0' <= pin[0] <= '9' && '0' <= pin[1] <= '9' && '0' <= pin[2] <= '9' && '0'
                <= pin[3] <= '9'
            &&& 1000 * (pin[0] as int - 48) + 100 * (pin[1] as int - 48) + 10 * (pin[2] as int - 48)
                + (pin[3] as int - 48) == number
        }),
{
    let n = number as int;
    lemma_four_digits(n);
    assert(four_digits(number)[0] as int == 48 + n / 1000);
    assert(four_digits(number)[1] as int == 48 + n / 100 % 10);
    assert(four_digits(number)[2] as int == 48 + n / 10 % 10);
    assert(four_digits(number)[3] as int == 48 + n % 10);
}

pub proof fn lemma_four_digits(n: int)
    requires
        0 <= n < 10_000,
    ensures
        1000 * (n / 1000) + 100 * (n / 100 % 10) + 10 * (n / 10 % 10) + n % 10 == n,
        0 <= n / 1000 < 10,
{
    lemma_div_denominator(n, 10, 10);
    lemma_div_denominator(n, 10, 100);
    lemma_div_denominator(n / 10, 10, 10);
    let tens = n / 10;
    let hundreds = n / 100;
    assert(n == 10 * tens + n % 10);
    assert(tens == 10 * (tens / 10) + tens % 10);
    assert(tens / 10 == hundreds);
    assert(hundreds == 10 * (hundreds / 10) + hundreds % 10);
    assert(hundreds / 10 == n / 1000);
}

/// What a person is shown: an empty line, who sends, the pin where there is one,
/// a line for each file in their order, and the question.
pub proof fn people_are_shown_everything(offer: TransferOfferView, i: int)
    requires
        0 <= i < offer.files.len(),
    ensures
        ({
            let lines = offer_lines(offer);
            let first: int = if offer.pin is Some {
                3
            } else {
                2
            };
            let file = offer.files[i];
            &&& lines.len() == first + offer.files.len() + 1
            &&& lines[0].len() == 0
            &&& lines[1] == offer.protocol + " from "@ + offer.peer
            &&& offer.pin is Some ==> lines[2] == "  pin "@ + offer.pin->0
            &&& lines[first + i] == "  "@ + file.name + "  "@ + size_text(file.bytes as nat) + "  "@
                + file.mime
            &&& lines.last() == "accept? [y/N]"@
        }),
{
}

/// The size of an offer is that of its files together.
pub proof fn sizes_are_summed(files: Seq<IncomingFileView>, file: IncomingFileView)
    ensures
        total_size(Seq::empty()) == 0,
        total_size(files.push(file)) == total_size(files) + file.bytes,
{
    assert(files.push(file).drop_last() =~= files);
}

/// Cutting a text keeps as many of its first characters as fit: a text that fits is
/// kept whole, and with one more character it would not fit.
pub proof fn cutting_keeps_what_fits(text: Seq<char>, max: nat)
    ensures
        cut_to(text, max).len() <= text.len(),
        cut_to(text, max) == text.take(cut_to(text, max).len() as int),
        encode_utf8(cut_to(text, max)).len() <= max,
        encode_utf8(text).len() <= max ==> cut_to(text, max) == text,
        cut_to(text, max).len() < text.len() ==> encode_utf8(
            text.take(cut_to(text, max).len() as int + 1),
        ).len() > max,
    decreases text.len(),
{
    lemma_cut_fits(text, max);
    if text.len() == 0 || encode_utf8(text).len() <= max {
        assert(text.take(text.len() as int) =~= text);
    } else {
        let front = text.drop_last();
        cutting_keeps_what_fits(front, max);
        let kept = cut_to(front, max).len() as int;
        assert(front.take(kept) =~= text.take(kept));
        if kept < front.len() {
            assert(front.take(kept + 1) =~= text.take(kept + 1));
        } else {
            assert(text.take(kept + 1) =~= text);
        }
    }
}

proof fn lemma_kept_controls(text: Seq<char>)
    requires
        forall|i: int|
            0 <= i < text.len() ==> ' ' <= #[trigger] text[i] && !('\u{7f}' <= text[i] <= '\u{9f}'),
    ensures
        without_controls(text) == text,
    decreases text.len(),
{
    if text.len() > 0 {
        let front = text.drop_last();
        assert forall|i: int| 0 <= i < front.len() implies ' ' <= #[trigger] front[i] && !('\u{7f}'
            <= front[i] <= '\u{9f}') by {
            assert(front[i] == text[i]);
        }
        lemma_kept_controls(front);
        assert(' ' <= text[text.len() - 1]);
        assert(front.push(text.last()) =~= text);
    } else {
        assert(without_controls(text) =~= text);
    }
}

/// A receiver is announced under its own name, as much of it as fits in 63 bytes,
/// and under another only where nothing of its name can be announced.
pub proof fn receivers_are_announced_by_name(name: Seq<char>)
    requires
        forall|i: int|
            0 <= i < name.len() ==> ' ' <= #[trigger] name[i] && !('\u{7f}' <= name[i] <= '\u{9f}'),
    ensures
        name.len() > 0 && encode_utf8(name).len() <= 63 ==> instance_label(name) == name,
        name.len() > 0 ==> instance_label(name) == cut_to(name, 63) || cut_to(name, 63).len() == 0,
        name.len() == 0 ==> instance_label(name) == "Whoosh"@,
{
    lemma_kept_controls(name);
    cutting_keeps_what_fits(name, 63);
}

/// Control characters are left out of what is announced, and nothing else is.
pub proof fn only_controls_are_left_out(text: Seq<char>, c: char)
    ensures
        without_controls(Seq::empty()) == Seq::<char>::empty(),
        c < ' ' || '\u{7f}' <= c <= '\u{9f}' ==> without_controls(text.push(c)) == without_controls(
            text,
        ),
        ' ' <= c && !('\u{7f}' <= c <= '\u{9f}') ==> without_controls(text.push(c))
            == without_controls(text).push(c),
{
    assert(text.push(c).drop_last() =~= text);
}

/// The first record of AirDrop: twelve digits of six bytes, and the flags 140.
pub proof fn airdrop_is_announced(id: Seq<u8>)
    requires
        id.len() == 8,
    ensures
        airdrop_record(id).service_type == "_airdrop._tcp.local."@,
        airdrop_record(id).instance == hex_text(id.subrange(0, 6)),
        airdrop_record(id).instance.len() == 12,
        airdrop_record(id).txt == seq![("flags"@, "140"@)],
        flags_txt() == seq![("flags"@, "140"@)],
{
    assert(hex_text(id).take(12) =~= hex_text(id.subrange(0, 6)));
}

/// The services under which a receiver is found.
pub proof fn services_have_their_names()
    ensures
        crate::native::SERVICE_TYPE@ == "_whoosh._udp.local."@,
        crate::quickshare::endpoint::SERVICE_TYPE@ == "_FC9F5ED42C8A._tcp.local."@,
        crate::airdrop::SERVICE_TYPE@ == "_airdrop._tcp.local."@,
        crate::airdrop::ALT_SERVICE_TYPE@ == "_airdrop-alt._tcp.local."@,
        crate::airdrop::COMPANION_SERVICE_TYPE@ == "_companion-link._tcp.local."@,
{
}

/// A byte in two digits in lower case, the higher one first.
pub proof fn bytes_have_two_digits(bytes: Seq<u8>, i: int)
    requires
        0 <= i < bytes.len(),
    ensures
        ({
            let high = hex_text(bytes)[2 * i];
            let low = hex_text(bytes)[2 * i + 1];
            &&& hex_text(bytes).len() == 2 * bytes.len()
            &&& '0' <= high <= '9' || 'a' <= high <= 'f'
            &&& '0' <= low <= '9' || 'a' <= low <= 'f'
            &&& bytes[i] == 16 * worth(high) + worth(low)
        }),
{
    assert((2 * i) / 2 == i && (2 * i) % 2 == 0);
    assert((2 * i + 1) / 2 == i && (2 * i + 1) % 2 == 1);
}

/// Digits are read in either case, two for a byte; anything else is no bytes.
pub proof fn digits_are_read_as_bytes(text: Seq<char>, i: int)
    ensures
        hex_bytes(text) is Some <==> text.len() % 2 == 0 && forall|j: int|
            0 <= j < text.len() ==> is_hex(#[trigger] text[j]),
        hex_bytes(text) matches Some(bytes) ==> bytes.len() == text.len() / 2 && (0 <= i
            < bytes.len() ==> bytes[i] == 16 * worth(text[2 * i])
            + worth(text[2 * i + 1])),
{
    if hex_bytes(text) is Some {
        assert forall|j: int| 0 <= j < text.len() implies is_hex(
            #[trigger] text[j],
        ) by {
            assert(hex_digit(text[j]) is Some);
        }
        if 0 <= i < text.len() / 2 {
            assert(is_hex(text[2 * i]));
            assert(is_hex(text[2 * i + 1]));
        }
    }
    if text.len() % 2 == 0 && forall|j: int|
        0 <= j < text.len() ==> is_hex(#[trigger] text[j]) {
        assert forall|j: int| 0 <= j < text.len() implies hex_digit(
            #[trigger] text[j],
        ) is Some by {
            assert(is_hex(text[j]));
        }
    }
}

/// The packets of a receiver over Bluetooth. Each field begins with its length.
pub proof fn packets_are_laid_out(random: Seq<u8>, name: Seq<char>)
    requires
        random.len() == 10,
    ensures
        ({
            let packet = quickshare_packet(random);
            &&& packet.len() == 31
            &&& packet.subrange(0, 3) == seq![2u8, 1, 6]
            &&& packet[3] == packet.len() - 4
            &&& packet.subrange(4, 7) == seq![0x16u8, 0x2C, 0xFE]
            &&& packet.subrange(7, 21) == seq![
                0xFCu8, 0x12, 0x8E, 0x01, 0x42, 0, 0, 0, 0, 0, 0, 0, 0, 0,
            ]
            &&& packet.subrange(21, 31) == random
        }),
        ({
            let packet = airdrop_packet();
            &&& packet.len() == 27
            &&& packet.subrange(0, 3) == seq![2u8, 1, 6]
            &&& packet[3] == packet.len() - 4
            &&& packet.subrange(4, 9) == seq![0xFFu8, 0x4C, 0, 0x05, 0x12]
            &&& packet[8] == packet.len() - 9
            &&& packet[17] == 1
            &&& forall|i: int| 9 <= i < 27 && i != 17 ==> #[trigger] packet[i] == 0
        }),
        ({
            let packet = name_packet(name);
            &&& 2 <= packet.len() <= 30
            &&& packet[0] == packet.len() - 1
            &&& packet[1] == 9
            &&& packet.skip(2) == encode_utf8(cut_to(name, 28))
            &&& encode_utf8(name).len() <= 28 ==> packet.skip(2) == encode_utf8(name)
        }),
{
    let packet = quickshare_packet(random);
    assert(packet.subrange(0, 3) =~= seq![2u8, 1, 6]);
    assert(packet.subrange(4, 7) =~= seq![0x16u8, 0x2C, 0xFE]);
    assert(packet.subrange(7, 21) =~= seq![
        0xFCu8, 0x12, 0x8E, 0x01, 0x42, 0, 0, 0, 0, 0, 0, 0, 0, 0,
    ]);
    assert(packet.subrange(21, 31) =~= random);
    let apple = airdrop_packet();
    assert(apple.subrange(0, 3) =~= seq![2u8, 1, 6]);
    assert(apple.subrange(4, 9) =~= seq![0xFFu8, 0x4C, 0, 0x05, 0x12]);
    cutting_keeps_what_fits(name, 28);
    assert(name_packet(name).skip(2) =~= encode_utf8(cut_to(name, 28)));
}

/// What an endpoint tells of itself: in the first byte the version in the upper
/// three bits, then whether it is hidden, then the kind of device; the salt, the
/// key, the name behind its length unless it is hidden, and the rest.
pub proof fn endpoints_are_laid_out(info: EndpointView)
    requires
        info.version < 8,
        info.device_type < 8,
        info.salt.len() == 2,
        info.metadata_key.len() == 14,
        info_bytes(info) is Ok,
    ensures
        ({
            let bytes = info_bytes(info)->Ok_0;
            let name = encode_utf8(cut_to(info.name->0, 255));
            &&& bytes[0] == 32 * info.version + 2 * info.device_type + if info.hidden {
                16int
            } else {
                0
            }
            &&& bytes.subrange(1, 3) == info.salt
            &&& bytes.subrange(3, 17) == info.metadata_key
            &&& !info.hidden ==> bytes[17] == name.len() && bytes.skip(17) == seq![
                name.len() as u8,
            ] + name + tlvs_bytes(info.tlvs)
            &&& info.hidden ==> bytes.skip(17) == tlvs_bytes(info.tlvs)
        }),
{
    let bytes = info_bytes(info)->Ok_0;
    let name = encode_utf8(cut_to(info.name->0, 255));
    lemma_cut_fits(info.name->0, 255);
    assert(bytes.subrange(1, 3) =~= info.salt);
    assert(bytes.subrange(3, 17) =~= info.metadata_key);
    if info.hidden {
        assert(bytes.skip(17) =~= tlvs_bytes(info.tlvs));
    } else {
        assert(bytes.skip(17) =~= seq![name.len() as u8] + name + tlvs_bytes(info.tlvs));
    }
}

/// The further fields of an endpoint: a kind and a length in a byte each, and the
/// value.
pub proof fn fields_of_endpoints_are_laid_out(kind: u8, value: Seq<u8>, more: Seq<(u8, Seq<u8>)>)
    requires
        value.len() <= 255,
    ensures
        tlvs_bytes(Seq::empty()) == Seq::<u8>::empty(),
        tlvs_bytes(seq![(kind, value)] + more) == seq![kind, value.len() as u8] + value
            + tlvs_bytes(more),
{
    assert((seq![(kind, value)] + more).skip(1) =~= more);
}

/// Only an endpoint that is hidden may have no name, and no field may be longer
/// than a byte can tell.
pub proof fn what_endpoints_can_tell(info: EndpointView)
    ensures
        info_bytes(info) is Err <==> (!info.hidden && info.name is None) || exists|i: int|
            0 <= i < info.tlvs.len() && (#[trigger] info.tlvs[i]).1.len() > 255,
{
}

/// A receiver that can be seen tells its name, as much as fits in 64 bytes, and
/// the drawn identity: two bytes of salt and fourteen of key.
pub proof fn visible_endpoints_tell_their_names(name: Seq<char>, device_type: u8, identity: Seq<u8>)
    requires
        identity.len() == 16,
    ensures
        ({
            let info = visible_info(name, device_type, identity);
            &&& info.version == 1 && !info.hidden && info.device_type == device_type
            &&& info.salt + info.metadata_key == identity
            &&& info.salt.len() == 2
            &&& info.name == Some(cut_to(name, 64))
            &&& encode_utf8(name).len() <= 64 ==> info.name == Some(name)
            &&& info.tlvs.len() == 0
        }),
{
    cutting_keeps_what_fits(name, 64);
    assert(identity.take(2) + identity.skip(2) =~= identity);
}

/// The instance of a Quick Share service: the number of the protocol, the four
/// characters of the endpoint, three bytes that stand for the service, and two
/// zeros. It is read back.
pub proof fn instances_are_laid_out(id: Seq<char>, prefix: Seq<u8>, bytes: Seq<u8>)
    requires
        is_endpoint_id(id),
        prefix.len() == 3,
    ensures
        instance_bytes(id) == seq![0x23u8] + encode_utf8(id) + crate::crypto::sha256_of(
            encode_utf8("NearbySharing"@),
        ).take(3) + seq![0u8, 0u8],
        id_in(seq![0x23u8] + encode_utf8(id) + prefix + seq![0u8, 0u8], prefix) == Ok::<
            Seq<char>,
            ErrorView,
        >(id),
        bytes.len() != 10 || bytes[0] != 0x23 || bytes.subrange(5, 8) != prefix ==> id_in(
            bytes,
            prefix,
        ) is Err,
{
    let all = seq![0x23u8] + encode_utf8(id) + prefix + seq![0u8, 0u8];
    assert(all.subrange(1, 5) =~= encode_utf8(id));
    assert(all.subrange(5, 8) =~= prefix);
    encode_utf8_valid_utf8(id);
    encode_utf8_decode_utf8(id);
}

/// The number of an endpoint is four letters or digits, one for each drawn byte.
pub proof fn endpoint_numbers_are_drawn(raw: Seq<u8>, i: int)
    requires
        0 <= i < raw.len(),
    ensures
        ({
            let c = id_text(raw)[i];
            let at = raw[i] as int % 62;
            &&& id_text(raw).len() == raw.len()
            &&& at < 26 ==> c as int == 'A' as int + at
            &&& 26 <= at < 52 ==> c as int == 'a' as int + at - 26
            &&& at >= 52 ==> c as int == '0' as int + at - 52
        }),
{
}

/// The lines of a list of hardware ports are read in their order: a line names a
/// port, and a line below it the device of the port. The device of the first
/// wireless port that has one is found.
pub proof fn wireless_devices_are_found(
    line: Seq<char>,
    rest: Seq<Seq<char>>,
    port: Seq<char>,
    text: Seq<char>,
)
    ensures
        radio_device(Seq::empty(), port) is None,
        trimmed(line) == "Hardware Port:"@ + text ==> radio_device(seq![line] + rest, port)
            == radio_device(rest, trimmed(text)),
        trimmed(line) == "Device:"@ + text && (spelled(port, "wi-fi"@) || spelled(port, "airport"@))
            && trimmed(text).len() > 0 ==> radio_device(seq![line] + rest, port) == Some(
            trimmed(text),
        ),
        trimmed(line) == "Device:"@ + text && !(spelled(port, "wi-fi"@) || spelled(
            port,
            "airport"@,
        )) ==> radio_device(seq![line] + rest, port) == radio_device(rest, port),
        trimmed(line).len() == 0 || (trimmed(line)[0] != 'H' && trimmed(line)[0] != 'D')
            ==> radio_device(seq![line] + rest, port) == radio_device(rest, port),
{
    reveal_strlit("Hardware Port:");
    reveal_strlit("Device:");
    reveal_strlit("wi-fi");
    reveal_strlit("airport");
    lemma_spelled(port, "wi-fi"@);
    lemma_spelled(port, "airport"@);
    let all = seq![line] + rest;
    assert(all[0] == line);
    assert(all.skip(1) =~= rest);
    let inner = trimmed(line);
    let h = "Hardware Port:"@;
    let d = "Device:"@;
    assert(h[0] == 'H' && d[0] == 'D');
    if inner == h + text {
        assert(inner.take(h.len() as int) =~= h);
        assert(inner.skip(h.len() as int) =~= text);
    }
    if inner == d + text {
        assert(inner[0] == 'D');
        assert(inner.len() >= h.len() ==> inner.take(h.len() as int)[0] == 'D');
        assert(inner.take(d.len() as int) =~= d);
        assert(inner.skip(d.len() as int) =~= text);
    }
    if inner.len() > 0 {
        assert(inner.len() >= h.len() ==> inner.take(h.len() as int)[0] == inner[0]);
        assert(inner.len() >= d.len() ==> inner.take(d.len() as int)[0] == inner[0]);
    }
}

proof fn lemma_no_colons(text: Seq<char>)
    requires
        text.len() > 0 ==> text[0] != ':',
    ensures
        without_colons(text) == text,
{
}

/// The name of a wireless network is what follows its label, with or without a
/// colon, without the white space around it.
pub proof fn networks_are_named(
    line: Seq<char>,
    rest: Seq<Seq<char>>,
    text: Seq<char>,
    name: Seq<char>,
)
    requires
        trimmed(text) == name,
        name.len() > 0 ==> name[0] != ':',
        text.len() > 0 ==> text[0] != ':',
        trimmed(name) == name,
    ensures
        network_name(Seq::empty()) is None,
        trimmed(line) == "Current Wi-Fi Network:"@ + text && name.len() > 0 ==> network_name(
            seq![line] + rest,
        ) == Some(name),
        trimmed(line) == "Current Wi-Fi Network"@ + text && name.len() > 0 ==> network_name(
            seq![line] + rest,
        ) == Some(name),
        trimmed(line).len() == 0 || trimmed(line)[0] != 'C' ==> network_name(seq![line] + rest)
            is None,
{
    reveal_strlit("Current Wi-Fi Network:");
    reveal_strlit("Current Wi-Fi Network");
    let long = "Current Wi-Fi Network:"@;
    let short = "Current Wi-Fi Network"@;
    assert(long =~= short + seq![':']);
    let all = seq![line] + rest;
    assert(all[0] == line);
    let inner = trimmed(line);
    lemma_no_colons(name);
    if inner == long + text {
        assert(inner.take(long.len() as int) =~= long);
        assert(inner.skip(long.len() as int) =~= text);
    }
    if inner == short + text {
        assert(inner.take(short.len() as int) =~= short);
        assert(inner.skip(short.len() as int) =~= text);
        if inner.len() >= long.len() {
            assert(inner.take(long.len() as int)[long.len() - 1] == text[0]);
            assert(long[long.len() - 1] == ':');
        }
    }
    assert(long[0] == 'C' && short[0] == 'C');
    if inner.len() > 0 {
        assert(inner.len() >= long.len() ==> inner.take(long.len() as int)[0] == inner[0]);
        assert(inner.len() >= short.len() ==> inner.take(short.len() as int)[0] == inner[0]);
    }
}

/// An address that leads out of the machine and to one peer: no loopback and no
/// multicast address.
pub proof fn addresses_that_lead_out(octets: Seq<u8>)
    ensures
        octets.len() == 4 ==> (leads_out(AddressView::V4(octets)) <==> octets[0] != 127 && !(224
            <= octets[0] <= 239)),
        octets.len() == 16 ==> (leads_out(AddressView::V6(octets)) <==> octets[0] != 255 && !(
        octets[15] == 1 && forall|i: int| 0 <= i < 15 ==> #[trigger] octets[i] == 0)),
{
    if octets.len() == 16 {
        let one = Seq::new(
            16,
            |i: int|
                if i == 15 {
                    1u8
                } else {
                    0u8
                },
        );
        if octets == one {
            assert(one[15] == 1);
            assert(forall|i: int| 0 <= i < 15 ==> #[trigger] octets[i] == one[i]);
        }
        if octets[15] == 1 && forall|i: int| 0 <= i < 15 ==> #[trigger] octets[i] == 0 {
            assert(octets =~= one);
        }
    }
}

proof fn lemma_first_outward(addresses: Seq<AddressView>)
    ensures
        first_outward(addresses) matches Some(at) ==> 0 <= at < addresses.len() && leads_out(
            addresses[at],
        ) && forall|i: int| 0 <= i < at ==> !leads_out(#[trigger] addresses[i]),
        first_outward(addresses) is None ==> forall|i: int|
            0 <= i < addresses.len() ==> !leads_out(#[trigger] addresses[i]),
    decreases addresses.len(),
{
    if addresses.len() > 0 && !leads_out(addresses[0]) {
        let rest = addresses.skip(1);
        lemma_first_outward(rest);
        assert forall|i: int| 1 <= i < addresses.len() implies #[trigger] addresses[i] == rest[i
            - 1] by {}
    }
}

/// Of several addresses the first that leads out is taken, and the first of all
/// where none does.
pub proof fn first_address_out_is_taken(addresses: Seq<AddressView>)
    ensures
        addresses.len() == 0 <==> preferred(addresses) is None,
        preferred(addresses) matches Some(at) ==> {
            &&& 0 <= at < addresses.len()
            &&& leads_out(addresses[at]) || at == 0
            &&& forall|i: int| 0 <= i < at ==> !leads_out(#[trigger] addresses[i])
            &&& !leads_out(addresses[at]) ==> forall|i: int|
                0 <= i < addresses.len() ==> !leads_out(#[trigger] addresses[i])
        },
{
    lemma_first_outward(addresses);
}

/// A record is asked for a key: the first value of that key counts.
pub proof fn first_value_counts(
    txt: Seq<(Seq<char>, Seq<char>)>,
    key: Seq<char>,
    value: Seq<char>,
    other: Seq<char>,
)
    ensures
        txt_value(Seq::empty(), key) is None,
        txt_value(seq![(key, value)] + txt, key) == Some(value),
        other != key ==> txt_value(seq![(other, value)] + txt, key) == txt_value(txt, key),
{
    assert((seq![(key, value)] + txt)[0] == (key, value));
    assert((seq![(other, value)] + txt)[0] == (other, value));
    assert((seq![(other, value)] + txt).skip(1) =~= txt);
}

/// A peer is found by its instance or by the name in its record, and the first of
/// several counts.
pub proof fn peers_are_found_by_name(peers: Seq<PeerView>, peer: PeerView, to: Seq<char>)
    ensures
        first_called(Seq::empty(), to) is None,
        peer.instance == to || txt_value(peer.txt, "n"@) == Some(to) ==> first_called(
            seq![peer] + peers,
            to,
        ) == Some(peer.addr),
        peer.instance != to && txt_value(peer.txt, "n"@) != Some(to) ==> first_called(
            seq![peer] + peers,
            to,
        ) == first_called(peers, to),
{
    assert((seq![peer] + peers)[0] == peer);
    assert((seq![peer] + peers).skip(1) =~= peers);
}

/// A Quick Share receiver is listed under the name that it tells, and under
/// another where it tells none.
pub proof fn receivers_are_listed_by_name(bytes: Seq<u8>, or: Seq<char>, info: EndpointView)
    ensures
        read_info(bytes) == Ok::<EndpointView, ErrorView>(info) && info.name is Some
            ==> described_or(bytes, or) == info.name->0,
        read_info(bytes) == Ok::<EndpointView, ErrorView>(info) && info.name is None
            ==> described_or(bytes, or) == or,
        read_info(bytes) is Err ==> described_or(bytes, or) == or,
{
}

/// An instance name has from 1 to 63 bytes, and no zero byte.
pub proof fn instances_have_a_length(instance: Seq<char>)
    ensures
        encode_utf8(instance).len() == 0 || encode_utf8(instance).len() > 63 ==> !instance_fits(
            instance,
        ),
        instance.len() > 0 && encode_utf8(instance).len() <= 63 && (forall|i: int|
            0 <= i < instance.len() ==> #[trigger] instance[i] != '\0') ==> instance_fits(instance),
{
    if instance.len() > 0 && encode_utf8(instance).len() <= 63 && (forall|i: int|
        0 <= i < instance.len() ==> #[trigger] instance[i] != '\0') {
        crate::text::lemma_no_byte(instance, 0);
        assert(encode_scalar(instance[0] as u32).len() > 0);
    }
}

proof fn lemma_undotted_front(dots: Seq<char>, text: Seq<char>)
    requires
        forall|i: int| 0 <= i < dots.len() ==> #[trigger] dots[i] == '.',
        text.len() > 0 ==> text[0] != '.',
    ensures
        undotted_start(dots + text) == text,
    decreases dots.len(),
{
    if dots.len() > 0 {
        let rest = dots.skip(1);
        assert forall|i: int| 0 <= i < rest.len() implies #[trigger] rest[i] == '.' by {
            assert(rest[i] == dots[i + 1]);
        }
        lemma_undotted_front(rest, text);
        assert((dots + text)[0] == dots[0]);
        assert((dots + text).skip(1) =~= rest + text);
    } else {
        assert(dots + text =~= text);
    }
}

proof fn lemma_undotted_end(text: Seq<char>, dots: Seq<char>)
    requires
        forall|i: int| 0 <= i < dots.len() ==> #[trigger] dots[i] == '.',
        text.len() > 0 ==> text.last() != '.',
    ensures
        undotted_end(text + dots) == text,
    decreases dots.len(),
{
    if dots.len() > 0 {
        let rest = dots.drop_last();
        assert forall|i: int| 0 <= i < rest.len() implies #[trigger] rest[i] == '.' by {
            assert(rest[i] == dots[i]);
        }
        lemma_undotted_end(text, rest);
        assert((text + dots).last() == dots[dots.len() - 1]);
        assert((text + dots).drop_last() =~= text + rest);
    } else {
        assert(text + dots =~= text);
    }
}

/// The type of a service is what stands before its domain, whatever dots stand
/// around the whole: an underscore first, and another behind a dot.
pub proof fn types_stand_before_domains(
    before: Seq<char>,
    name: Seq<char>,
    protocol: Seq<char>,
    domain: Seq<char>,
    behind: Seq<char>,
)
    requires
        forall|i: int| 0 <= i < before.len() ==> #[trigger] before[i] == '.',
        forall|i: int| 0 <= i < behind.len() ==> #[trigger] behind[i] == '.',
        domain.len() > 0,
        forall|i: int| 0 <= i < domain.len() ==> #[trigger] domain[i] != '.',
    ensures
        ({
            let service = seq!['_'] + name + seq!['.', '_'] + protocol;
            bare_type(before + (service + seq!['.'] + domain) + behind) == Ok::<
                Seq<char>,
                ErrorView,
            >(service)
        }),
{
    reveal_strlit("._");
    let service = seq!['_'] + name + seq!['.', '_'] + protocol;
    let text = service + seq!['.'] + domain;
    let all = before + text + behind;
    assert(all =~= before + (text + behind));
    assert((text + behind)[0] == '_');
    lemma_undotted_front(before, text + behind);
    assert(text.last() == domain[domain.len() - 1]);
    lemma_undotted_end(text, behind);
    last_parts_begin_at_separators(service, domain, '.');
    assert(text.take(text.len() - domain.len() - 1) =~= service);
    assert("._"@ =~= seq!['.', '_']);
    let at = 1 + name.len() as int;
    assert(service.skip(at).take(2) =~= seq!['.', '_']);
    assert(holds(service, "._"@));
}

/// What is announced of a service goes out behind the command's own words: AirDrop
/// over every interface and Apple's own radio, everything else over the interface
/// of the local network where there is one. The service that an iPhone lists gets
/// a host of its own there, and cannot be announced without a local network.
pub proof fn services_are_announced(
    service_type: Seq<char>,
    reg_type: Seq<char>,
    instance: Seq<char>,
    port: u16,
    txt: Seq<(Seq<char>, Seq<char>)>,
    lan: Option<(Seq<char>, Seq<char>)>,
)
    requires
        instance_fits(instance),
        bare_type(service_type) == Ok::<Seq<char>, ErrorView>(reg_type),
        txt_objection(txt) is None,
        lan matches Some((interface, _)) ==> interface_fits(interface),
    ensures
        ({
            let plan = plan_of(service_type, instance, port, txt, lan);
            let place = lan->0;
            let tail = seq![instance, reg_type, "local"@, decimal_text(port as nat)];
            let pairs = Seq::new(txt.len(), |i: int| txt[i].0 + "="@ + txt[i].1);
            let host = "whoosh-"@ + decimal_text(port as nat) + ".local"@;
            let companion = holds(service_type, "_companion-link"@);
            let airdrop = holds(service_type, "_airdrop"@);
            &&& !companion && (airdrop || lan is None) ==> plan is Ok && plan->Ok_0.args == seq![
                "-includeAWDL"@,
                "-R"@,
            ] + tail + pairs
            &&& !companion && !airdrop && lan is Some ==> plan is Ok && plan->Ok_0.args == seq![
                "-i"@,
                place.0,
                "-R"@,
            ] + tail + pairs
            &&& companion && lan is Some ==> plan is Ok && plan->Ok_0.args == seq![
                "-i"@,
                place.0,
                "-P"@,
            ] + tail + seq![host, place.1] + pairs
            &&& companion && lan is None ==> plan is Err
        }),
{
    let plan = plan_of(service_type, instance, port, txt, lan);
    let place = lan->0;
    let tail = seq![instance, reg_type, "local"@, decimal_text(port as nat)];
    let pairs = Seq::new(txt.len(), |i: int| txt[i].0 + "="@ + txt[i].1);
    let host = "whoosh-"@ + decimal_text(port as nat) + ".local"@;
    assert(txt_args(txt) =~= pairs);
    if is_companion(service_type) {
        if lan is Some {
            assert(plan->Ok_0.args =~= seq!["-i"@, place.0, "-P"@] + tail + seq![host, place.1]
                + pairs);
        }
    } else if keeps_addresses(service_type) || lan is None {
        assert(plan->Ok_0.args =~= seq!["-includeAWDL"@, "-R"@] + tail + pairs);
    } else {
        assert(plan->Ok_0.args =~= seq!["-i"@, place.0, "-R"@] + tail + pairs);
    }
}

/// What is not announced: a name of the wrong length, a type that is none, a
/// record with a bad key or value.
pub proof fn bad_services_are_refused(
    service_type: Seq<char>,
    instance: Seq<char>,
    port: u16,
    txt: Seq<(Seq<char>, Seq<char>)>,
    lan: Option<(Seq<char>, Seq<char>)>,
)
    requires
        !instance_fits(instance) || bare_type(service_type) is Err || txt_objection(txt) is Some,
    ensures
        plan_of(service_type, instance, port, txt, lan) is Err,
{
}

/// A registration is confirmed once the command says so, in either case, and names
/// the instance. Otherwise it fails if the command has ended or time is up.
pub proof fn registrations_are_confirmed(
    text: Seq<char>,
    instance: Seq<char>,
    exited: Option<Seq<char>>,
    expired: bool,
)
    ensures
        ({
            let state = registration_state(text, instance, exited, expired);
            let said = mentions(text, "registered and active"@) && holds(text, instance);
            &&& said <==> state is Confirmed
            &&& !said && exited is None && !expired <==> state is Waiting
            &&& !said && (exited is Some || expired) <==> state is Failed
        }),
{
    reveal_strlit("registered and active");
    lemma_mentions(text, "registered and active"@);
}

/// A character of a host name.
pub open spec fn in_hosts(c: char) -> bool {
    '0' <= c <= '9' || 'a' <= c <= 'z' || 'A' <= c <= 'Z' || c == '-'
}

proof fn lemma_hosts_kept(text: Seq<char>)
    requires
        forall|i: int| 0 <= i < text.len() ==> in_hosts(#[trigger] text[i]),
    ensures
        host_chars(text) == text,
    decreases text.len(),
{
    if text.len() > 0 {
        let front = text.drop_last();
        assert forall|i: int| 0 <= i < front.len() implies in_hosts(#[trigger] front[i]) by {
            assert(front[i] == text[i]);
        }
        lemma_hosts_kept(front);
        assert(in_hosts(text[text.len() - 1]));
        assert(front.push(text.last()) =~= text);
    } else {
        assert(host_chars(text) =~= text);
    }
}

/// A host keeps its name where that is a name for hosts, and is called whoosh where
/// it has none.
pub proof fn hosts_keep_their_names(name: Seq<char>, c: char)
    ensures
        0 < name.len() <= 40 && name[0] != '-' && name.last() != '-' && (forall|i: int|
            0 <= i < name.len() ==> in_hosts(#[trigger] name[i])) ==> host_label(Some(name))
            == name,
        host_label(None) == "whoosh"@,
        host_label(Some(Seq::empty())) == "whoosh"@,
        in_hosts(c) ==> host_chars(name.push(c)) == host_chars(name).push(c),
        !in_hosts(c) ==> host_chars(name.push(c)) == host_chars(name),
        0 < host_label(Some(name)).len() <= 40,
        host_label(Some(name))[0] != '-',
        host_label(Some(name)).last() != '-',
{
    reveal_strlit("whoosh");
    if forall|i: int| 0 <= i < name.len() ==> in_hosts(#[trigger] name[i]) {
        lemma_hosts_kept(name);
    }
    assert forall|i: int| 0 <= i < "whoosh"@.len() implies in_hosts(#[trigger] "whoosh"@[i]) by {}
    lemma_hosts_kept("whoosh"@);
    assert(name.push(c).drop_last() =~= name);
    assert(host_chars(Seq::empty()) =~= Seq::empty());
}

/// A name is pinned to the local network unless it is AirDrop's or there is no such
/// network.
pub proof fn names_are_pinned(service_type: Seq<char>, ip: [u8; 4])
    ensures
        !is_pinned(service_type, None),
        is_pinned(service_type, Some(ip)) <==> !holds(service_type, "_airdrop"@),
{
}

/// This computer is called by its name without the white space around it, and
/// `this Mac` where it has none.
pub proof fn computers_are_called_by_name(before: Seq<char>, name: Seq<char>, behind: Seq<char>)
    requires
        forall|i: int| 0 <= i < before.len() ==> is_white_char(#[trigger] before[i]),
        forall|i: int| 0 <= i < behind.len() ==> is_white_char(#[trigger] behind[i]),
        name.len() > 0 ==> !is_white_char(name[0]) && !is_white_char(name.last()),
    ensures
        name.len() > 0 ==> computer_label(before + name + behind) == name,
        name.len() == 0 ==> computer_label(before + name + behind) == "this Mac"@,
{
    trimming_keeps_the_core(before, name, behind);
}

/// An address of hardware is two digits in upper case for each byte, with colons
/// between them.
pub proof fn hardware_addresses_have_colons(bytes: Seq<u8>, byte: u8)
    ensures
        ({
            let high = byte as int / 16;
            let low = byte as int % 16;
            let pair = seq![
                if high < 10 {
                    (48 + high) as char
                } else {
                    (55 + high) as char
                },
                if low < 10 {
                    (48 + low) as char
                } else {
                    (55 + low) as char
                },
            ];
            &&& mac_text(seq![byte]) == pair
            &&& bytes.len() > 0 ==> mac_text(bytes.push(byte)) == mac_text(bytes) + seq![':'] + pair
        }),
{
    assert(bytes.push(byte).drop_last() =~= bytes);
    assert(seq![byte].last() == byte);
    if bytes.len() > 0 {
        let high = byte as int / 16;
        let low = byte as int % 16;
        let pair = seq![
            if high < 10 {
                (48 + high) as char
            } else {
                (55 + high) as char
            },
            if low < 10 {
                (48 + low) as char
            } else {
                (55 + low) as char
            },
        ];
        assert(mac_text(bytes.push(byte)) =~= mac_text(bytes) + seq![':'] + pair);
    }
}

/// The record that an iPhone lists: fixed flags and versions, and five different
/// runs of six of the drawn bytes.
pub proof fn companions_tell_drawn_bytes(bytes: Seq<u8>)
    requires
        bytes.len() == 30,
    ensures
        ({
            let txt = companion_record(bytes);
            &&& txt.len() == 8
            &&& txt[0] == ("rpMac"@, "0"@)
            &&& txt[1] == ("rpHN"@, hex_text(bytes.subrange(0, 6)))
            &&& txt[2] == ("rpFl"@, "0x20000"@)
            &&& txt[3] == ("rpHA"@, hex_text(bytes.subrange(6, 12)))
            &&& txt[4] == ("rpVr"@, "715.2"@)
            &&& txt[5] == ("rpAD"@, hex_text(bytes.subrange(12, 18)))
            &&& txt[6] == ("rpHI"@, hex_text(bytes.subrange(18, 24)))
            &&& txt[7] == ("rpBA"@, mac_text(bytes.subrange(24, 30)))
        }),
{
}

/// What is said of a failure tells what it is about.
pub proof fn failures_are_told(text: Seq<char>)
    ensures
        error_text(ErrorView::Protocol(text)) == text,
        error_text(ErrorView::Rejected(text)) == "transfer rejected: "@ + text,
        error_text(ErrorView::NotFound(text)) == "not found: "@ + text,
        error_text(ErrorView::Hash(text)) == "hash mismatch for "@ + text,
        error_text(ErrorView::Untrusted(text)) == "untrusted peer certificate "@ + text,
        error_text(ErrorView::Crypto(text)) == "cryptography failure: "@ + text,
        error_text(ErrorView::UnsafeName) == "unsafe file name"@,
        error_text(ErrorView::TooLarge) == "file exceeds the size limit"@,
        error_text(ErrorView::Closed) == "peer closed the connection"@,
        error_text(ErrorView::Timeout) == "timed out"@,
        error_text(ErrorView::Pin) == "wrong or missing pin"@,
{
}

/// Whatever is said of the local network names the address at which this computer
/// is reached.
pub proof fn reports_name_the_address(
    ip: Seq<char>,
    interface: Seq<char>,
    wifi: Option<Seq<char>>,
    ssid: Option<Seq<char>>,
)
    ensures
        holds(visibility_text(ip, interface, wifi, ssid), ip),
        holds(report_text(Some((ip, interface))), ip),
        holds(report_text(Some((ip, interface))), interface),
        wifi is None || wifi != Some(interface) ==> holds(
            visibility_text(ip, interface, wifi, ssid),
            interface,
        ),
        wifi is Some ==> holds(visibility_text(ip, interface, wifi, ssid), wifi->0),
        wifi is Some && ssid is Some ==> holds(visibility_text(ip, interface, wifi, ssid), ssid->0),
{
    let here = "lan address "@;
    lemma_holds_two(
        here,
        ip,
        " on "@,
        interface,
        ". Quick Share needs the phone on a network that can reach it."@,
    );
    match (wifi, ssid) {
        (Some(wifi), Some(ssid)) => if wifi == interface {
            lemma_holds_three(
                here,
                ip,
                " on "@,
                wifi,
                " (Wi-Fi "@,
                ssid,
                "). Put the phone on this Wi-Fi."@,
            );
        } else {
            let front = "quick share address "@ + ip + " is on "@ + interface + ", and Wi-Fi "@ + ssid
                + " is on "@;
            lemma_holds_three(
                "quick share address "@,
                ip,
                " is on "@,
                interface,
                ", and Wi-Fi "@,
                ssid,
                " is on "@,
            );
            lemma_holds_two(front, wifi, ". The phone must be able to reach "@, ip, "."@);
            lemma_holds_more(front, wifi, interface);
            lemma_holds_more(front, wifi, ssid);
            let longer = front + wifi;
            lemma_holds_on(longer, ". The phone must be able to reach "@, ip, "."@, interface);
            lemma_holds_on(longer, ". The phone must be able to reach "@, ip, "."@, ssid);
        },
        (Some(wifi), None) => if wifi == interface {
            lemma_holds_two(
                here,
                ip,
                " on "@,
                wifi,
                ", the Wi-Fi interface. Put the phone on this same network."@,
            );
        } else {
            let front = here + ip + " is on "@ + interface + ". Wi-Fi is "@;
            let tail = ". Put the phone on the network that can reach "@;
            lemma_holds_two(here, ip, " is on "@, interface, ". Wi-Fi is "@);
            lemma_holds_two(front, wifi, tail, ip, "."@);
            lemma_holds_more(front, wifi, interface);
            lemma_holds_on(front + wifi, tail, ip, "."@, interface);
        },
        (None, _) => {
            lemma_holds_two(
                here,
                ip,
                " on "@,
                interface,
                ". Quick Share needs the phone on a network that can reach it. AirDrop from an iPhone uses AWDL."@,
            );
        },
    }
}

proof fn lemma_holds_more(text: Seq<char>, more: Seq<char>, part: Seq<char>)
    requires
        holds(text, part),
    ensures
        holds(text + more, part),
{
    let i = choose|i: int|
        0 <= i && i + part.len() <= text.len() && #[trigger] text.skip(i).take(part.len() as int)
            == part;
    assert((text + more).skip(i).take(part.len() as int) =~= text.skip(i).take(part.len() as int));
}

proof fn lemma_holds_on(a: Seq<char>, b: Seq<char>, c: Seq<char>, d: Seq<char>, part: Seq<char>)
    requires
        holds(a, part),
    ensures
        holds(a + b + c + d, part),
{
    lemma_holds_more(a, b, part);
    lemma_holds_more(a + b, c, part);
    lemma_holds_more(a + b + c, d, part);
}

proof fn lemma_holds_two(a: Seq<char>, one: Seq<char>, b: Seq<char>, two: Seq<char>, c: Seq<char>)
    ensures
        holds(a + one + b + two + c, one),
        holds(a + one + b + two + c, two),
{
    lemma_holds(a, one, b);
    lemma_holds_more(a + one + b, two, one);
    lemma_holds_more(a + one + b + two, c, one);
    lemma_holds(a + one + b, two, c);
}

proof fn lemma_holds_three(
    a: Seq<char>,
    one: Seq<char>,
    b: Seq<char>,
    two: Seq<char>,
    c: Seq<char>,
    three: Seq<char>,
    d: Seq<char>,
)
    ensures
        holds(a + one + b + two + c + three + d, one),
        holds(a + one + b + two + c + three + d, two),
        holds(a + one + b + two + c + three + d, three),
{
    lemma_holds_two(a, one, b, two, c);
    lemma_holds_more(a + one + b + two + c, three, one);
    lemma_holds_more(a + one + b + two + c, three, two);
    lemma_holds_more(a + one + b + two + c + three, d, one);
    lemma_holds_more(a + one + b + two + c + three, d, two);
    lemma_holds(a + one + b + two + c, three, d);
}

proof fn lemma_holds(before: Seq<char>, part: Seq<char>, behind: Seq<char>)
    ensures
        holds(before + part + behind, part),
{
    let all = before + part + behind;
    assert(all.skip(before.len() as int).take(part.len() as int) =~= part);
}

/// A key of a record is not empty and holds visible ASCII characters but no equals
/// sign; a value holds no line ends and no zero.
pub proof fn records_hold_plain_text(
    txt: Seq<(Seq<char>, Seq<char>)>,
    key: Seq<char>,
    value: Seq<char>,
    i: int,
)
    ensures
        key.len() > 0 && (forall|j: int|
            0 <= j < key.len() ==> '!' <= #[trigger] key[j] <= '~' && key[j] != '=') ==> key_fits(
            key,
        ),
        key.len() == 0 ==> !key_fits(key),
        value_fits(value) <==> forall|j: int|
            0 <= j < value.len() ==> #[trigger] value[j] != '\n' && value[j] != '\r' && value[j]
                != '\0',
        0 <= i < txt.len() && !(key_fits(txt[i].0) && value_fits(txt[i].1)) ==> txt_objection(txt)
            is Some,
        (forall|j: int|
            0 <= j < txt.len() ==> key_fits((#[trigger] txt[j]).0) && value_fits(txt[j].1))
            ==> txt_objection(txt) is None,
    decreases txt.len(),
{
    if key.len() > 0 && forall|j: int|
        0 <= j < key.len() ==> '!' <= #[trigger] key[j] <= '~' && key[j] != '=' {
        assert forall|j: int| 0 <= j < key.len() implies (#[trigger] key[j] as nat) < 128 by {
            assert('!' <= key[j] <= '~');
        }
        assert(is_ascii_chars(key));
        is_ascii_chars_encode_utf8(key);
        assert forall|j: int| 0 <= j < encode_utf8(key).len() implies key_byte(
            #[trigger] encode_utf8(key)[j],
        ) by {
            assert('!' <= key[j] <= '~' && key[j] != '=');
        }
    }
    if key.len() == 0 {
        assert(encode_utf8(key) =~= Seq::empty());
    }
    if txt.len() > 0 {
        let rest = txt.skip(1);
        records_hold_plain_text(rest, key, value, i - 1);
        if i > 0 && i < txt.len() {
            assert(rest[i - 1] == txt[i]);
        }
        if forall|j: int|
            0 <= j < txt.len() ==> key_fits((#[trigger] txt[j]).0) && value_fits(txt[j].1) {
            assert(key_fits(txt[0].0));
            assert forall|j: int| 0 <= j < rest.len() implies key_fits((#[trigger] rest[j]).0)
                && value_fits(rest[j].1) by {
                assert(rest[j] == txt[j + 1]);
            }
        }
    }
}

/// The name of an interface is letters, digits, hyphens and underscores.
pub proof fn interfaces_have_plain_names(interface: Seq<char>)
    ensures
        interface.len() > 0 && (forall|i: int|
            0 <= i < interface.len() ==> in_hosts(#[trigger] interface[i]) || interface[i] == '_')
            ==> interface_fits(interface),
        interface.len() == 0 ==> !interface_fits(interface),
{
    if interface.len() > 0 && forall|i: int|
        0 <= i < interface.len() ==> in_hosts(#[trigger] interface[i]) || interface[i] == '_' {
        assert forall|i: int| 0 <= i < interface.len() implies (#[trigger] interface[i] as nat)
            < 128 by {
            assert(in_hosts(interface[i]) || interface[i] == '_');
        }
        assert(is_ascii_chars(interface));
        is_ascii_chars_encode_utf8(interface);
        let bytes = encode_utf8(interface);
        assert forall|i: int| 0 <= i < bytes.len() implies ({
            let byte = #[trigger] bytes[i];
            0x30 <= byte <= 0x39 || 0x41 <= byte <= 0x5A || 0x61 <= byte <= 0x7A || byte == 0x2D
                || byte == 0x5F
        }) by {
            assert(in_hosts(interface[i]) || interface[i] == '_');
        }
    }
    if interface.len() == 0 {
        assert(encode_utf8(interface) =~= Seq::empty());
    }
}

/// A fingerprint is written in 64 digits, in either case.
pub proof fn fingerprints_have_64_digits(text: Seq<char>)
    ensures
        fingerprint_in(text) is Some <==> text.len() == 64 && forall|i: int|
            0 <= i < text.len() ==> is_hex(#[trigger] text[i]),
        fingerprint_in(text) is Some ==> fingerprint_in(text) == hex_bytes(text),
{
    digits_are_read_as_bytes(text, 0);
}

/// A receiver whose certificate is not the remembered one is named by both
/// fingerprints.
pub proof fn mismatches_name_both(seen: Seq<u8>, expected: Seq<u8>)
    ensures
        mismatch_text(seen, expected) == "certificate fingerprint "@ + hex_text(seen)
            + " does not match "@ + hex_text(expected),
{
}

/// What is said of a peer that is not remembered begins with its address.
pub proof fn peers_are_told_how_to_trust(addr: Seq<char>)
    ensures
        begins_with(unknown_peer(addr), addr),
        unknown_peer(addr).len() > addr.len(),
{
    reveal_strlit(
        " is not a remembered peer. Run again with --trust-first after checking the receiver's fingerprint.",
    );
    assert(unknown_peer(addr).take(addr.len() as int) =~= addr);
}

/// What is written for a peer is what is read for it, and what a line for another
/// address holds is passed over.
pub proof fn first_line_of_a_peer_counts(
    line: Seq<char>,
    lines: Seq<Seq<char>>,
    addr: Seq<char>,
    saved: Seq<char>,
    digits: Seq<char>,
)
    requires
        is_word(saved),
        is_word(digits),
        line == saved + seq![' '] + digits,
    ensures
        saved_fingerprint(Seq::empty(), addr) is None,
        saved == addr ==> saved_fingerprint(seq![line] + lines, addr) == fingerprint_in(digits),
        saved != addr ==> saved_fingerprint(seq![line] + lines, addr) == saved_fingerprint(
            lines,
            addr,
        ),
{
    let none = Seq::<char>::empty();
    lemma_first_words(saved, digits, none);
    assert(saved + seq![' '] + digits + none =~= line);
    let all = seq![line] + lines;
    assert(all[0] == line);
    assert(all.skip(1) =~= lines);
}

/// How much is taken at once, how much at most, and how long a person may take.
pub proof fn limits_are_set()
    ensures
        crate::quickshare::wire::MAX_FRAME == 8 * 1024 * 1024,
        crate::quickshare::session::CHUNK == 512 * 1024,
        crate::native::session::BUF == 1024 * 1024,
        crate::native::session::MAX_CONTROL == 1024 * 1024,
        crate::native::session::DECISION_TIMEOUT_SECS == 120,
        crate::airdrop::server::BODY_MARGIN == 1024 * 1024,
        crate::airdrop::http::MAX_HEADERS == 64 * 1024,
        crate::airdrop::http::HEAD_READ == 2048,
        crate::airdrop::cpio::MAX_MEMBER_NAME == 1024,
        crate::airdrop::cpio::DVZIP_CHUNK == 64 * 1024,
        crate::airdrop::cpio::DVZIP_MAX_CHUNK == 16 * 1024 * 1024,
        crate::service::DEFAULT_MAX_FILE == 32 * 1024 * 1024 * 1024,
        crate::service::MAX_INSTANCE == 63,
        crate::cli::MEBIBYTE == 1024 * 1024,
        crate::discover::MAX_CAPTURED == 4096,
        crate::radio::MAX_PACKET == 31,
        crate::radio::MAX_NAME == 28,
        crate::sanitize::MAX_FILE_NAME == 240,
{
}

/// What the parts of the program call themselves to each other.
pub proof fn protocols_have_their_names()
    ensures
        crate::native::tls::ALPN@ == seq![119u8, 104, 111, 111, 115, 104, 47, 49],
        crate::native::tls::SERVER_NAME@ == "whoosh"@,
        crate::airdrop::tls::SERVER_NAME@ == "AirDrop"@,
        crate::airdrop::http::CONTINUE@ == "HTTP/1.1 100 Continue\r\n\r\n"@,
        crate::quickshare::endpoint::DEVICE_PHONE == 1,
        crate::quickshare::endpoint::DEVICE_LAPTOP == 3,
        crate::quickshare::ble::SERVICE_UUID == 0xFE2C,
{
    assert(crate::native::tls::ALPN@ =~= seq![119u8, 104, 111, 111, 115, 104, 47, 49]);
}

} // verus!
