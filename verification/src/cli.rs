//! What the commands decide: whom to trust, and what is remembered of peers.

use crate::discover::{txt_value, FoundPeer};
use crate::encoding::{hex_bytes, hex_decode, hex_roundtrip, hex_text};
use crate::error::{Error, ErrorView, Result};
use crate::native::tls::{fingerprint_hex, Trust};
use crate::service::DaemonConfig;
use crate::text::{
    after_word, chars_of, decimal, decimal_text, first_word, is_white_char, is_word,
    lemma_before_white, lemma_parts_append, parts_at, seq_view, split_lines, string_of, take_word,
    text_lines, trimmed_start,
};
use vstd::prelude::*;

verus! {

pub const MEBIBYTE: u64 = 1024 * 1024;

/// The size limit of a number of mebibytes.
pub fn max_file_bytes(max_mib: u64) -> (bytes: u64)
    ensures
        bytes == if max_mib * MEBIBYTE > u64::MAX {
            u64::MAX as int
        } else {
            max_mib * MEBIBYTE
        },
{
    match max_mib.checked_mul(MEBIBYTE) {
        Some(bytes) => bytes,
        None => u64::MAX,
    }
}

/// What the options of the receive command ask for.
pub fn receive_config(
    name: String,
    yes: bool,
    require_pin: bool,
    sort_media: bool,
    no_native: bool,
    no_quickshare: bool,
    no_airdrop: bool,
    max_mib: u64,
) -> (config: DaemonConfig)
    ensures
        config.name == name,
        config.ask == !yes,
        config.require_pin == require_pin,
        config.sort_media == sort_media,
        config.native == !no_native,
        config.quickshare == !no_quickshare,
        config.airdrop == !no_airdrop,
        config.max_file_bytes == if max_mib * MEBIBYTE > u64::MAX {
            u64::MAX as int
        } else {
            max_mib * MEBIBYTE
        },
{
    let mut config = DaemonConfig::receive(name, yes);
    config.require_pin = require_pin;
    config.sort_media = sort_media;
    config.native = !no_native;
    config.quickshare = !no_quickshare;
    config.airdrop = !no_airdrop;
    config.max_file_bytes = max_file_bytes(max_mib);
    config
}

/// What is said of a transfer that was sent.
pub fn sent_line(files: u64, bytes: u64, fingerprint: &[u8; 32]) -> (line: String)
    ensures
        line@ == "sent "@ + decimal_text(files as nat) + " file(s), "@ + decimal_text(bytes as nat)
            + " bytes, fingerprint "@ + hex_text(fingerprint@),
{
    let mut line = "sent ".to_owned();
    line.append(decimal(files).as_str());
    line.append(" file(s), ");
    line.append(decimal(bytes).as_str());
    line.append(" bytes, fingerprint ");
    line.append(fingerprint_hex(fingerprint).as_str());
    line
}

/// The row of a peer in a list: its name and its address.
pub fn peer_row(name: &str, addr: &str) -> (row: String)
    ensures
        row@ == "  "@ + name@ + "  "@ + addr@,
{
    let mut row = "  ".to_owned();
    row.append(name);
    row.append("  ");
    row.append(addr);
    row
}

/// The row of a native peer: its name, its address and its fingerprint, where it
/// tells one.
pub fn native_row(peer: &FoundPeer, addr: &str) -> (row: String)
    ensures
        row@ == "  "@ + match txt_value(peer@.txt, "n"@) {
            Some(name) => name,
            None => peer@.instance,
        } + "  "@ + addr@ + "  fp "@ + match txt_value(peer@.txt, "fp"@) {
            Some(fingerprint) => fingerprint,
            None => "-"@,
        },
{
    let mut row = peer_row(peer.display_name().as_str(), addr);
    row.append("  fp ");
    match peer.txt_get("fp") {
        Some(fingerprint) => row.append(fingerprint.as_str()),
        None => row.append("-"),
    }
    row
}

/// The fingerprint that a text of 64 digits holds.
pub open spec fn fingerprint_in(text: Seq<char>) -> Option<Seq<u8>> {
    match hex_bytes(text) {
        Some(bytes) if bytes.len() == 32 => Some(bytes),
        _ => None,
    }
}

pub fn parse_fingerprint(text: &str) -> (fingerprint: Option<[u8; 32]>)
    ensures
        match fingerprint_in(text@) {
            Some(expected) => fingerprint is Some && fingerprint->0@ == expected,
            None => fingerprint is None,
        },
{
    match hex_decode(text) {
        Some(bytes) if bytes.len() == 32 => {
            let mut fingerprint = [0u8; 32];
            for i in 0..32
                invariant
                    bytes@.len() == 32,
                    forall|j: int| 0 <= j < i ==> fingerprint@[j] == bytes@[j],
            {
                fingerprint[i] = bytes[i];
            }
            assert(fingerprint@ =~= bytes@);
            Some(fingerprint)
        },
        _ => None,
    }
}

/// The address and the fingerprint that a line holds: its first two words.
pub open spec fn saved_peer(line: Seq<char>) -> Option<(Seq<char>, Seq<char>)> {
    let addr = first_word(line);
    let fingerprint = first_word(after_word(line));
    if addr.len() == 0 || fingerprint.len() == 0 {
        None
    } else {
        Some((addr, fingerprint))
    }
}

/// A line holds a fingerprint for the address.
pub open spec fn is_saved(line: Seq<char>, addr: Seq<char>) -> bool {
    saved_peer(line) matches Some(saved) && saved.0 == addr
}

/// The fingerprint that the first line for an address holds.
pub open spec fn saved_fingerprint(lines: Seq<Seq<char>>, addr: Seq<char>) -> Option<Seq<u8>>
    decreases lines.len(),
{
    if lines.len() == 0 {
        None
    } else {
        match saved_peer(lines[0]) {
            Some((saved, fingerprint)) if saved == addr => fingerprint_in(fingerprint),
            _ => saved_fingerprint(lines.skip(1), addr),
        }
    }
}

/// The fingerprint that the text of known peers holds for an address.
pub fn remembered(text: &str, addr: &str) -> (fingerprint: Option<[u8; 32]>)
    ensures
        match saved_fingerprint(text_lines(text@), addr@) {
            Some(expected) => fingerprint is Some && fingerprint->0@ == expected,
            None => fingerprint is None,
        },
{
    let lines = split_lines(chars_of(text).as_slice());
    let wanted = addr.to_owned();
    let ghost all = text_lines(text@);
    assert(all.skip(0) =~= all);
    for i in 0..lines.len()
        invariant
            wanted@ == addr@,
            all == seq_view(lines@),
            all == text_lines(text@),
            saved_fingerprint(all, addr@) == saved_fingerprint(all.skip(i as int), addr@),
    {
        let line = lines[i].as_slice();
        assert(all.skip(i as int)[0] == line@);
        assert(all.skip(i as int).skip(1) =~= all.skip(i + 1));
        assert(line@.skip(0) =~= line@);
        let (saved, end) = take_word(line, 0);
        let (fingerprint, _) = take_word(line, end);
        if saved.len() > 0 && fingerprint.len() > 0 && string_of(saved.as_slice()) == wanted {
            return parse_fingerprint(string_of(fingerprint.as_slice()).as_str());
        }
    }
    None
}

/// The text of known peers with one more peer, on a line of its own.
pub open spec fn with_peer(text: Seq<char>, addr: Seq<char>, fingerprint: Seq<u8>) -> Seq<char> {
    let start = if text.len() > 0 && text.last() != '\n' {
        text.push('\n')
    } else {
        text
    };
    start + addr + " "@ + hex_text(fingerprint) + "\n"@
}

/// Adds a peer to the text of known peers. See [`remembered_is_found`].
pub fn remember(text: &str, addr: &str, fingerprint: &[u8; 32]) -> (lines: String)
    ensures
        lines@ == with_peer(text@, addr@, fingerprint@),
{
    let chars = chars_of(text);
    let mut lines = text.to_owned();
    if chars.len() > 0 && chars[chars.len() - 1] != '\n' {
        lines.push('\n');
    }
    lines.append(addr);
    lines.append(" ");
    lines.append(fingerprint_hex(fingerprint).as_str());
    lines.append("\n");
    lines
}

/// What is said of a peer that is not known.
pub open spec fn unknown_peer(addr: Seq<char>) -> Seq<char> {
    addr
        + " is not a remembered peer. Run again with --trust-first after checking the receiver's fingerprint."@
}

/// How a sender trusts a receiver: by the fingerprint it remembers, or, where it
/// remembers none, at first use if that was asked for.
pub fn trust_for(known: Option<[u8; 32]>, addr: &str, trust_first: bool) -> (trust: Result<Trust>)
    ensures
        match known {
            Some(fingerprint) => trust is Ok && trust->Ok_0 == Trust::Fingerprint(Some(fingerprint)),
            None => if trust_first {
                trust is Ok && trust->Ok_0 == Trust::Fingerprint(None)
            } else {
                trust is Err && trust->Err_0@ == ErrorView::Untrusted(unknown_peer(addr@))
            },
        },
{
    if let Some(fingerprint) = known {
        return Ok(Trust::Fingerprint(Some(fingerprint)));
    }
    if trust_first {
        return Ok(Trust::Fingerprint(None));
    }
    let mut text = addr.to_owned();
    text.append(
        " is not a remembered peer. Run again with --trust-first after checking the receiver's fingerprint.",
    );
    Err(Error::Untrusted(text))
}

proof fn lemma_line_is_read(addr: Seq<char>, fingerprint: Seq<u8>)
    requires
        is_word(addr),
        fingerprint.len() == 32,
    ensures
        saved_peer(addr + seq![' '] + hex_text(fingerprint)) == Some(
            (addr, hex_text(fingerprint)),
        ),
{
    let digits = hex_text(fingerprint);
    let line = addr + seq![' '] + digits;
    let rest = seq![' '] + digits;
    assert(line =~= addr + rest);
    assert(line[0] == addr[0]);
    lemma_before_white(addr, rest);
    assert(trimmed_start(line) == line);
    assert(after_word(line) =~= rest);
    assert(rest[0] == ' ');
    assert(rest.skip(1) =~= digits);
    assert forall|i: int| 0 <= i < digits.len() implies !is_white_char(#[trigger] digits[i]) by {}
    assert(!is_white_char(digits[0]));
    assert(trimmed_start(rest) == trimmed_start(digits));
    assert(trimmed_start(digits) == digits);
    assert(digits + Seq::<char>::empty() =~= digits);
    lemma_before_white(digits, Seq::empty());
}

proof fn lemma_line_is_added(text: Seq<char>, line: Seq<char>)
    requires
        text.len() == 0 || text.last() == '\n',
        line.len() > 0,
        forall|i: int| 0 <= i < line.len() ==> #[trigger] line[i] != '\n',
    ensures
        text_lines((text + line).push('\n')) == text_lines(text).push(line),
{
    lemma_parts_append(text, line, '\n');
    let parts = parts_at(text, '\n');
    assert(parts.last() =~= Seq::empty());
    assert(parts.last() + line =~= line);
    let longer = (text + line).push('\n');
    assert(longer.drop_last() =~= text + line);
    let all = parts_at(longer, '\n');
    assert(all.drop_last() =~= parts_at(text + line, '\n'));
    assert(all.last() =~= Seq::empty());
}

proof fn lemma_lines_of_closed(text: Seq<char>)
    requires
        text.len() > 0,
        text.last() != '\n',
    ensures
        text_lines(text.push('\n')) == text_lines(text),
{
    lemma_parts_append(text.drop_last(), Seq::empty(), '\n');
    let parts = parts_at(text, '\n');
    assert(text.push('\n').drop_last() =~= text);
    let all = parts_at(text.push('\n'), '\n');
    assert(all.drop_last() =~= parts);
    assert(parts.last().len() > 0);
}

proof fn lemma_saved_append(lines: Seq<Seq<char>>, line: Seq<char>, addr: Seq<char>)
    ensures
        (exists|i: int| 0 <= i < lines.len() && is_saved(#[trigger] lines[i], addr))
            ==> saved_fingerprint(lines.push(line), addr) == saved_fingerprint(lines, addr),
        !(exists|i: int| 0 <= i < lines.len() && is_saved(#[trigger] lines[i], addr))
            ==> saved_fingerprint(lines, addr) is None && saved_fingerprint(lines.push(line), addr)
            == saved_fingerprint(seq![line], addr),
    decreases lines.len(),
{
    if lines.len() == 0 {
        assert(lines.push(line) =~= seq![line]);
    } else {
        let rest = lines.skip(1);
        lemma_saved_append(rest, line, addr);
        assert(lines.push(line).skip(1) =~= rest.push(line));
        assert(lines.push(line)[0] == lines[0]);
        if !is_saved(lines[0], addr) {
            if exists|i: int| 0 <= i < lines.len() && is_saved(#[trigger] lines[i], addr) {
                let i = choose|i: int| 0 <= i < lines.len() && is_saved(#[trigger] lines[i], addr);
                assert(rest[i - 1] == lines[i]);
            } else {
                assert forall|i: int| 0 <= i < rest.len() implies !is_saved(
                    #[trigger] rest[i],
                    addr,
                ) by {
                    assert(rest[i] == lines[i + 1]);
                }
            }
        }
    }
}

/// The text holds a line for the address.
pub open spec fn is_known(text: Seq<char>, addr: Seq<char>) -> bool {
    exists|i: int| 0 <= i < text_lines(text).len() && is_saved(#[trigger] text_lines(text)[i], addr)
}

/// A fingerprint that was remembered is found again for its address, unless an
/// earlier line speaks of that address; then the earlier line still counts. What
/// is found for any other address stays as it was.
pub proof fn remembered_is_found(
    text: Seq<char>,
    addr: Seq<char>,
    fingerprint: Seq<u8>,
    other: Seq<char>,
)
    requires
        is_word(addr),
        fingerprint.len() == 32,
    ensures
        saved_fingerprint(text_lines(with_peer(text, addr, fingerprint)), other) == if other == addr
            && !is_known(text, addr) {
            Some(fingerprint)
        } else {
            saved_fingerprint(text_lines(text), other)
        },
{
    let digits = hex_text(fingerprint);
    let line = addr + seq![' '] + digits;
    let start = if text.len() > 0 && text.last() != '\n' {
        text.push('\n')
    } else {
        text
    };
    reveal_strlit(" ");
    reveal_strlit("\n");
    assert(" "@ =~= seq![' ']);
    assert(with_peer(text, addr, fingerprint) =~= (start + line).push('\n'));
    if text.len() > 0 && text.last() != '\n' {
        lemma_lines_of_closed(text);
    }
    assert forall|i: int| 0 <= i < line.len() implies #[trigger] line[i] != '\n' by {
        if i < addr.len() {
            assert(line[i] == addr[i]);
        } else if i > addr.len() {
            assert(line[i] == digits[i - addr.len() - 1]);
        }
    }
    lemma_line_is_added(start, line);
    lemma_line_is_read(addr, fingerprint);
    lemma_saved_append(text_lines(text), line, other);
    hex_roundtrip(fingerprint);
    assert(seq![line].skip(1) =~= Seq::empty());
    assert(saved_fingerprint(Seq::empty(), other) is None);
    assert(saved_fingerprint(seq![line], other) == if other == addr {
        Some(fingerprint)
    } else {
        None
    });
}

} // verus!
