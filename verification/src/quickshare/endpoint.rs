//! How a device describes itself to Quick Share, and the name of its service.
//!
//! A description is a bit field, 16 identity bytes, a length-prefixed name
//! unless the device hides, then records of a kind, a length and a value.

use crate::bytes::same_bytes;
use crate::crypto::{random_bytes, sha256, sha256_of};
use crate::encoding::{
    base64_decode, base64_encode, base64_fill, base64_padded, base64_text, sextet,
};
use crate::error::{outcome, Error, ErrorView, Result};
use crate::text::{before, before_first, begins_with, chars_of, from_utf8, opt_view, string_of};
use vstd::prelude::*;
use vstd::slice::{slice_subrange, slice_to_vec};
use vstd::utf8::*;

verus! {

pub const SERVICE_TYPE: &'static str = "_FC9F5ED42C8A._tcp.local.";
pub const PCP: u8 = 0x23;
pub const DEVICE_PHONE: u8 = 1;
pub const DEVICE_LAPTOP: u8 = 3;

#[derive(Debug, Clone, PartialEq, Eq)]
pub struct EndpointInfo {
    pub version: u8,
    pub hidden: bool,
    pub device_type: u8,
    pub salt: [u8; 2],
    pub metadata_key: [u8; 14],
    pub name: Option<String>,
    pub tlvs: Vec<(u8, Vec<u8>)>,
}

pub ghost struct EndpointView {
    pub version: u8,
    pub hidden: bool,
    pub device_type: u8,
    pub salt: Seq<u8>,
    pub metadata_key: Seq<u8>,
    pub name: Option<Seq<char>>,
    pub tlvs: Seq<(u8, Seq<u8>)>,
}

pub open spec fn tlvs_view(tlvs: Seq<(u8, Vec<u8>)>) -> Seq<(u8, Seq<u8>)> {
    Seq::new(tlvs.len(), |i: int| (tlvs[i].0, tlvs[i].1@))
}

impl View for EndpointInfo {
    type V = EndpointView;

    open spec fn view(&self) -> EndpointView {
        EndpointView {
            version: self.version,
            hidden: self.hidden,
            device_type: self.device_type,
            salt: self.salt@,
            metadata_key: self.metadata_key@,
            name: opt_view(self.name),
            tlvs: tlvs_view(self.tlvs@),
        }
    }
}

/// The longest beginning of a text that takes at most `max` bytes.
pub open spec fn cut_to(text: Seq<char>, max: nat) -> Seq<char>
    decreases text.len(),
{
    if text.len() == 0 || encode_utf8(text).len() <= max {
        text
    } else {
        cut_to(text.drop_last(), max)
    }
}

/// A text that was cut fits.
pub proof fn lemma_cut_fits(text: Seq<char>, max: nat)
    ensures
        encode_utf8(cut_to(text, max)).len() <= max,
    decreases text.len(),
{
    if text.len() > 0 && encode_utf8(text).len() > max {
        lemma_cut_fits(text.drop_last(), max);
    }
}

/// The bit field: version in the top three bits, then the hidden bit, then the
/// type of the device.
pub open spec fn packed_bits(version: u8, hidden: bool, device_type: u8) -> u8 {
    ((version % 8) * 32 + (if hidden {
        16int
    } else {
        0
    }) + (device_type % 8) * 2) as u8
}

pub open spec fn tlv_bytes(tlv: (u8, Seq<u8>)) -> Seq<u8> {
    seq![tlv.0, tlv.1.len() as u8] + tlv.1
}

pub open spec fn tlvs_bytes(tlvs: Seq<(u8, Seq<u8>)>) -> Seq<u8>
    decreases tlvs.len(),
{
    if tlvs.len() == 0 {
        Seq::empty()
    } else {
        tlv_bytes(tlvs[0]) + tlvs_bytes(tlvs.skip(1))
    }
}

pub open spec fn short_tlvs(tlvs: Seq<(u8, Seq<u8>)>) -> bool {
    forall|i: int| 0 <= i < tlvs.len() ==> (#[trigger] tlvs[i]).1.len() <= 255
}

/// The name as it stands in a description.
pub open spec fn name_bytes(info: EndpointView) -> Seq<u8> {
    if info.hidden {
        Seq::empty()
    } else {
        let bytes = encode_utf8(cut_to(info.name->0, 255));
        seq![bytes.len() as u8] + bytes
    }
}

/// The bytes of a description.
pub open spec fn info_bytes(info: EndpointView) -> std::result::Result<Seq<u8>, ErrorView> {
    if !info.hidden && info.name is None {
        Err(ErrorView::Protocol("visible endpoint is missing a name"@))
    } else if !short_tlvs(info.tlvs) {
        Err(ErrorView::Protocol("endpoint tlv is too long"@))
    } else {
        Ok(
            seq![packed_bits(info.version, info.hidden, info.device_type)] + info.salt
                + info.metadata_key + name_bytes(info) + tlvs_bytes(info.tlvs),
        )
    }
}

/// The name in front of the rest of a description, and what follows it.
pub open spec fn read_name(hidden: bool, rest: Seq<u8>) -> std::result::Result<
    (Option<Seq<char>>, Seq<u8>),
    ErrorView,
> {
    if hidden {
        Ok((None, rest))
    } else if rest.len() == 0 {
        Err(ErrorView::Protocol("endpoint name is missing"@))
    } else {
        let len = rest[0] as int;
        if rest.len() - 1 < len {
            Err(ErrorView::Protocol("endpoint name is truncated"@))
        } else if !valid_utf8(rest.subrange(1, 1 + len)) {
            Err(ErrorView::Protocol("endpoint name is not utf-8"@))
        } else {
            Ok((Some(decode_utf8(rest.subrange(1, 1 + len))), rest.skip(1 + len)))
        }
    }
}

/// The records up to the end.
pub open spec fn read_tlvs(rest: Seq<u8>) -> Option<Seq<(u8, Seq<u8>)>>
    decreases rest.len(),
{
    if rest.len() == 0 {
        Some(Seq::empty())
    } else if rest.len() < 2 || rest.len() - 2 < rest[1] {
        None
    } else {
        let len = rest[1] as int;
        match read_tlvs(rest.skip(2 + len)) {
            Some(tlvs) => Some(seq![(rest[0], rest.subrange(2, 2 + len))] + tlvs),
            None => None,
        }
    }
}

/// The description that the bytes hold.
pub open spec fn read_info(bytes: Seq<u8>) -> std::result::Result<EndpointView, ErrorView> {
    if bytes.len() < 17 {
        Err(ErrorView::Protocol("endpoint info is too short"@))
    } else {
        let hidden = bytes[0] as int / 16 % 2 == 1;
        match read_name(hidden, bytes.skip(17)) {
            Err(error) => Err(error),
            Ok((name, rest)) => match read_tlvs(rest) {
                None => Err(ErrorView::Protocol("truncated endpoint tlv"@)),
                Some(tlvs) => Ok(
                    EndpointView {
                        version: (bytes[0] as int / 32) as u8,
                        hidden,
                        device_type: (bytes[0] as int / 2 % 8) as u8,
                        salt: bytes.subrange(1, 3),
                        metadata_key: bytes.subrange(3, 17),
                        name,
                        tlvs,
                    },
                ),
            },
        }
    }
}

/// A visible device of version 1 without further records.
pub open spec fn visible_info(name: Seq<char>, device_type: u8, identity: Seq<u8>) -> EndpointView {
    EndpointView {
        version: 1,
        hidden: false,
        device_type,
        salt: identity.take(2),
        metadata_key: identity.skip(2),
        name: Some(cut_to(name, 64)),
        tlvs: Seq::empty(),
    }
}

fn array2(bytes: &[u8]) -> (array: [u8; 2])
    requires
        bytes@.len() == 2,
    ensures
        array@ == bytes@,
{
    let array = [bytes[0], bytes[1]];
    assert(array@ =~= bytes@);
    array
}

fn array14(bytes: &[u8]) -> (array: [u8; 14])
    requires
        bytes@.len() == 14,
    ensures
        array@ == bytes@,
{
    let mut array = [0u8; 14];
    for i in 0..14
        invariant
            bytes@.len() == 14,
            forall|j: int| 0 <= j < i ==> array@[j] == bytes@[j],
    {
        array[i] = bytes[i];
    }
    assert(array@ =~= bytes@);
    array
}

impl EndpointInfo {
    /// A visible device with identity bytes drawn at random.
    pub fn visible(name: &str, device_type: u8) -> (info: Self)
        ensures
            exists|identity: Seq<u8>|
                identity.len() == 16 && info@ == #[trigger] visible_info(
                    name@,
                    device_type,
                    identity,
                ),
    {
        let identity = random_bytes(16);
        Self::visible_as(name, device_type, identity.as_slice())
    }

    /// A visible device with the given identity bytes.
    pub fn visible_as(name: &str, device_type: u8, identity: &[u8]) -> (info: Self)
        requires
            identity@.len() == 16,
        ensures
            info@ == visible_info(name@, device_type, identity@),
    {
        let (salt, metadata_key) = identity.split_at(2);
        let info = Self {
            version: 1,
            hidden: false,
            device_type,
            salt: array2(salt),
            metadata_key: array14(metadata_key),
            name: Some(truncate_utf8(name, 64)),
            tlvs: Vec::new(),
        };
        assert(salt@ =~= identity@.take(2));
        assert(metadata_key@ =~= identity@.skip(2));
        assert(info@.tlvs =~= Seq::empty());
        info
    }

    pub fn encode(&self) -> (bytes: Result<Vec<u8>>)
        ensures
            outcome(bytes) == info_bytes(self@),
    {
        let mut out: Vec<u8> = Vec::new();
        out.push(pack(self.version, self.hidden, self.device_type));
        out.extend_from_slice(&self.salt);
        out.extend_from_slice(&self.metadata_key);
        let ghost head = seq![packed_bits(self.version, self.hidden, self.device_type)]
            + self.salt@ + self.metadata_key@;
        assert(out@ =~= head);
        if !self.hidden {
            let name = match &self.name {
                Some(name) => name,
                None => return Err(Error::protocol("visible endpoint is missing a name")),
            };
            let name = truncate_utf8(name.as_str(), 255);
            let bytes = name.as_str().as_bytes();
            out.push(bytes.len() as u8);
            out.extend_from_slice(bytes);
        }
        assert(out@ =~= head + name_bytes(self@));
        let ghost named = head + name_bytes(self@);
        let ghost tlvs = self@.tlvs;
        assert(tlvs.skip(0) =~= tlvs);
        assert(out@ + tlvs_bytes(tlvs) =~= named + tlvs_bytes(tlvs));
        for i in 0..self.tlvs.len()
            invariant
                !self.hidden ==> self@.name is Some,
                tlvs == self@.tlvs,
                tlvs.len() == self.tlvs@.len(),
                out@ + tlvs_bytes(tlvs.skip(i as int)) == named + tlvs_bytes(tlvs),
                forall|j: int| 0 <= j < i ==> (#[trigger] tlvs[j]).1.len() <= 255,
        {
            let ghost before = out@;
            let (kind, value) = &self.tlvs[i];
            assert(tlvs[i as int] == (*kind, value@));
            assert(tlvs.skip(i as int)[0] == tlvs[i as int]);
            assert(tlvs.skip(i as int).skip(1) =~= tlvs.skip(i + 1));
            if value.len() > 255 {
                assert(!short_tlvs(tlvs));
                return Err(Error::protocol("endpoint tlv is too long"));
            }
            out.push(*kind);
            out.push(value.len() as u8);
            out.extend_from_slice(value.as_slice());
            assert(out@ =~= before + tlv_bytes(tlvs[i as int]));
            assert(out@ + tlvs_bytes(tlvs.skip(i + 1)) =~= before + tlvs_bytes(
                tlvs.skip(i as int),
            ));
        }
        assert(tlvs.skip(tlvs.len() as int) =~= Seq::empty());
        assert(out@ + Seq::<u8>::empty() =~= out@);
        Ok(out)
    }

    pub fn decode(bytes: &[u8]) -> (info: Result<Self>)
        ensures
            outcome(info) == read_info(bytes@),
    {
        if bytes.len() < 17 {
            return Err(Error::protocol("endpoint info is too short"));
        }
        let (version, hidden, device_type) = unpack(bytes[0]);
        let salt = array2(slice_subrange(bytes, 1, 3));
        let metadata_key = array14(slice_subrange(bytes, 3, 17));
        let (_, after_id) = bytes.split_at(17);
        assert(after_id@ =~= bytes@.skip(17));
        let mut rest: &[u8] = after_id;
        let mut name: Option<String> = None;
        if !hidden {
            if rest.len() == 0 {
                return Err(Error::protocol("endpoint name is missing"));
            }
            let len: usize = rest[0] as usize;
            if rest.len() - 1 < len {
                return Err(Error::protocol("endpoint name is truncated"));
            }
            let text = match from_utf8(slice_subrange(rest, 1, 1 + len)) {
                Some(text) => text,
                None => return Err(Error::protocol("endpoint name is not utf-8")),
            };
            name = Some(text);
            let (_, left) = rest.split_at(1 + len);
            assert(left@ =~= rest@.skip(1 + len));
            rest = left;
        }
        let ghost tail = rest@;
        assert(read_name(hidden, bytes@.skip(17)) == Ok::<(Option<Seq<char>>, Seq<u8>), ErrorView>(
            (opt_view(name), tail),
        ));
        let mut tlvs: Vec<(u8, Vec<u8>)> = Vec::new();
        assert(read_tlvs(tail) matches Some(all) ==> tlvs_view(tlvs@) + all =~= all);
        while rest.len() > 0
            invariant
                match read_tlvs(rest@) {
                    Some(more) => read_tlvs(tail) == Some(tlvs_view(tlvs@) + more),
                    None => read_tlvs(tail) is None,
                },
                bytes@.len() >= 17,
                read_name(bytes@[0] as int / 16 % 2 == 1, bytes@.skip(17)) == Ok::<
                    (Option<Seq<char>>, Seq<u8>),
                    ErrorView,
                >((opt_view(name), tail)),
            decreases rest@.len(),
        {
            if rest.len() < 2 {
                return Err(Error::protocol("truncated endpoint tlv"));
            }
            let kind: u8 = rest[0];
            let len: usize = rest[1] as usize;
            if rest.len() - 2 < len {
                return Err(Error::protocol("truncated endpoint tlv"));
            }
            let ghost before = tlvs_view(tlvs@);
            let value = slice_to_vec(slice_subrange(rest, 2, 2 + len));
            let (_, left) = rest.split_at(2 + len);
            tlvs.push((kind, value));
            proof {
                assert(left@ =~= rest@.skip(2 + len));
                assert(tlvs_view(tlvs@) =~= before.push((kind, value@)));
                if let Some(more) = read_tlvs(left@) {
                    assert(before + (seq![(kind, value@)] + more) =~= tlvs_view(tlvs@) + more);
                }
            }
            rest = left;
        }
        assert(tlvs_view(tlvs@) + Seq::empty() =~= tlvs_view(tlvs@));
        Ok(Self { version, hidden, device_type, salt, metadata_key, name, tlvs })
    }

    /// The description as a text.
    pub fn encode_txt(&self) -> (text: Result<String>)
        ensures
            match info_bytes(self@) {
                Ok(bytes) => text is Ok && text->Ok_0@ == base64_text(bytes),
                Err(error) => text is Err && text->Err_0@ == error,
            },
    {
        let bytes = self.encode()?;
        Ok(base64_encode(bytes.as_slice()))
    }
}

fn pack(version: u8, hidden: bool, device_type: u8) -> (bits: u8)
    ensures
        bits == packed_bits(version, hidden, device_type),
{
    (version % 8) * 32 + (if hidden {
        16
    } else {
        0
    }) + (device_type % 8) * 2
}

fn unpack(byte: u8) -> (parts: (u8, bool, u8))
    ensures
        parts.0 == byte as int / 32,
        parts.1 == (byte as int / 16 % 2 == 1),
        parts.2 == byte as int / 2 % 8,
{
    (byte / 32, byte / 16 % 2 == 1, byte / 2 % 8)
}

/// The beginning of a text that takes at most `max` bytes.
pub fn truncate_utf8(value: &str, max: usize) -> (text: String)
    ensures
        text@ == cut_to(value@, max as nat),
{
    let chars = chars_of(value);
    let mut end: usize = chars.len();
    assert(value@.take(end as int) =~= value@);
    loop
        invariant
            end <= chars@.len(),
            chars@ == value@,
            cut_to(value@, max as nat) == cut_to(value@.take(end as int), max as nat),
        decreases end,
    {
        let part = string_of(slice_subrange(chars.as_slice(), 0, end));
        assert(part@ =~= value@.take(end as int));
        if end == 0 || part.as_str().as_bytes().len() <= max {
            return part;
        }
        assert(value@.take(end as int).drop_last() =~= value@.take(end - 1));
        end = end - 1;
    }
}

/// A description that can be told from its bytes: small numbers, a name exactly
/// where the device does not hide, and short records.
pub open spec fn canonical(info: EndpointView) -> bool {
    &&& info.version < 8
    &&& info.device_type < 8
    &&& info.salt.len() == 2
    &&& info.metadata_key.len() == 14
    &&& info.hidden <==> info.name is None
    &&& info.name matches Some(name) ==> encode_utf8(name).len() <= 255
    &&& short_tlvs(info.tlvs)
}

proof fn lemma_tlvs_read(tlvs: Seq<(u8, Seq<u8>)>)
    requires
        short_tlvs(tlvs),
    ensures
        read_tlvs(tlvs_bytes(tlvs)) == Some(tlvs),
    decreases tlvs.len(),
{
    if tlvs.len() == 0 {
        assert(tlvs =~= Seq::empty());
    } else {
        let rest = tlvs.skip(1);
        assert(short_tlvs(rest)) by {
            assert forall|i: int| 0 <= i < rest.len() implies (#[trigger] rest[i]).1.len() <= 255 by {
                assert(rest[i] == tlvs[i + 1]);
            }
        }
        lemma_tlvs_read(rest);
        let all = tlvs_bytes(tlvs);
        let len = tlvs[0].1.len() as int;
        assert(all.skip(2 + len) =~= tlvs_bytes(rest));
        assert(all.subrange(2, 2 + len) =~= tlvs[0].1);
        assert(seq![(all[0], all.subrange(2, 2 + len))] + rest =~= tlvs);
    }
}

/// A description is read back from its bytes.
pub proof fn info_roundtrip(info: EndpointView)
    requires
        canonical(info),
    ensures
        info_bytes(info) is Ok,
        read_info(info_bytes(info)->Ok_0) == Ok::<EndpointView, ErrorView>(info),
{
    let bytes = info_bytes(info)->Ok_0;
    let rest = bytes.skip(17);
    let tail = tlvs_bytes(info.tlvs);
    assert(bytes[0] == packed_bits(info.version, info.hidden, info.device_type));
    assert(rest =~= name_bytes(info) + tail);
    assert(bytes.subrange(1, 3) =~= info.salt);
    assert(bytes.subrange(3, 17) =~= info.metadata_key);
    lemma_tlvs_read(info.tlvs);
    if info.hidden {
        assert(rest =~= tail);
    } else {
        let name = info.name->0;
        let encoded = encode_utf8(name);
        assert(cut_to(name, 255) == name);
        encode_utf8_valid_utf8(name);
        encode_utf8_decode_utf8(name);
        assert(rest.subrange(1, (1 + encoded.len()) as int) =~= encoded);
        assert(rest.skip((1 + encoded.len()) as int) =~= tail);
    }
}

pub open spec fn is_alphanumeric_byte(byte: u8) -> bool {
    0x30 <= byte <= 0x39 || 0x41 <= byte <= 0x5A || 0x61 <= byte <= 0x7A
}

proof fn lemma_tlvs_written(rest: Seq<u8>)
    requires
        read_tlvs(rest) is Some,
    ensures
        short_tlvs(read_tlvs(rest)->0),
        tlvs_bytes(read_tlvs(rest)->0) == rest,
    decreases rest.len(),
{
    let tlvs = read_tlvs(rest)->0;
    if rest.len() > 0 {
        let len = rest[1] as int;
        let after = rest.skip(2 + len);
        lemma_tlvs_written(after);
        let tail = read_tlvs(after)->0;
        assert(tlvs.skip(1) =~= tail);
        assert forall|i: int| 0 <= i < tlvs.len() implies (#[trigger] tlvs[i]).1.len() <= 255 by {
            if i > 0 {
                assert(tlvs[i] == tail[i - 1]);
            }
        }
        assert(tlvs_bytes(tlvs) =~= rest);
    } else {
        assert(tlvs_bytes(tlvs) =~= rest);
    }
}

/// A description that was read is written as the bytes that it was read from, but
/// for the lowest bit of the first byte, which is cleared.
pub proof fn read_info_is_written_back(bytes: Seq<u8>)
    requires
        read_info(bytes) is Ok,
    ensures
        info_bytes(read_info(bytes)->Ok_0) == Ok::<Seq<u8>, ErrorView>(
            bytes.update(0, (bytes[0] - bytes[0] % 2) as u8),
        ),
{
    let info = read_info(bytes)->Ok_0;
    let rest = bytes.skip(17);
    let (name, after) = read_name(info.hidden, rest)->Ok_0;
    lemma_tlvs_written(after);
    assert(packed_bits(info.version, info.hidden, info.device_type) == bytes[0] - bytes[0] % 2);
    if !info.hidden {
        let len = rest[0] as int;
        let raw = rest.subrange(1, 1 + len);
        decode_utf8_encode_utf8(raw);
        assert(encode_utf8(name->0) == raw);
        assert(cut_to(name->0, 255) == name->0);
        assert(name_bytes(info) =~= rest.take(1 + len));
    }
    assert(name_bytes(info) + after =~= rest);
    assert(info_bytes(info)->Ok_0 =~= bytes.update(0, (bytes[0] - bytes[0] % 2) as u8));
}

/// Four letters or digits.
pub open spec fn is_endpoint_id(id: Seq<char>) -> bool {
    let bytes = encode_utf8(id);
    bytes.len() == 4 && forall|i: int| 0 <= i < 4 ==> is_alphanumeric_byte(#[trigger] bytes[i])
}

/// The first bytes of the digest of the service's name.
pub open spec fn service_prefix() -> Seq<u8> {
    sha256_of(encode_utf8("NearbySharing"@)).take(3)
}

/// What the name of a service instance stands for.
pub open spec fn instance_bytes(id: Seq<char>) -> Seq<u8> {
    seq![PCP] + encode_utf8(id) + service_prefix() + seq![0u8, 0u8]
}

/// The name under which a device announces itself. [`parse_instance_name`] reads
/// the id back from it, alone or with labels after it.
pub fn service_instance_name(endpoint_id: &str) -> (name: Result<String>)
    ensures
        name is Ok ==> forall|labels: Seq<char>|
            labels.len() == 0 || labels[0] == '.' ==> #[trigger] instance_reads_back(
                endpoint_id@,
                labels,
            ),
        is_endpoint_id(endpoint_id@) ==> name is Ok && name->Ok_0@ == base64_text(
            instance_bytes(endpoint_id@),
        ),
        !is_endpoint_id(endpoint_id@) ==> name is Err && name->Err_0@ == ErrorView::Protocol(
            "endpoint id must be 4 alphanumeric characters"@,
        ),
{
    let id = endpoint_id.as_bytes();
    if id.len() != 4 {
        return Err(Error::protocol("endpoint id must be 4 alphanumeric characters"));
    }
    for i in 0..4
        invariant
            id@ == encode_utf8(endpoint_id@),
            id@.len() == 4,
            forall|j: int| 0 <= j < i ==> is_alphanumeric_byte(#[trigger] id@[j]),
    {
        let byte = id[i];
        if !((0x30 <= byte && byte <= 0x39) || (0x41 <= byte && byte <= 0x5A) || (0x61 <= byte
            && byte <= 0x7A)) {
            assert(!is_alphanumeric_byte(id@[i as int]));
            return Err(Error::protocol("endpoint id must be 4 alphanumeric characters"));
        }
    }
    let mut raw: Vec<u8> = Vec::new();
    raw.push(PCP);
    raw.extend_from_slice(id);
    let nearby_prefix = nearby_service_prefix();
    raw.extend_from_slice(&nearby_prefix);
    raw.push(0);
    raw.push(0);
    assert(raw@ =~= instance_bytes(endpoint_id@));
    proof {
        assert(nearby_prefix@.len() == 3);
        assert forall|labels: Seq<char>|
            labels.len() == 0 || labels[0] == '.' implies #[trigger] instance_reads_back(
            endpoint_id@,
            labels,
        ) by {
            lemma_instance_reads_back(endpoint_id@, labels);
        }
    }
    Ok(base64_encode(raw.as_slice()))
}

/// The text with as many `=` as fill up its bytes to a multiple of four.
pub open spec fn filled_up(text: Seq<char>) -> Seq<char> {
    text + base64_fill(encode_utf8(text).len())
}

/// The endpoint id in bytes that stand for an instance of the service with the
/// given prefix.
pub open spec fn id_in(bytes: Seq<u8>, prefix: Seq<u8>) -> std::result::Result<
    Seq<char>,
    ErrorView,
> {
    if bytes.len() != 10 || bytes[0] != PCP || bytes.subrange(5, 8) != prefix {
        Err(ErrorView::Protocol("not a quick share service name"@))
    } else if !valid_utf8(bytes.subrange(1, 5)) {
        Err(ErrorView::Protocol("endpoint id is not utf-8"@))
    } else {
        Ok(decode_utf8(bytes.subrange(1, 5)))
    }
}

/// The endpoint id in bytes that stand for a service instance.
pub open spec fn instance_id(bytes: Seq<u8>) -> std::result::Result<Seq<char>, ErrorView> {
    id_in(bytes, service_prefix())
}

/// Reads the endpoint id from bytes that stand for an instance of the service
/// with the given prefix.
pub fn endpoint_id_in(bytes: &[u8], prefix: &[u8; 3]) -> (id: Result<String>)
    ensures
        outcome(id) == id_in(bytes@, prefix@),
{
    if bytes.len() != 10 || bytes[0] != PCP {
        return Err(Error::protocol("not a quick share service name"));
    }
    if !same_bytes(slice_subrange(bytes, 5, 8), prefix) {
        return Err(Error::protocol("not a quick share service name"));
    }
    match from_utf8(slice_subrange(bytes, 1, 5)) {
        Some(id) => Ok(id),
        None => Err(Error::protocol("endpoint id is not utf-8")),
    }
}

/// Reads the endpoint id from the name of a service instance, or from a full
/// service name that begins with one.
pub fn parse_instance_name(name: &str) -> (id: Result<String>)
    ensures
        match id {
            Ok(id) => exists|bytes: Seq<u8>|
                #[trigger] base64_padded(bytes) == filled_up(before_first(name@, '.'))
                    && instance_id(bytes) == Ok::<Seq<char>, ErrorView>(id@),
            Err(error) => error@ is Protocol,
        },
        forall|bytes: Seq<u8>|
            #[trigger] base64_padded(bytes) == filled_up(before_first(name@, '.')) ==> outcome(id)
                == instance_id(bytes),
        (forall|bytes: Seq<u8>|
            #[trigger] base64_padded(bytes) != filled_up(before_first(name@, '.'))) ==> id is Err
            && id->Err_0@ is Protocol && begins_with(id->Err_0@->Protocol_0, "base64: "@),
{
    let label = string_of(before(chars_of(name).as_slice(), '.').as_slice());
    let bytes = decode_b64(label.as_str())?;
    assert(base64_padded(bytes@) == filled_up(before_first(name@, '.')));
    endpoint_id_in(bytes.as_slice(), &nearby_service_prefix())
}

pub fn nearby_service_prefix() -> (prefix: [u8; 3])
    ensures
        prefix@ == service_prefix(),
{
    let digest = sha256("NearbySharing".as_bytes());
    let prefix = [digest[0], digest[1], digest[2]];
    assert(prefix@ =~= digest@.take(3));
    prefix
}

/// The letters and digits by their number.
pub open spec fn id_char(number: int) -> char {
    if number < 26 {
        ('A' as int + number) as char
    } else if number < 52 {
        ('a' as int + number - 26) as char
    } else {
        ('0' as int + number - 52) as char
    }
}

/// The id that random bytes give.
pub open spec fn id_text(raw: Seq<u8>) -> Seq<char> {
    Seq::new(raw.len(), |i: int| id_char(raw[i] as int % 62))
}

/// The id that four bytes give can be announced.
pub proof fn drawn_id_can_be_announced(raw: Seq<u8>)
    requires
        raw.len() == 4,
    ensures
        is_endpoint_id(id_text(raw)),
{
    let id = id_text(raw);
    assert forall|i: int| 0 <= i < id.len() implies '\0' <= #[trigger] id[i] <= '\u{7f}' by {
        assert(id[i] == id_char(raw[i] as int % 62));
    }
    is_ascii_chars_encode_utf8(id);
    assert forall|i: int| 0 <= i < 4 implies is_alphanumeric_byte(
        #[trigger] encode_utf8(id)[i],
    ) by {
        assert(id[i] == id_char(raw[i] as int % 62));
    }
}

/// An id drawn at random.
pub fn random_endpoint_id() -> (id: String)
    ensures
        exists|raw: Seq<u8>| raw.len() == 4 && id@ == #[trigger] id_text(raw),
        is_endpoint_id(id@),
{
    let raw = random_bytes(4);
    proof {
        drawn_id_can_be_announced(raw@);
    }
    endpoint_id_of(raw.as_slice())
}

/// The id that the given bytes give.
pub fn endpoint_id_of(raw: &[u8]) -> (id: String)
    ensures
        id@ == id_text(raw@),
{
    let mut id = String::new();
    for i in 0..raw.len()
        invariant
            id@ == id_text(raw@).take(i as int),
    {
        let number: u8 = raw[i] % 62;
        let c = if number < 26 {
            (65 + number) as char
        } else if number < 52 {
            (97 + (number - 26)) as char
        } else {
            (48 + (number - 52)) as char
        };
        id.push(c);
        assert(id_text(raw@).take(i + 1) =~= id_text(raw@).take(i as int).push(c));
    }
    assert(id_text(raw@).take(raw@.len() as int) =~= id_text(raw@));
    id
}

/// Reads base64 without its padding.
pub fn decode_b64(value: &str) -> (bytes: Result<Vec<u8>>)
    ensures
        match bytes {
            Ok(found) => base64_padded(found@) == filled_up(value@),
            Err(error) => error@ is Protocol && begins_with(error@->Protocol_0, "base64: "@),
        },
        forall|expected: Seq<u8>|
            #[trigger] base64_padded(expected) == filled_up(value@) ==> bytes is Ok
                && bytes->Ok_0@ == expected,
{
    let mut padded = value.to_owned();
    let len: usize = value.as_bytes().len();
    let extra: usize = (4 - len % 4) % 4;
    for i in 0..extra
        invariant
            padded@ == value@ + base64_fill(len as nat).take(i as int),
            extra == base64_fill(len as nat).len(),
    {
        padded.push('=');
        assert(base64_fill(len as nat).take(i + 1) =~= base64_fill(len as nat).take(i as int).push(
            '=',
        ));
    }
    assert(padded@ =~= filled_up(value@));
    match base64_decode(padded.as_str()) {
        Ok(bytes) => Ok(bytes),
        Err(text) => {
            let mut message = "base64: ".to_owned();
            message.append(text.as_str());
            assert(message@.take("base64: "@.len() as int) =~= "base64: "@);
            Err(Error::Protocol(message))
        },
    }
}

proof fn lemma_sextet(bytes: Seq<u8>, i: int)
    requires
        0 <= i,
    ensures
        0 <= sextet(bytes, i) < 64,
{
}

/// A base64 text is ASCII without dots.
proof fn lemma_base64_text(bytes: Seq<u8>)
    ensures
        is_ascii_chars(base64_text(bytes)),
        !base64_text(bytes).contains('.'),
        encode_utf8(base64_text(bytes)).len() == base64_text(bytes).len(),
{
    let text = base64_text(bytes);
    assert forall|i: int| 0 <= i < text.len() implies '\0' <= #[trigger] text[i] <= '\u{7f}' && text[i]
        != '.' by {
        lemma_sextet(bytes, i);
    }
    is_ascii_chars_encode_utf8(text);
}

proof fn lemma_before_first(text: Seq<char>, more: Seq<char>, c: char)
    requires
        !text.contains(c),
        more.len() == 0 || more[0] == c,
    ensures
        before_first(text + more, c) == text,
    decreases text.len(),
{
    let all = text + more;
    if text.len() == 0 {
        assert(all =~= more);
        assert(text =~= Seq::empty());
    } else {
        assert(text.contains(text[0]));
        let rest = text.skip(1);
        assert(!rest.contains(c)) by {
            if rest.contains(c) {
                let i = choose|i: int| 0 <= i < rest.len() && rest[i] == c;
                assert(text[i + 1] == c);
            }
        }
        lemma_before_first(rest, more, c);
        assert(all.skip(1) =~= rest + more);
        assert(seq![text[0]] + rest =~= text);
    }
}

/// What is encoded without padding is read back.
pub proof fn base64_is_read_back(bytes: Seq<u8>)
    ensures
        filled_up(base64_text(bytes)) == base64_padded(bytes),
{
    lemma_base64_text(bytes);
}

/// The endpoint id is read back from the name of its instance, alone or with
/// labels after it.
pub open spec fn instance_reads_back(id: Seq<char>, labels: Seq<char>) -> bool {
    let bytes = instance_bytes(id);
    &&& base64_padded(bytes) == filled_up(before_first(base64_text(bytes) + labels, '.'))
    &&& instance_id(bytes) == Ok::<Seq<char>, ErrorView>(id)
}

proof fn lemma_instance_reads_back(id: Seq<char>, labels: Seq<char>)
    requires
        is_endpoint_id(id),
        labels.len() == 0 || labels[0] == '.',
        service_prefix().len() == 3,
    ensures
        instance_reads_back(id, labels),
{
    let bytes = instance_bytes(id);
    lemma_base64_text(bytes);
    lemma_before_first(base64_text(bytes), labels, '.');
    base64_is_read_back(bytes);
    assert(bytes.subrange(5, 8) =~= service_prefix());
    assert(bytes.subrange(1, 5) =~= encode_utf8(id));
    encode_utf8_valid_utf8(id);
    encode_utf8_decode_utf8(id);
}

} // verus!
