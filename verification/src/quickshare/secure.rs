//! Sealed, signed and numbered messages between two devices that share a
//! secret.
//!
//! Sequence numbers start at 0 and are incremented before each message, so the
//! first message of a direction is 1.

use crate::bytes::array16;
use crate::crypto::{
    cbc_decrypt, cbc_encrypt, cbc_opened, cbc_sealed, hkdf_of, hkdf_sha256, hmac_of, hmac_sha256,
    hmac_sha256_matches, random_bytes, sha256, sha256_of,
};
use crate::error::{outcome, Error, ErrorView, Result};
use crate::quickshare::proto::{
    bytes_field, group_wire, i32_wire, int_field, lemma_absorb_bytes, lemma_absorb_int, merged_with,
    message_bytes, read_bytes, read_i32, Field, FieldView, Fields, Malformed, Message, Schema,
};
use crate::text::opt_view;
use vstd::prelude::*;
use vstd::slice::slice_to_vec;
use vstd::utf8::*;

verus! {

/// A signed header and body.
#[derive(Debug, Clone, PartialEq)]
pub struct SecureMessage {
    pub header_and_body: Option<Vec<u8>>,
    pub signature: Option<Vec<u8>>,
}

pub ghost struct SecureMessageView {
    pub header_and_body: Option<Seq<u8>>,
    pub signature: Option<Seq<u8>>,
}

impl View for SecureMessage {
    type V = SecureMessageView;

    open spec fn view(&self) -> SecureMessageView {
        SecureMessageView {
            header_and_body: opt_view(self.header_and_body),
            signature: opt_view(self.signature),
        }
    }
}

impl Schema for SecureMessage {
    open spec fn blank() -> SecureMessageView {
        SecureMessageView { header_and_body: None, signature: None }
    }

    open spec fn step(m: SecureMessageView, field: FieldView) -> Option<SecureMessageView> {
        if field.tag == 1 {
            match read_bytes(field.value) {
                Some(value) => Some(SecureMessageView { header_and_body: Some(value), ..m }),
                None => None,
            }
        } else if field.tag == 2 {
            match read_bytes(field.value) {
                Some(value) => Some(SecureMessageView { signature: Some(value), ..m }),
                None => None,
            }
        } else {
            Some(m)
        }
    }

    open spec fn listed(m: SecureMessageView) -> Seq<FieldView> {
        Seq::empty() + bytes_field(1, m.header_and_body) + bytes_field(2, m.signature)
    }
}

impl Message for SecureMessage {
    fn empty() -> Self {
        SecureMessage { header_and_body: None, signature: None }
    }

    fn merge_field(&mut self, field: &Field) -> std::result::Result<(), Malformed> {
        if field.tag == 1 {
            self.header_and_body = Some(slice_to_vec(field.value.as_bytes()?));
        } else if field.tag == 2 {
            self.signature = Some(slice_to_vec(field.value.as_bytes()?));
        }
        Ok(())
    }

    fn to_fields(&self) -> Fields {
        broadcast use group_wire;

        let mut fields = Fields::new();
        let ghost before = fields@;
        fields.put_data(1, &self.header_and_body);
        proof {
            lemma_absorb_bytes::<Self>(Self::blank(), before, 1, self@.header_and_body);
        }
        let ghost before = fields@;
        fields.put_data(2, &self.signature);
        proof {
            lemma_absorb_bytes::<Self>(Self::blank(), before, 2, self@.signature);
        }
        fields
    }
}

/// How a body is signed and sealed.
#[derive(Debug, Clone, PartialEq)]
pub struct Header {
    pub signature_scheme: Option<i32>,
    pub encryption_scheme: Option<i32>,
    pub iv: Option<Vec<u8>>,
    pub public_metadata: Option<Vec<u8>>,
}

pub ghost struct HeaderView {
    pub signature_scheme: Option<i32>,
    pub encryption_scheme: Option<i32>,
    pub iv: Option<Seq<u8>>,
    pub public_metadata: Option<Seq<u8>>,
}

impl View for Header {
    type V = HeaderView;

    open spec fn view(&self) -> HeaderView {
        HeaderView {
            signature_scheme: self.signature_scheme,
            encryption_scheme: self.encryption_scheme,
            iv: opt_view(self.iv),
            public_metadata: opt_view(self.public_metadata),
        }
    }
}

impl Schema for Header {
    open spec fn blank() -> HeaderView {
        HeaderView { signature_scheme: None, encryption_scheme: None, iv: None, public_metadata: None }
    }

    open spec fn step(m: HeaderView, field: FieldView) -> Option<HeaderView> {
        if field.tag == 1 {
            match read_i32(field.value) {
                Some(value) => Some(HeaderView { signature_scheme: Some(value), ..m }),
                None => None,
            }
        } else if field.tag == 2 {
            match read_i32(field.value) {
                Some(value) => Some(HeaderView { encryption_scheme: Some(value), ..m }),
                None => None,
            }
        } else if field.tag == 5 {
            match read_bytes(field.value) {
                Some(value) => Some(HeaderView { iv: Some(value), ..m }),
                None => None,
            }
        } else if field.tag == 6 {
            match read_bytes(field.value) {
                Some(value) => Some(HeaderView { public_metadata: Some(value), ..m }),
                None => None,
            }
        } else {
            Some(m)
        }
    }

    open spec fn listed(m: HeaderView) -> Seq<FieldView> {
        Seq::empty() + int_field(1, i32_wire(m.signature_scheme)) + int_field(2, i32_wire(m.encryption_scheme)) + bytes_field(5, m.iv) + bytes_field(6, m.public_metadata)
    }
}

impl Message for Header {
    fn empty() -> Self {
        Header { signature_scheme: None, encryption_scheme: None, iv: None, public_metadata: None }
    }

    fn merge_field(&mut self, field: &Field) -> std::result::Result<(), Malformed> {
        if field.tag == 1 {
            self.signature_scheme = Some(field.value.as_i32()?);
        } else if field.tag == 2 {
            self.encryption_scheme = Some(field.value.as_i32()?);
        } else if field.tag == 5 {
            self.iv = Some(slice_to_vec(field.value.as_bytes()?));
        } else if field.tag == 6 {
            self.public_metadata = Some(slice_to_vec(field.value.as_bytes()?));
        }
        Ok(())
    }

    fn to_fields(&self) -> Fields {
        broadcast use group_wire;

        let mut fields = Fields::new();
        let ghost before = fields@;
        fields.put_i32(1, self.signature_scheme);
        proof {
            lemma_absorb_int::<Self>(Self::blank(), before, 1, i32_wire(self.signature_scheme));
        }
        let ghost before = fields@;
        fields.put_i32(2, self.encryption_scheme);
        proof {
            lemma_absorb_int::<Self>(Self::blank(), before, 2, i32_wire(self.encryption_scheme));
        }
        let ghost before = fields@;
        fields.put_data(5, &self.iv);
        proof {
            lemma_absorb_bytes::<Self>(Self::blank(), before, 5, self@.iv);
        }
        let ghost before = fields@;
        fields.put_data(6, &self.public_metadata);
        proof {
            lemma_absorb_bytes::<Self>(Self::blank(), before, 6, self@.public_metadata);
        }
        fields
    }
}

/// What a signature covers.
#[derive(Debug, Clone, PartialEq)]
pub struct HeaderAndBody {
    pub header: Option<Vec<u8>>,
    pub body: Option<Vec<u8>>,
}

pub ghost struct HeaderAndBodyView {
    pub header: Option<Seq<u8>>,
    pub body: Option<Seq<u8>>,
}

impl View for HeaderAndBody {
    type V = HeaderAndBodyView;

    open spec fn view(&self) -> HeaderAndBodyView {
        HeaderAndBodyView {
            header: opt_view(self.header),
            body: opt_view(self.body),
        }
    }
}

impl Schema for HeaderAndBody {
    open spec fn blank() -> HeaderAndBodyView {
        HeaderAndBodyView { header: None, body: None }
    }

    open spec fn step(m: HeaderAndBodyView, field: FieldView) -> Option<HeaderAndBodyView> {
        if field.tag == 1 {
            match read_bytes(field.value) {
                Some(value) => Some(HeaderAndBodyView { header: Some(value), ..m }),
                None => None,
            }
        } else if field.tag == 2 {
            match read_bytes(field.value) {
                Some(value) => Some(HeaderAndBodyView { body: Some(value), ..m }),
                None => None,
            }
        } else {
            Some(m)
        }
    }

    open spec fn listed(m: HeaderAndBodyView) -> Seq<FieldView> {
        Seq::empty() + bytes_field(1, m.header) + bytes_field(2, m.body)
    }
}

impl Message for HeaderAndBody {
    fn empty() -> Self {
        HeaderAndBody { header: None, body: None }
    }

    fn merge_field(&mut self, field: &Field) -> std::result::Result<(), Malformed> {
        if field.tag == 1 {
            self.header = Some(slice_to_vec(field.value.as_bytes()?));
        } else if field.tag == 2 {
            self.body = Some(slice_to_vec(field.value.as_bytes()?));
        }
        Ok(())
    }

    fn to_fields(&self) -> Fields {
        broadcast use group_wire;

        let mut fields = Fields::new();
        let ghost before = fields@;
        fields.put_data(1, &self.header);
        proof {
            lemma_absorb_bytes::<Self>(Self::blank(), before, 1, self@.header);
        }
        let ghost before = fields@;
        fields.put_data(2, &self.body);
        proof {
            lemma_absorb_bytes::<Self>(Self::blank(), before, 2, self@.body);
        }
        fields
    }
}

/// The kind of a message.
#[derive(Debug, Clone, PartialEq)]
pub struct GcmMetadata {
    pub metadata_type: Option<i32>,
    pub version: Option<i32>,
}

pub ghost struct GcmMetadataView {
    pub metadata_type: Option<i32>,
    pub version: Option<i32>,
}

impl View for GcmMetadata {
    type V = GcmMetadataView;

    open spec fn view(&self) -> GcmMetadataView {
        GcmMetadataView {
            metadata_type: self.metadata_type,
            version: self.version,
        }
    }
}

impl Schema for GcmMetadata {
    open spec fn blank() -> GcmMetadataView {
        GcmMetadataView { metadata_type: None, version: None }
    }

    open spec fn step(m: GcmMetadataView, field: FieldView) -> Option<GcmMetadataView> {
        if field.tag == 1 {
            match read_i32(field.value) {
                Some(value) => Some(GcmMetadataView { metadata_type: Some(value), ..m }),
                None => None,
            }
        } else if field.tag == 2 {
            match read_i32(field.value) {
                Some(value) => Some(GcmMetadataView { version: Some(value), ..m }),
                None => None,
            }
        } else {
            Some(m)
        }
    }

    open spec fn listed(m: GcmMetadataView) -> Seq<FieldView> {
        Seq::empty() + int_field(1, i32_wire(m.metadata_type)) + int_field(2, i32_wire(m.version))
    }
}

impl Message for GcmMetadata {
    fn empty() -> Self {
        GcmMetadata { metadata_type: None, version: None }
    }

    fn merge_field(&mut self, field: &Field) -> std::result::Result<(), Malformed> {
        if field.tag == 1 {
            self.metadata_type = Some(field.value.as_i32()?);
        } else if field.tag == 2 {
            self.version = Some(field.value.as_i32()?);
        }
        Ok(())
    }

    fn to_fields(&self) -> Fields {
        broadcast use group_wire;

        let mut fields = Fields::new();
        let ghost before = fields@;
        fields.put_i32(1, self.metadata_type);
        proof {
            lemma_absorb_int::<Self>(Self::blank(), before, 1, i32_wire(self.metadata_type));
        }
        let ghost before = fields@;
        fields.put_i32(2, self.version);
        proof {
            lemma_absorb_int::<Self>(Self::blank(), before, 2, i32_wire(self.version));
        }
        fields
    }
}

/// A numbered message.
#[derive(Debug, Clone, PartialEq)]
pub struct DeviceToDeviceMessage {
    pub message: Option<Vec<u8>>,
    pub sequence_number: Option<i32>,
}

pub ghost struct DeviceToDeviceMessageView {
    pub message: Option<Seq<u8>>,
    pub sequence_number: Option<i32>,
}

impl View for DeviceToDeviceMessage {
    type V = DeviceToDeviceMessageView;

    open spec fn view(&self) -> DeviceToDeviceMessageView {
        DeviceToDeviceMessageView {
            message: opt_view(self.message),
            sequence_number: self.sequence_number,
        }
    }
}

impl Schema for DeviceToDeviceMessage {
    open spec fn blank() -> DeviceToDeviceMessageView {
        DeviceToDeviceMessageView { message: None, sequence_number: None }
    }

    open spec fn step(m: DeviceToDeviceMessageView, field: FieldView) -> Option<DeviceToDeviceMessageView> {
        if field.tag == 1 {
            match read_bytes(field.value) {
                Some(value) => Some(DeviceToDeviceMessageView { message: Some(value), ..m }),
                None => None,
            }
        } else if field.tag == 2 {
            match read_i32(field.value) {
                Some(value) => Some(DeviceToDeviceMessageView { sequence_number: Some(value), ..m }),
                None => None,
            }
        } else {
            Some(m)
        }
    }

    open spec fn listed(m: DeviceToDeviceMessageView) -> Seq<FieldView> {
        Seq::empty() + bytes_field(1, m.message) + int_field(2, i32_wire(m.sequence_number))
    }
}

impl Message for DeviceToDeviceMessage {
    fn empty() -> Self {
        DeviceToDeviceMessage { message: None, sequence_number: None }
    }

    fn merge_field(&mut self, field: &Field) -> std::result::Result<(), Malformed> {
        if field.tag == 1 {
            self.message = Some(slice_to_vec(field.value.as_bytes()?));
        } else if field.tag == 2 {
            self.sequence_number = Some(field.value.as_i32()?);
        }
        Ok(())
    }

    fn to_fields(&self) -> Fields {
        broadcast use group_wire;

        let mut fields = Fields::new();
        let ghost before = fields@;
        fields.put_data(1, &self.message);
        proof {
            lemma_absorb_bytes::<Self>(Self::blank(), before, 1, self@.message);
        }
        let ghost before = fields@;
        fields.put_i32(2, self.sequence_number);
        proof {
            lemma_absorb_int::<Self>(Self::blank(), before, 2, i32_wire(self.sequence_number));
        }
        fields
    }
}

pub const D2D_SALT: [u8; 32] = [
    0x82, 0xAA, 0x55, 0xA0, 0xD3, 0x97, 0xF8, 0x83, 0x46, 0xCA, 0x1C, 0xEE, 0x8D, 0x39, 0x09, 0xB9,
    0x5F, 0x13, 0xFA, 0x7D, 0xEB, 0x1D, 0x4A, 0xB3, 0x83, 0x76, 0xB8, 0x25, 0x6D, 0xA8, 0x55, 0x10,
];

pub const SIG_SCHEME: i32 = 1;
pub const ENC_SCHEME: i32 = 2;
pub const D2D_TYPE: i32 = 13;
pub const D2D_VERSION: i32 = 1;

/// The keys of one direction.
#[derive(Debug, Clone)]
pub struct Direction {
    pub enc: [u8; 32],
    pub sig: [u8; 32],
}

pub ghost struct DirectionView {
    pub enc: Seq<u8>,
    pub sig: Seq<u8>,
}

impl View for Direction {
    type V = DirectionView;

    open spec fn view(&self) -> DirectionView {
        DirectionView { enc: self.enc@, sig: self.sig@ }
    }
}

/// The key that a master secret gives the messages of one role.
pub open spec fn role_key(next_secret: Seq<u8>, role: Seq<char>) -> Seq<u8> {
    hkdf_of(D2D_SALT@, next_secret, encode_utf8(role))
}

/// The keys of the direction whose master key is `master`.
pub open spec fn direction_of(master: Seq<u8>) -> DirectionView {
    let salt = sha256_of(encode_utf8("SecureMessage"@));
    DirectionView {
        enc: hkdf_of(salt, master, encode_utf8("ENC:2"@)),
        sig: hkdf_of(salt, master, encode_utf8("SIG:1"@)),
    }
}

/// The keys under which the client seals.
pub open spec fn client_direction(next_secret: Seq<u8>) -> DirectionView {
    direction_of(role_key(next_secret, "client"@))
}

/// The keys under which the server seals.
pub open spec fn server_direction(next_secret: Seq<u8>) -> DirectionView {
    direction_of(role_key(next_secret, "server"@))
}

/// The metadata that goes with every message.
pub open spec fn channel_metadata() -> GcmMetadataView {
    GcmMetadataView { metadata_type: Some(D2D_TYPE), version: Some(D2D_VERSION) }
}

/// The header of a message sealed with `iv`.
pub open spec fn header_of(iv: Seq<u8>, metadata: Seq<u8>) -> HeaderView {
    HeaderView {
        signature_scheme: Some(SIG_SCHEME),
        encryption_scheme: Some(ENC_SCHEME),
        iv: Some(iv),
        public_metadata: Some(metadata),
    }
}

/// The header and the sealed body that carry `plaintext` as number `number`.
pub open spec fn sealed_body(
    keys: DirectionView,
    number: i32,
    metadata: Seq<u8>,
    iv: Seq<u8>,
    plaintext: Seq<u8>,
) -> Seq<u8> {
    let body = message_bytes::<DeviceToDeviceMessage>(
        DeviceToDeviceMessageView { message: Some(plaintext), sequence_number: Some(number) },
    );
    message_bytes::<HeaderAndBody>(
        HeaderAndBodyView {
            header: Some(message_bytes::<Header>(header_of(iv, metadata))),
            body: Some(cbc_sealed(keys.enc, iv, body)),
        },
    )
}

/// The bytes that carry `plaintext` as number `number`.
pub open spec fn sealed(
    keys: DirectionView,
    number: i32,
    metadata: Seq<u8>,
    iv: Seq<u8>,
    plaintext: Seq<u8>,
) -> Seq<u8> {
    let signed = sealed_body(keys, number, metadata, iv, plaintext);
    message_bytes::<SecureMessage>(
        SecureMessageView { header_and_body: Some(signed), signature: Some(hmac_of(keys.sig, signed)) },
    )
}

pub open spec fn crypto_error(message: Seq<char>) -> ErrorView {
    ErrorView::Crypto(message)
}

pub open spec fn or_empty(bytes: Option<Seq<u8>>) -> Seq<u8> {
    match bytes {
        Some(bytes) => bytes,
        None => Seq::empty(),
    }
}

/// The initialisation vector and the sealed body in a signed header and body.
pub open spec fn sealed_parts(signed: Seq<u8>) -> std::result::Result<
    (Seq<u8>, Seq<u8>),
    ErrorView,
> {
    match merged_with::<HeaderAndBody>(HeaderAndBody::blank(), signed) {
        None => Err(crypto_error("malformed message"@)),
        Some(wrapped) => match merged_with::<Header>(Header::blank(), or_empty(wrapped.header)) {
            None => Err(crypto_error("malformed message"@)),
            Some(header) => if header.signature_scheme != Some(SIG_SCHEME)
                || header.encryption_scheme != Some(ENC_SCHEME) {
                Err(crypto_error("unexpected secure message scheme"@))
            } else {
                match merged_with::<GcmMetadata>(
                    GcmMetadata::blank(),
                    or_empty(header.public_metadata),
                ) {
                    None => Err(crypto_error("malformed message"@)),
                    Some(metadata) => if metadata.metadata_type != Some(D2D_TYPE) {
                        Err(crypto_error("unexpected secure metadata"@))
                    } else if or_empty(header.iv).len() != 16 {
                        Err(crypto_error("bad iv"@))
                    } else {
                        Ok((or_empty(header.iv), or_empty(wrapped.body)))
                    },
                }
            },
        },
    }
}

/// What an opened body is taken as by a receiver that has taken `last` messages,
/// and how many it has taken then.
pub open spec fn numbered(plain: Seq<u8>, last: i32) -> (
    std::result::Result<Seq<u8>, ErrorView>,
    i32,
) {
    match merged_with::<DeviceToDeviceMessage>(DeviceToDeviceMessage::blank(), plain) {
        None => (Err(crypto_error("malformed message"@)), last),
        Some(message) => if last == i32::MAX {
            (Err(crypto_error("sequence overflow"@)), last)
        } else if message.sequence_number != Some((last + 1) as i32) {
            (Err(crypto_error("bad sequence number"@)), (last + 1) as i32)
        } else {
            match message.message {
                Some(plaintext) => (Ok(plaintext), (last + 1) as i32),
                None => (Err(crypto_error("empty device message"@)), (last + 1) as i32),
            }
        },
    }
}

/// The body that the bytes hold, opened.
pub open spec fn opened(keys: DirectionView, bytes: Seq<u8>) -> std::result::Result<
    Seq<u8>,
    ErrorView,
> {
    match merged_with::<SecureMessage>(SecureMessage::blank(), bytes) {
        None => Err(crypto_error("malformed message"@)),
        Some(secure) => match (secure.header_and_body, secure.signature) {
            (None, _) => Err(crypto_error("missing header"@)),
            (_, None) => Err(crypto_error("missing signature"@)),
            (Some(signed), Some(signature)) => if signature != hmac_of(keys.sig, signed) {
                Err(crypto_error("bad signature"@))
            } else {
                match sealed_parts(signed) {
                    Err(error) => Err(error),
                    Ok((iv, body)) => match cbc_opened(keys.enc, iv, body) {
                        None => Err(crypto_error("decrypt"@)),
                        Some(plain) => Ok(plain),
                    },
                }
            },
        },
    }
}

/// What a message is taken as by a receiver that has taken `last` messages, and
/// how many it has taken then.
pub open spec fn received(keys: DirectionView, last: i32, bytes: Seq<u8>) -> (
    std::result::Result<Seq<u8>, ErrorView>,
    i32,
) {
    match opened(keys, bytes) {
        Err(error) => (Err(error), last),
        Ok(plain) => numbered(plain, last),
    }
}

/// The two directions of a connection, each with its keys and its count.
pub struct SecureChannel {
    encode: Direction,
    decode: Direction,
    encode_seq: i32,
    decode_seq: i32,
    metadata: Vec<u8>,
}

pub ghost struct ChannelView {
    pub encode: DirectionView,
    pub decode: DirectionView,
    pub encode_seq: i32,
    pub decode_seq: i32,
    pub metadata: Seq<u8>,
}

impl View for SecureChannel {
    type V = ChannelView;

    closed spec fn view(&self) -> ChannelView {
        ChannelView {
            encode: self.encode@,
            decode: self.decode@,
            encode_seq: self.encode_seq,
            decode_seq: self.decode_seq,
            metadata: self.metadata@,
        }
    }
}

/// A channel before its first message.
pub open spec fn fresh_channel(next_secret: Seq<u8>, client: bool) -> ChannelView {
    let (encode, decode) = if client {
        (client_direction(next_secret), server_direction(next_secret))
    } else {
        (server_direction(next_secret), client_direction(next_secret))
    };
    ChannelView {
        encode,
        decode,
        encode_seq: 0,
        decode_seq: 0,
        metadata: message_bytes::<GcmMetadata>(channel_metadata()),
    }
}

impl SecureChannel {
    /// The metadata is what [`channel_metadata`] is written as.
    pub open spec fn wf(&self) -> bool {
        &&& merged_with::<GcmMetadata>(GcmMetadata::blank(), self@.metadata) == Some(channel_metadata())
        &&& self@.encode_seq >= 0
        &&& self@.decode_seq >= 0
    }

    pub fn from_next_secret(next_secret: &[u8; 32], client: bool) -> (channel: Result<Self>)
        ensures
            channel is Ok,
            channel->Ok_0@ == fresh_channel(next_secret@, client),
            channel->Ok_0.wf(),
    {
        let client_key = purpose_key(next_secret, &D2D_SALT, "client".as_bytes())?;
        let server_key = purpose_key(next_secret, &D2D_SALT, "server".as_bytes())?;
        let (encode_master, decode_master) = if client {
            (client_key, server_key)
        } else {
            (server_key, client_key)
        };
        let secure_salt = sha256("SecureMessage".as_bytes());
        let metadata = GcmMetadata { metadata_type: Some(D2D_TYPE), version: Some(D2D_VERSION) };
        Ok(
            Self {
                encode: Direction {
                    enc: purpose_key(&encode_master, &secure_salt, "ENC:2".as_bytes())?,
                    sig: purpose_key(&encode_master, &secure_salt, "SIG:1".as_bytes())?,
                },
                decode: Direction {
                    enc: purpose_key(&decode_master, &secure_salt, "ENC:2".as_bytes())?,
                    sig: purpose_key(&decode_master, &secure_salt, "SIG:1".as_bytes())?,
                },
                encode_seq: 0,
                decode_seq: 0,
                metadata: metadata.encode_to_vec(),
            },
        )
    }

    /// Seals a message with an initialisation vector drawn at random. A
    /// receiver under the same keys that has taken as many messages as were
    /// sealed before takes it as `plaintext`.
    pub fn encrypt(&mut self, plaintext: &[u8]) -> (out: Result<Vec<u8>>)
        requires
            old(self).wf(),
        ensures
            final(self).wf(),
            old(self)@.encode_seq == i32::MAX ==> {
                &&& out is Err
                &&& out->Err_0@ == crypto_error("sequence overflow"@)
                &&& final(self)@ == old(self)@
            },
            old(self)@.encode_seq < i32::MAX ==> {
                let number = (old(self)@.encode_seq + 1) as i32;
                &&& final(self)@ == ChannelView { encode_seq: number, ..old(self)@ }
                &&& out is Ok
                &&& exists|iv: Seq<u8>|
                    iv.len() == 16 && out->Ok_0@ == #[trigger] sealed(
                        old(self)@.encode,
                        number,
                        old(self)@.metadata,
                        iv,
                        plaintext@,
                    )
                &&& received(old(self)@.encode, old(self)@.encode_seq, out->Ok_0@) == (
                    Ok::<Seq<u8>, ErrorView>(plaintext@),
                    number,
                )
            },
    {
        let drawn = random_bytes(16);
        let iv = array16(drawn.as_slice());
        self.encrypt_with(plaintext, &iv)
    }

    /// Seals a message with the given initialisation vector.
    pub fn encrypt_with(&mut self, plaintext: &[u8], iv: &[u8; 16]) -> (out: Result<Vec<u8>>)
        requires
            old(self).wf(),
        ensures
            final(self).wf(),
            old(self)@.encode_seq == i32::MAX ==> {
                &&& out is Err
                &&& out->Err_0@ == crypto_error("sequence overflow"@)
                &&& final(self)@ == old(self)@
            },
            old(self)@.encode_seq < i32::MAX ==> {
                let number = (old(self)@.encode_seq + 1) as i32;
                &&& final(self)@ == ChannelView { encode_seq: number, ..old(self)@ }
                &&& out is Ok
                &&& out->Ok_0@ == sealed(
                    old(self)@.encode,
                    number,
                    old(self)@.metadata,
                    iv@,
                    plaintext@,
                )
                &&& received(old(self)@.encode, old(self)@.encode_seq, out->Ok_0@) == (
                    Ok::<Seq<u8>, ErrorView>(plaintext@),
                    number,
                )
            },
    {
        if self.encode_seq == i32::MAX {
            return Err(Error::crypto("sequence overflow"));
        }
        self.encode_seq = self.encode_seq + 1;
        let message = DeviceToDeviceMessage {
            message: Some(slice_to_vec(plaintext)),
            sequence_number: Some(self.encode_seq),
        };
        let ciphertext = cbc_encrypt(&self.encode.enc, iv, message.encode_to_vec().as_slice());
        let header = Header {
            signature_scheme: Some(SIG_SCHEME),
            encryption_scheme: Some(ENC_SCHEME),
            iv: Some(slice_to_vec(iv)),
            public_metadata: Some(slice_to_vec(self.metadata.as_slice())),
        };
        let wrapped = HeaderAndBody {
            header: Some(header.encode_to_vec()),
            body: Some(ciphertext),
        };
        let header_and_body = wrapped.encode_to_vec();
        let signature = match hmac_sha256(&self.encode.sig, header_and_body.as_slice()) {
            Some(tag) => slice_to_vec(&tag),
            None => return Err(Error::crypto("hmac")),
        };
        let secure = SecureMessage {
            header_and_body: Some(header_and_body),
            signature: Some(signature),
        };
        Ok(secure.encode_to_vec())
    }

    /// Opens the next message.
    pub fn decrypt(&mut self, bytes: &[u8]) -> (out: Result<Vec<u8>>)
        requires
            old(self).wf(),
        ensures
            final(self).wf(),
            outcome(out) == received(old(self)@.decode, old(self)@.decode_seq, bytes@).0,
            final(self)@ == (ChannelView {
                decode_seq: received(old(self)@.decode, old(self)@.decode_seq, bytes@).1,
                ..old(self)@
            }),
    {
        let plain = open_message(&self.decode, bytes)?;
        let (message, count) = take_numbered(plain.as_slice(), self.decode_seq);
        self.decode_seq = count;
        message
    }
}

/// Takes an opened body, where `last` messages were taken before: gives the
/// message, if it is the next one, and the count after it.
pub fn take_numbered(plain: &[u8], last: i32) -> (taken: (Result<Vec<u8>>, i32))
    ensures
        (outcome(taken.0), taken.1) == numbered(plain@, last),
{
    let message = match DeviceToDeviceMessage::decode(plain) {
        Ok(message) => message,
        Err(_) => return (Err(malformed()), last),
    };
    if last == i32::MAX {
        return (Err(Error::crypto("sequence overflow")), last);
    }
    let count: i32 = last + 1;
    match message.sequence_number {
        Some(number) if number == count => {},
        _ => return (Err(Error::crypto("bad sequence number")), count),
    }
    match message.message {
        Some(plaintext) => (Ok(plaintext), count),
        None => (Err(Error::crypto("empty device message")), count),
    }
}

pub(crate) fn malformed() -> (error: Error)
    ensures
        error@ == crypto_error("malformed message"@),
{
    Error::crypto("malformed message")
}

pub(crate) fn take_or_empty(bytes: Option<Vec<u8>>) -> (taken: Vec<u8>)
    ensures
        taken@ == or_empty(opt_view(bytes)),
{
    match bytes {
        Some(bytes) => bytes,
        None => Vec::new(),
    }
}

/// Reads the initialisation vector and the sealed body from a signed header and
/// body.
pub fn split_sealed(signed: &[u8]) -> (parts: Result<([u8; 16], Vec<u8>)>)
    ensures
        match parts {
            Ok((iv, body)) => sealed_parts(signed@) == Ok::<(Seq<u8>, Seq<u8>), ErrorView>(
                (iv@, body@),
            ),
            Err(error) => sealed_parts(signed@) == Err::<(Seq<u8>, Seq<u8>), ErrorView>(error@),
        },
{
    let wrapped = match HeaderAndBody::decode(signed) {
        Ok(wrapped) => wrapped,
        Err(_) => return Err(malformed()),
    };
    let header = match Header::decode(take_or_empty(wrapped.header).as_slice()) {
        Ok(header) => header,
        Err(_) => return Err(malformed()),
    };
    match (header.signature_scheme, header.encryption_scheme) {
        (Some(signature_scheme), Some(encryption_scheme)) if signature_scheme == SIG_SCHEME
            && encryption_scheme == ENC_SCHEME => {},
        _ => return Err(Error::crypto("unexpected secure message scheme")),
    }
    let metadata = match GcmMetadata::decode(take_or_empty(header.public_metadata).as_slice()) {
        Ok(metadata) => metadata,
        Err(_) => return Err(malformed()),
    };
    match metadata.metadata_type {
        Some(kind) if kind == D2D_TYPE => {},
        _ => return Err(Error::crypto("unexpected secure metadata")),
    }
    let given = take_or_empty(header.iv);
    if given.len() != 16 {
        return Err(Error::crypto("bad iv"));
    }
    Ok((array16(given.as_slice()), take_or_empty(wrapped.body)))
}

fn open_message(keys: &Direction, bytes: &[u8]) -> (plain: Result<Vec<u8>>)
    ensures
        outcome(plain) == opened(keys@, bytes@),
{
    let secure = match SecureMessage::decode(bytes) {
        Ok(secure) => secure,
        Err(_) => return Err(malformed()),
    };
    let header_and_body = match secure.header_and_body {
        Some(signed) => signed,
        None => return Err(Error::crypto("missing header")),
    };
    let signature = match secure.signature {
        Some(signature) => signature,
        None => return Err(Error::crypto("missing signature")),
    };
    if !hmac_sha256_matches(&keys.sig, header_and_body.as_slice(), signature.as_slice()) {
        return Err(Error::crypto("bad signature"));
    }
    let (iv, body) = split_sealed(header_and_body.as_slice())?;
    match cbc_decrypt(&keys.enc, &iv, body.as_slice()) {
        Some(plain) => Ok(plain),
        None => Err(Error::crypto("decrypt")),
    }
}

fn purpose_key(ikm: &[u8], salt: &[u8], info: &[u8]) -> (key: Result<[u8; 32]>)
    ensures
        key is Ok,
        key->Ok_0@ == hkdf_of(salt@, ikm@, info@),
{
    match hkdf_sha256(salt, ikm, info) {
        Some(key) => Ok(key),
        None => Err(Error::crypto("hkdf")),
    }
}

/// The two ends of a connection seal and open under the same keys.
pub proof fn channels_are_paired(next_secret: Seq<u8>)
    ensures
        fresh_channel(next_secret, true).encode == fresh_channel(next_secret, false).decode,
        fresh_channel(next_secret, false).encode == fresh_channel(next_secret, true).decode,
        fresh_channel(next_secret, true).encode_seq == fresh_channel(next_secret, false).decode_seq,
        fresh_channel(next_secret, false).encode_seq == fresh_channel(next_secret, true).decode_seq,
{
}

/// A message that was taken once is refused afterwards, however many messages
/// came in between.
pub proof fn replay_is_refused(keys: DirectionView, first: i32, later: i32, bytes: Seq<u8>)
    requires
        received(keys, first, bytes).0 is Ok,
        later != first,
    ensures
        received(keys, later, bytes).0 is Err,
{
}

/// A message whose signature is not that of its signed part is refused and
/// leaves the count as it was.
pub proof fn wrong_signature_is_refused(
    keys: DirectionView,
    last: i32,
    bytes: Seq<u8>,
    signed: Seq<u8>,
    signature: Seq<u8>,
)
    requires
        merged_with::<SecureMessage>(SecureMessage::blank(), bytes) == Some(
            SecureMessageView { header_and_body: Some(signed), signature: Some(signature) },
        ),
        signature != hmac_of(keys.sig, signed),
    ensures
        received(keys, last, bytes) == (
            Err::<Seq<u8>, ErrorView>(crypto_error("bad signature"@)),
            last,
        ),
{
}

} // verus!
