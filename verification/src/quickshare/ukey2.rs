//! The handshake that agrees on a secret: P-256 key agreement, with a SHA-512
//! commitment to the client's key.

use crate::bytes::same_bytes;
use crate::crypto::{
    hkdf_of, hkdf_sha256, p256_agree, p256_public, p256_public_point, p256_random, p256_shared,
    random_bytes, sha512, sha512_of,
};
use crate::error::{outcome, Error, ErrorView, Result};
use crate::quickshare::proto::{
    absorb, all_writable, bytes_field, encode_nested, group_wire, i32_wire, int_field,
    lemma_absorb_bytes, lemma_absorb_int, merge_nested, merged_with, message_bytes, message_fields,
    nested_bytes, read_bytes, read_i32, read_nested, read_text, text_bytes, Field, FieldView,
    Fields, Malformed, Message, Schema,
};
use crate::quickshare::secure::{
    crypto_error, fresh_channel, malformed, or_empty, take_or_empty, SecureChannel,
};
use crate::text::{digit, digit_char, opt_view, same_text, seq_view, string_of};
use vstd::arithmetic::div_mod::{lemma_add_mod_noop, lemma_mul_mod_noop_left, lemma_mul_mod_noop_right};
use vstd::arithmetic::power::{lemma_pow0, lemma_pow1, lemma_pow_adds, lemma_pow_positive, pow};
use vstd::prelude::*;
use vstd::slice::slice_to_vec;
use vstd::utf8::*;

verus! {

pub const CLIENT_INIT: i32 = 2;
pub const SERVER_INIT: i32 = 3;
pub const CLIENT_FINISH: i32 = 4;
pub const P256_SHA512: i32 = 100;
pub const EC_P256: i32 = 1;
pub const VERSION: i32 = 1;
pub const NEXT_PROTOCOL: &'static str = "AES_256_CBC-HMAC_SHA256";

/// A handshake message with its type.
#[derive(Debug, Clone, PartialEq)]
pub struct Ukey2Message {
    pub message_type: Option<i32>,
    pub message_data: Option<Vec<u8>>,
}

pub ghost struct Ukey2MessageView {
    pub message_type: Option<i32>,
    pub message_data: Option<Seq<u8>>,
}

impl View for Ukey2Message {
    type V = Ukey2MessageView;

    open spec fn view(&self) -> Ukey2MessageView {
        Ukey2MessageView {
            message_type: self.message_type,
            message_data: opt_view(self.message_data),
        }
    }
}

impl Schema for Ukey2Message {
    open spec fn blank() -> Ukey2MessageView {
        Ukey2MessageView { message_type: None, message_data: None }
    }

    open spec fn step(m: Ukey2MessageView, field: FieldView) -> Option<Ukey2MessageView> {
        if field.tag == 1 {
            match read_i32(field.value) {
                Some(value) => Some(Ukey2MessageView { message_type: Some(value), ..m }),
                None => None,
            }
        } else if field.tag == 2 {
            match read_bytes(field.value) {
                Some(value) => Some(Ukey2MessageView { message_data: Some(value), ..m }),
                None => None,
            }
        } else {
            Some(m)
        }
    }

    open spec fn listed(m: Ukey2MessageView) -> Seq<FieldView> {
        Seq::empty() + int_field(1, i32_wire(m.message_type)) + bytes_field(2, m.message_data)
    }
}

impl Message for Ukey2Message {
    fn empty() -> Self {
        Ukey2Message { message_type: None, message_data: None }
    }

    fn merge_field(&mut self, field: &Field) -> std::result::Result<(), Malformed> {
        if field.tag == 1 {
            self.message_type = Some(field.value.as_i32()?);
        } else if field.tag == 2 {
            self.message_data = Some(slice_to_vec(field.value.as_bytes()?));
        }
        Ok(())
    }

    fn to_fields(&self) -> Fields {
        broadcast use group_wire;

        let mut fields = Fields::new();
        let ghost before = fields@;
        fields.put_i32(1, self.message_type);
        proof {
            lemma_absorb_int::<Self>(Self::blank(), before, 1, i32_wire(self.message_type));
        }
        let ghost before = fields@;
        fields.put_data(2, &self.message_data);
        proof {
            lemma_absorb_bytes::<Self>(Self::blank(), before, 2, self@.message_data);
        }
        fields
    }
}

/// The digest of the last message of a client, for one cipher.
#[derive(Debug, Clone, PartialEq)]
pub struct CipherCommitment {
    pub handshake_cipher: Option<i32>,
    pub commitment: Option<Vec<u8>>,
}

pub ghost struct CipherCommitmentView {
    pub handshake_cipher: Option<i32>,
    pub commitment: Option<Seq<u8>>,
}

impl View for CipherCommitment {
    type V = CipherCommitmentView;

    open spec fn view(&self) -> CipherCommitmentView {
        CipherCommitmentView {
            handshake_cipher: self.handshake_cipher,
            commitment: opt_view(self.commitment),
        }
    }
}

impl Schema for CipherCommitment {
    open spec fn blank() -> CipherCommitmentView {
        CipherCommitmentView { handshake_cipher: None, commitment: None }
    }

    open spec fn step(m: CipherCommitmentView, field: FieldView) -> Option<CipherCommitmentView> {
        if field.tag == 1 {
            match read_i32(field.value) {
                Some(value) => Some(CipherCommitmentView { handshake_cipher: Some(value), ..m }),
                None => None,
            }
        } else if field.tag == 2 {
            match read_bytes(field.value) {
                Some(value) => Some(CipherCommitmentView { commitment: Some(value), ..m }),
                None => None,
            }
        } else {
            Some(m)
        }
    }

    open spec fn listed(m: CipherCommitmentView) -> Seq<FieldView> {
        Seq::empty() + int_field(1, i32_wire(m.handshake_cipher)) + bytes_field(2, m.commitment)
    }
}

impl Message for CipherCommitment {
    fn empty() -> Self {
        CipherCommitment { handshake_cipher: None, commitment: None }
    }

    fn merge_field(&mut self, field: &Field) -> std::result::Result<(), Malformed> {
        if field.tag == 1 {
            self.handshake_cipher = Some(field.value.as_i32()?);
        } else if field.tag == 2 {
            self.commitment = Some(slice_to_vec(field.value.as_bytes()?));
        }
        Ok(())
    }

    fn to_fields(&self) -> Fields {
        broadcast use group_wire;

        let mut fields = Fields::new();
        let ghost before = fields@;
        fields.put_i32(1, self.handshake_cipher);
        proof {
            lemma_absorb_int::<Self>(Self::blank(), before, 1, i32_wire(self.handshake_cipher));
        }
        let ghost before = fields@;
        fields.put_data(2, &self.commitment);
        proof {
            lemma_absorb_bytes::<Self>(Self::blank(), before, 2, self@.commitment);
        }
        fields
    }
}

/// The first message of a client.
#[derive(Debug, Clone, PartialEq)]
pub struct ClientInit {
    pub version: Option<i32>,
    pub random: Option<Vec<u8>>,
    pub cipher_commitments: Vec<CipherCommitment>,
    pub next_protocol: Option<String>,
}

pub ghost struct ClientInitView {
    pub version: Option<i32>,
    pub random: Option<Seq<u8>>,
    pub cipher_commitments: Seq<CipherCommitmentView>,
    pub next_protocol: Option<Seq<char>>,
}

impl View for ClientInit {
    type V = ClientInitView;

    open spec fn view(&self) -> ClientInitView {
        ClientInitView {
            version: self.version,
            random: opt_view(self.random),
            cipher_commitments: seq_view(self.cipher_commitments@),
            next_protocol: opt_view(self.next_protocol),
        }
    }
}

impl Schema for ClientInit {
    open spec fn blank() -> ClientInitView {
        ClientInitView { version: None, random: None, cipher_commitments: Seq::empty(), next_protocol: None }
    }

    open spec fn step(m: ClientInitView, field: FieldView) -> Option<ClientInitView> {
        if field.tag == 1 {
            match read_i32(field.value) {
                Some(value) => Some(ClientInitView { version: Some(value), ..m }),
                None => None,
            }
        } else if field.tag == 2 {
            match read_bytes(field.value) {
                Some(value) => Some(ClientInitView { random: Some(value), ..m }),
                None => None,
            }
        } else if field.tag == 3 {
            match read_nested::<CipherCommitment>(None, field.value) {
                Some(item) => Some(ClientInitView { cipher_commitments: m.cipher_commitments.push(item), ..m }),
                None => None,
            }
        } else if field.tag == 4 {
            match read_text(field.value) {
                Some(value) => Some(ClientInitView { next_protocol: Some(value), ..m }),
                None => None,
            }
        } else {
            Some(m)
        }
    }

    open spec fn listed(m: ClientInitView) -> Seq<FieldView> {
        Seq::empty() + int_field(1, i32_wire(m.version)) + bytes_field(2, m.random) + message_fields::<CipherCommitment>(3, m.cipher_commitments) + bytes_field(4, text_bytes(m.next_protocol))
    }
}

impl Message for ClientInit {
    fn empty() -> Self {
        let message = ClientInit { version: None, random: None, cipher_commitments: Vec::new(), next_protocol: None };
        assert(message@.cipher_commitments =~= Seq::empty());
        message
    }

    fn merge_field(&mut self, field: &Field) -> std::result::Result<(), Malformed> {
        if field.tag == 1 {
            self.version = Some(field.value.as_i32()?);
        } else if field.tag == 2 {
            self.random = Some(slice_to_vec(field.value.as_bytes()?));
        } else if field.tag == 3 {
            let mut item: Option<CipherCommitment> = None;
            merge_nested(&mut item, &field.value)?;
            if let Some(item) = item {
                self.cipher_commitments.push(item);
            }
            assert(self@.cipher_commitments =~= Self::step(old(self)@, field@)->0.cipher_commitments);
        } else if field.tag == 4 {
            self.next_protocol = Some(field.value.as_text()?);
        }
        Ok(())
    }

    fn to_fields(&self) -> Fields {
        broadcast use group_wire;

        let mut fields = Fields::new();
        let ghost before = fields@;
        fields.put_i32(1, self.version);
        proof {
            lemma_absorb_int::<Self>(Self::blank(), before, 1, i32_wire(self.version));
        }
        let ghost before = fields@;
        fields.put_data(2, &self.random);
        proof {
            lemma_absorb_bytes::<Self>(Self::blank(), before, 2, self@.random);
        }
        let ghost before = fields@;
        assert(self@.cipher_commitments.take(0) =~= Seq::empty());
        assert(before + message_fields::<CipherCommitment>(3, self@.cipher_commitments.take(0)) =~= before);
        for i in 0..self.cipher_commitments.len()
            invariant
                fields@ == before + message_fields::<CipherCommitment>(3, self@.cipher_commitments.take(i as int)),
                all_writable(fields@),
                self@.cipher_commitments.len() == self.cipher_commitments@.len(),
                absorb::<Self>(Self::blank(), fields@) == Some(
                    ClientInitView { version: self@.version, random: self@.random, cipher_commitments: self@.cipher_commitments.take(i as int), ..Self::blank() },
                ),
        {
            let ghost held = fields@;
            let item = self.cipher_commitments[i].encode_to_vec();
            fields.put_bytes(3, Some(item));
            proof {
                lemma_absorb_bytes::<Self>(Self::blank(), held, 3, Some(item@));
                assert(self@.cipher_commitments.take(i as int).push(self@.cipher_commitments[i as int]) =~= self@.cipher_commitments.take(i + 1));
                assert(before + message_fields::<CipherCommitment>(3, self@.cipher_commitments.take(i + 1)) =~= fields@);
            }
        }
        assert(self@.cipher_commitments.take(self@.cipher_commitments.len() as int) =~= self@.cipher_commitments);
        let ghost before = fields@;
        fields.put_text(4, &self.next_protocol);
        proof {
            lemma_absorb_bytes::<Self>(Self::blank(), before, 4, text_bytes(self@.next_protocol));
        }
        fields
    }
}

/// The answer of a server.
#[derive(Debug, Clone, PartialEq)]
pub struct ServerInit {
    pub version: Option<i32>,
    pub random: Option<Vec<u8>>,
    pub handshake_cipher: Option<i32>,
    pub public_key: Option<Vec<u8>>,
}

pub ghost struct ServerInitView {
    pub version: Option<i32>,
    pub random: Option<Seq<u8>>,
    pub handshake_cipher: Option<i32>,
    pub public_key: Option<Seq<u8>>,
}

impl View for ServerInit {
    type V = ServerInitView;

    open spec fn view(&self) -> ServerInitView {
        ServerInitView {
            version: self.version,
            random: opt_view(self.random),
            handshake_cipher: self.handshake_cipher,
            public_key: opt_view(self.public_key),
        }
    }
}

impl Schema for ServerInit {
    open spec fn blank() -> ServerInitView {
        ServerInitView { version: None, random: None, handshake_cipher: None, public_key: None }
    }

    open spec fn step(m: ServerInitView, field: FieldView) -> Option<ServerInitView> {
        if field.tag == 1 {
            match read_i32(field.value) {
                Some(value) => Some(ServerInitView { version: Some(value), ..m }),
                None => None,
            }
        } else if field.tag == 2 {
            match read_bytes(field.value) {
                Some(value) => Some(ServerInitView { random: Some(value), ..m }),
                None => None,
            }
        } else if field.tag == 3 {
            match read_i32(field.value) {
                Some(value) => Some(ServerInitView { handshake_cipher: Some(value), ..m }),
                None => None,
            }
        } else if field.tag == 4 {
            match read_bytes(field.value) {
                Some(value) => Some(ServerInitView { public_key: Some(value), ..m }),
                None => None,
            }
        } else {
            Some(m)
        }
    }

    open spec fn listed(m: ServerInitView) -> Seq<FieldView> {
        Seq::empty() + int_field(1, i32_wire(m.version)) + bytes_field(2, m.random) + int_field(3, i32_wire(m.handshake_cipher)) + bytes_field(4, m.public_key)
    }
}

impl Message for ServerInit {
    fn empty() -> Self {
        ServerInit { version: None, random: None, handshake_cipher: None, public_key: None }
    }

    fn merge_field(&mut self, field: &Field) -> std::result::Result<(), Malformed> {
        if field.tag == 1 {
            self.version = Some(field.value.as_i32()?);
        } else if field.tag == 2 {
            self.random = Some(slice_to_vec(field.value.as_bytes()?));
        } else if field.tag == 3 {
            self.handshake_cipher = Some(field.value.as_i32()?);
        } else if field.tag == 4 {
            self.public_key = Some(slice_to_vec(field.value.as_bytes()?));
        }
        Ok(())
    }

    fn to_fields(&self) -> Fields {
        broadcast use group_wire;

        let mut fields = Fields::new();
        let ghost before = fields@;
        fields.put_i32(1, self.version);
        proof {
            lemma_absorb_int::<Self>(Self::blank(), before, 1, i32_wire(self.version));
        }
        let ghost before = fields@;
        fields.put_data(2, &self.random);
        proof {
            lemma_absorb_bytes::<Self>(Self::blank(), before, 2, self@.random);
        }
        let ghost before = fields@;
        fields.put_i32(3, self.handshake_cipher);
        proof {
            lemma_absorb_int::<Self>(Self::blank(), before, 3, i32_wire(self.handshake_cipher));
        }
        let ghost before = fields@;
        fields.put_data(4, &self.public_key);
        proof {
            lemma_absorb_bytes::<Self>(Self::blank(), before, 4, self@.public_key);
        }
        fields
    }
}

/// The last message of a client.
#[derive(Debug, Clone, PartialEq)]
pub struct ClientFinished {
    pub public_key: Option<Vec<u8>>,
}

pub ghost struct ClientFinishedView {
    pub public_key: Option<Seq<u8>>,
}

impl View for ClientFinished {
    type V = ClientFinishedView;

    open spec fn view(&self) -> ClientFinishedView {
        ClientFinishedView {
            public_key: opt_view(self.public_key),
        }
    }
}

impl Schema for ClientFinished {
    open spec fn blank() -> ClientFinishedView {
        ClientFinishedView { public_key: None }
    }

    open spec fn step(m: ClientFinishedView, field: FieldView) -> Option<ClientFinishedView> {
        if field.tag == 1 {
            match read_bytes(field.value) {
                Some(value) => Some(ClientFinishedView { public_key: Some(value), ..m }),
                None => None,
            }
        } else {
            Some(m)
        }
    }

    open spec fn listed(m: ClientFinishedView) -> Seq<FieldView> {
        Seq::empty() + bytes_field(1, m.public_key)
    }
}

impl Message for ClientFinished {
    fn empty() -> Self {
        ClientFinished { public_key: None }
    }

    fn merge_field(&mut self, field: &Field) -> std::result::Result<(), Malformed> {
        if field.tag == 1 {
            self.public_key = Some(slice_to_vec(field.value.as_bytes()?));
        }
        Ok(())
    }

    fn to_fields(&self) -> Fields {
        broadcast use group_wire;

        let mut fields = Fields::new();
        let ghost before = fields@;
        fields.put_data(1, &self.public_key);
        proof {
            lemma_absorb_bytes::<Self>(Self::blank(), before, 1, self@.public_key);
        }
        fields
    }
}

/// A point of the curve.
#[derive(Debug, Clone, PartialEq)]
pub struct EcPoint {
    pub x: Option<Vec<u8>>,
    pub y: Option<Vec<u8>>,
}

pub ghost struct EcPointView {
    pub x: Option<Seq<u8>>,
    pub y: Option<Seq<u8>>,
}

impl View for EcPoint {
    type V = EcPointView;

    open spec fn view(&self) -> EcPointView {
        EcPointView {
            x: opt_view(self.x),
            y: opt_view(self.y),
        }
    }
}

impl Schema for EcPoint {
    open spec fn blank() -> EcPointView {
        EcPointView { x: None, y: None }
    }

    open spec fn step(m: EcPointView, field: FieldView) -> Option<EcPointView> {
        if field.tag == 1 {
            match read_bytes(field.value) {
                Some(value) => Some(EcPointView { x: Some(value), ..m }),
                None => None,
            }
        } else if field.tag == 2 {
            match read_bytes(field.value) {
                Some(value) => Some(EcPointView { y: Some(value), ..m }),
                None => None,
            }
        } else {
            Some(m)
        }
    }

    open spec fn listed(m: EcPointView) -> Seq<FieldView> {
        Seq::empty() + bytes_field(1, m.x) + bytes_field(2, m.y)
    }
}

impl Message for EcPoint {
    fn empty() -> Self {
        EcPoint { x: None, y: None }
    }

    fn merge_field(&mut self, field: &Field) -> std::result::Result<(), Malformed> {
        if field.tag == 1 {
            self.x = Some(slice_to_vec(field.value.as_bytes()?));
        } else if field.tag == 2 {
            self.y = Some(slice_to_vec(field.value.as_bytes()?));
        }
        Ok(())
    }

    fn to_fields(&self) -> Fields {
        broadcast use group_wire;

        let mut fields = Fields::new();
        let ghost before = fields@;
        fields.put_data(1, &self.x);
        proof {
            lemma_absorb_bytes::<Self>(Self::blank(), before, 1, self@.x);
        }
        let ghost before = fields@;
        fields.put_data(2, &self.y);
        proof {
            lemma_absorb_bytes::<Self>(Self::blank(), before, 2, self@.y);
        }
        fields
    }
}

/// A public key with its type.
#[derive(Debug, Clone, PartialEq)]
pub struct GenericPublicKey {
    pub key_type: Option<i32>,
    pub ec_p256_public_key: Option<EcPoint>,
}

pub ghost struct GenericPublicKeyView {
    pub key_type: Option<i32>,
    pub ec_p256_public_key: Option<EcPointView>,
}

impl View for GenericPublicKey {
    type V = GenericPublicKeyView;

    open spec fn view(&self) -> GenericPublicKeyView {
        GenericPublicKeyView {
            key_type: self.key_type,
            ec_p256_public_key: opt_view(self.ec_p256_public_key),
        }
    }
}

impl Schema for GenericPublicKey {
    open spec fn blank() -> GenericPublicKeyView {
        GenericPublicKeyView { key_type: None, ec_p256_public_key: None }
    }

    open spec fn step(m: GenericPublicKeyView, field: FieldView) -> Option<GenericPublicKeyView> {
        if field.tag == 1 {
            match read_i32(field.value) {
                Some(value) => Some(GenericPublicKeyView { key_type: Some(value), ..m }),
                None => None,
            }
        } else if field.tag == 2 {
            match read_nested::<EcPoint>(m.ec_p256_public_key, field.value) {
                Some(value) => Some(GenericPublicKeyView { ec_p256_public_key: Some(value), ..m }),
                None => None,
            }
        } else {
            Some(m)
        }
    }

    open spec fn listed(m: GenericPublicKeyView) -> Seq<FieldView> {
        Seq::empty() + int_field(1, i32_wire(m.key_type)) + bytes_field(2, nested_bytes::<EcPoint>(m.ec_p256_public_key))
    }
}

impl Message for GenericPublicKey {
    fn empty() -> Self {
        GenericPublicKey { key_type: None, ec_p256_public_key: None }
    }

    fn merge_field(&mut self, field: &Field) -> std::result::Result<(), Malformed> {
        if field.tag == 1 {
            self.key_type = Some(field.value.as_i32()?);
        } else if field.tag == 2 {
            merge_nested(&mut self.ec_p256_public_key, &field.value)?;
        }
        Ok(())
    }

    fn to_fields(&self) -> Fields {
        broadcast use group_wire;

        let mut fields = Fields::new();
        let ghost before = fields@;
        fields.put_i32(1, self.key_type);
        proof {
            lemma_absorb_int::<Self>(Self::blank(), before, 1, i32_wire(self.key_type));
        }
        let ghost before = fields@;
        fields.put_bytes(2, encode_nested(&self.ec_p256_public_key));
        proof {
            lemma_absorb_bytes::<Self>(Self::blank(), before, 2, nested_bytes::<EcPoint>(self@.ec_p256_public_key));
        }
        fields
    }
}

/// A number without its leading zero bytes; the last byte stays.
pub open spec fn stripped(number: Seq<u8>) -> Seq<u8>
    decreases number.len(),
{
    if number.len() > 1 && number[0] == 0 {
        stripped(number.skip(1))
    } else {
        number
    }
}

/// The shortest big-endian form of a non-negative number whose first bit is a
/// sign bit.
pub open spec fn signed_form(number: Seq<u8>) -> Seq<u8> {
    let digits = stripped(number);
    if digits[0] >= 0x80 {
        seq![0u8] + digits
    } else {
        digits
    }
}

pub open spec fn zeros(len: nat) -> Seq<u8> {
    Seq::new(len, |i: int| 0u8)
}

/// The 32 bytes of the non-negative number whose signed form is given.
pub open spec fn unsigned_form(bytes: Seq<u8>) -> Option<Seq<u8>> {
    if bytes.len() == 0 || bytes.len() > 33 || bytes[0] >= 0x80 {
        None
    } else if bytes.len() == 33 {
        if bytes[0] == 0 {
            Some(bytes.skip(1))
        } else {
            None
        }
    } else {
        Some(zeros((32 - bytes.len()) as nat) + bytes)
    }
}

proof fn lemma_stripped(number: Seq<u8>)
    requires
        number.len() > 0,
    ensures
        1 <= stripped(number).len() <= number.len(),
        number == zeros((number.len() - stripped(number).len()) as nat) + stripped(number),
    decreases number.len(),
{
    if number.len() > 1 && number[0] == 0 {
        lemma_stripped(number.skip(1));
        let rest = number.skip(1);
        assert(number =~= seq![0u8] + rest);
        assert(seq![0u8] + zeros((rest.len() - stripped(rest).len()) as nat) =~= zeros(
            (number.len() - stripped(number).len()) as nat,
        ));
        assert(number =~= zeros((number.len() - stripped(number).len()) as nat) + stripped(number));
    } else {
        assert(number =~= zeros(0) + number);
    }
}

/// A coordinate is read back from its signed form.
pub proof fn coordinate_roundtrip(coordinate: Seq<u8>)
    requires
        coordinate.len() == 32,
    ensures
        unsigned_form(signed_form(coordinate)) == Some(coordinate),
{
    lemma_stripped(coordinate);
    let digits = stripped(coordinate);
    if digits[0] >= 0x80 {
        let form = signed_form(coordinate);
        if form.len() == 33 {
            assert(form.skip(1) =~= coordinate);
        } else {
            assert(zeros((32 - form.len()) as nat) + form =~= coordinate);
        }
    }
}

proof fn lemma_stripped_start(number: Seq<u8>)
    requires
        number.len() > 0,
    ensures
        stripped(number).len() > 1 ==> stripped(number)[0] != 0,
    decreases number.len(),
{
    if number.len() > 1 && number[0] == 0 {
        lemma_stripped_start(number.skip(1));
    }
}

/// The signed form of a coordinate takes 1 to 33 bytes, does not read as negative,
/// and is the shortest of the forms that are read as the coordinate.
pub proof fn coordinate_form_is_shortest(coordinate: Seq<u8>)
    requires
        coordinate.len() == 32,
    ensures
        1 <= signed_form(coordinate).len() <= 33,
        signed_form(coordinate)[0] < 0x80,
        forall|bytes: Seq<u8>| #[trigger]
            unsigned_form(bytes) == Some(coordinate) ==> signed_form(coordinate).len()
                <= bytes.len(),
{
    lemma_stripped(coordinate);
    lemma_stripped_start(coordinate);
    let digits = stripped(coordinate);
    let at = 32 - digits.len();
    assert(coordinate[at] == digits[0]);
    assert forall|bytes: Seq<u8>| #[trigger]
        unsigned_form(bytes) == Some(coordinate) implies signed_form(coordinate).len()
        <= bytes.len() by {
        if bytes.len() < 33 {
            let zeroes = 32 - bytes.len();
            assert(coordinate == zeros(zeroes as nat) + bytes);
            assert(coordinate[zeroes] == bytes[0]);
            if bytes.len() < digits.len() {
                assert(coordinate[at] == 0);
            }
        }
    }
}

/// Exactly these are no signed form of a coordinate: nothing, more than 33 bytes,
/// a negative number, and 33 bytes that do not begin with a zero.
pub proof fn refused_coordinates(bytes: Seq<u8>)
    ensures
        unsigned_form(bytes) is None <==> (bytes.len() == 0 || bytes.len() > 33 || bytes[0] >= 0x80
            || (bytes.len() == 33 && bytes[0] != 0)),
        unsigned_form(bytes) matches Some(coordinate) ==> coordinate.len() == 32,
{
}

/// The key message of the point with these coordinates.
pub open spec fn key_message(x: Seq<u8>, y: Seq<u8>) -> GenericPublicKeyView {
    GenericPublicKeyView {
        key_type: Some(EC_P256),
        ec_p256_public_key: Some(
            EcPointView { x: Some(signed_form(x)), y: Some(signed_form(y)) },
        ),
    }
}

/// A handshake message of the given type.
pub open spec fn wrapped(message_type: i32, data: Seq<u8>) -> Seq<u8> {
    message_bytes::<Ukey2Message>(
        Ukey2MessageView { message_type: Some(message_type), message_data: Some(data) },
    )
}

/// The last message of a client whose public key is at `(x, y)`.
pub open spec fn client_finish_bytes(x: Seq<u8>, y: Seq<u8>) -> Seq<u8> {
    wrapped(
        CLIENT_FINISH,
        message_bytes::<ClientFinished>(
            ClientFinishedView { public_key: Some(message_bytes::<GenericPublicKey>(key_message(x, y))) },
        ),
    )
}

/// The first message of a client that commits to its last one.
pub open spec fn client_init_bytes(random: Seq<u8>, commitment: Seq<u8>) -> Seq<u8> {
    wrapped(
        CLIENT_INIT,
        message_bytes::<ClientInit>(
            ClientInitView {
                version: Some(VERSION),
                random: Some(random),
                cipher_commitments: seq![
                    CipherCommitmentView {
                        handshake_cipher: Some(P256_SHA512),
                        commitment: Some(commitment),
                    },
                ],
                next_protocol: Some(NEXT_PROTOCOL@),
            },
        ),
    )
}

/// The answer of a server whose public key is at `(x, y)`.
pub open spec fn server_init_bytes(random: Seq<u8>, x: Seq<u8>, y: Seq<u8>) -> Seq<u8> {
    wrapped(
        SERVER_INIT,
        message_bytes::<ServerInit>(
            ServerInitView {
                version: Some(VERSION),
                random: Some(random),
                handshake_cipher: Some(P256_SHA512),
                public_key: Some(message_bytes::<GenericPublicKey>(key_message(x, y))),
            },
        ),
    )
}

/// The data of a handshake message of the expected type.
pub open spec fn read_message(bytes: Seq<u8>, expect: i32) -> std::result::Result<
    Seq<u8>,
    ErrorView,
> {
    match merged_with::<Ukey2Message>(Ukey2Message::blank(), bytes) {
        None => Err(crypto_error("malformed message"@)),
        Some(message) => if message.message_type != Some(expect) {
            Err(crypto_error("unexpected ukey2 message"@))
        } else {
            match message.message_data {
                Some(data) => Ok(data),
                None => Err(crypto_error("empty ukey2 message"@)),
            }
        },
    }
}

/// The coordinates in a key message.
pub open spec fn read_public_key(bytes: Seq<u8>) -> std::result::Result<
    (Seq<u8>, Seq<u8>),
    ErrorView,
> {
    match merged_with::<GenericPublicKey>(GenericPublicKey::blank(), bytes) {
        None => Err(crypto_error("malformed message"@)),
        Some(key) => if key.key_type != Some(EC_P256) {
            Err(crypto_error("public key is not p256"@))
        } else {
            match key.ec_p256_public_key {
                None => Err(crypto_error("missing p256 key"@)),
                Some(point) => match (
                    unsigned_form(or_empty(point.x)),
                    unsigned_form(or_empty(point.y)),
                ) {
                    (Some(x), Some(y)) => Ok((x, y)),
                    _ => Err(crypto_error("bad coordinate"@)),
                },
            }
        },
    }
}

/// The commitment for the cipher of this handshake: that of the first item that
/// names the cipher.
pub open spec fn first_commitment(items: Seq<CipherCommitmentView>) -> Option<Seq<u8>>
    decreases items.len(),
{
    if items.len() == 0 {
        None
    } else if items[0].handshake_cipher == Some(P256_SHA512) {
        items[0].commitment
    } else {
        first_commitment(items.skip(1))
    }
}

/// The commitment in the first message of a client.
pub open spec fn read_client_init(bytes: Seq<u8>) -> std::result::Result<Seq<u8>, ErrorView> {
    match read_message(bytes, CLIENT_INIT) {
        Err(error) => Err(error),
        Ok(data) => match merged_with::<ClientInit>(ClientInit::blank(), data) {
            None => Err(crypto_error("malformed message"@)),
            Some(init) => if init.version != Some(VERSION) {
                Err(crypto_error("unsupported ukey2 version"@))
            } else if init.random is None || init.random->0.len() != 32 {
                Err(crypto_error("client random"@))
            } else if init.next_protocol != Some(NEXT_PROTOCOL@) {
                Err(crypto_error("unsupported next protocol"@))
            } else {
                match first_commitment(init.cipher_commitments) {
                    None => Err(crypto_error("no p256 commitment"@)),
                    Some(commitment) => if commitment.len() != 64 {
                        Err(crypto_error("commitment length"@))
                    } else {
                        Ok(commitment)
                    },
                }
            },
        },
    }
}

/// The coordinates of the key in the answer of a server.
pub open spec fn read_server_init(bytes: Seq<u8>) -> std::result::Result<
    (Seq<u8>, Seq<u8>),
    ErrorView,
> {
    match read_message(bytes, SERVER_INIT) {
        Err(error) => Err(error),
        Ok(data) => match merged_with::<ServerInit>(ServerInit::blank(), data) {
            None => Err(crypto_error("malformed message"@)),
            Some(init) => if init.version != Some(VERSION) || init.handshake_cipher != Some(
                P256_SHA512,
            ) {
                Err(crypto_error("unsupported server init"@))
            } else if or_empty(init.random).len() != 32 {
                Err(crypto_error("server random"@))
            } else {
                read_public_key(or_empty(init.public_key))
            },
        },
    }
}

/// The coordinates of the key in the last message of a client.
pub open spec fn read_client_finish(bytes: Seq<u8>) -> std::result::Result<
    (Seq<u8>, Seq<u8>),
    ErrorView,
> {
    match read_message(bytes, CLIENT_FINISH) {
        Err(error) => Err(error),
        Ok(data) => match merged_with::<ClientFinished>(ClientFinished::blank(), data) {
            None => Err(crypto_error("malformed message"@)),
            Some(finished) => read_public_key(or_empty(finished.public_key)),
        },
    }
}

/// The two secrets of a finished handshake.
pub struct SharedSecrets {
    pub auth_string: [u8; 32],
    pub next_secret: [u8; 32],
}

pub ghost struct SecretsView {
    pub auth_string: Seq<u8>,
    pub next_secret: Seq<u8>,
}

impl View for SharedSecrets {
    type V = SecretsView;

    open spec fn view(&self) -> SecretsView {
        SecretsView { auth_string: self.auth_string@, next_secret: self.next_secret@ }
    }
}

/// What the agreed coordinate and the two first messages give.
pub open spec fn derived(shared: Seq<u8>, client_init: Seq<u8>, server_init: Seq<u8>) -> SecretsView {
    let info = client_init + server_init;
    SecretsView {
        auth_string: hkdf_of(encode_utf8("UKEY2 v1 auth"@), shared, info),
        next_secret: hkdf_of(encode_utf8("UKEY2 v1 next"@), shared, info),
    }
}

/// What a secret and the coordinates that the other side sent give.
pub open spec fn agreed(
    secret: Seq<u8>,
    peer: std::result::Result<(Seq<u8>, Seq<u8>), ErrorView>,
    client_init: Seq<u8>,
    server_init: Seq<u8>,
) -> std::result::Result<SecretsView, ErrorView> {
    match peer {
        Err(error) => Err(error),
        Ok((x, y)) => match p256_shared(secret, x, y) {
            None => Err(crypto_error("public key is not on the curve"@)),
            Some(shared) => Ok(derived(shared, client_init, server_init)),
        },
    }
}

/// The coordinates of the public key of a secret that has one.
pub open spec fn public_point(secret: Seq<u8>) -> (Seq<u8>, Seq<u8>) {
    p256_public(secret)->0
}

/// The secret has a public key, and agrees with every other secret that has
/// one.
pub open spec fn usable_secret(secret: Seq<u8>) -> bool {
    p256_public(secret) matches Some((x, y)) && forall|other: Seq<u8>|
        (#[trigger] p256_public(other)) matches Some((ox, oy)) ==> {
            &&& p256_shared(secret, ox, oy) is Some
            &&& p256_shared(secret, ox, oy) == p256_shared(other, x, y)
        }
}

/// The client's side.
pub struct ClientHandshake {
    secret: [u8; 32],
    client_init: Vec<u8>,
    client_finish: Vec<u8>,
}

pub ghost struct ClientView {
    pub secret: Seq<u8>,
    pub client_init: Seq<u8>,
    pub client_finish: Seq<u8>,
}

impl View for ClientHandshake {
    type V = ClientView;

    closed spec fn view(&self) -> ClientView {
        ClientView {
            secret: self.secret@,
            client_init: self.client_init@,
            client_finish: self.client_finish@,
        }
    }
}

/// The server's side.
pub struct ServerHandshake {
    secret: [u8; 32],
    client_init: Vec<u8>,
    server_init: Vec<u8>,
    commitment: Vec<u8>,
}

pub ghost struct ServerView {
    pub secret: Seq<u8>,
    pub client_init: Seq<u8>,
    pub server_init: Seq<u8>,
    pub commitment: Seq<u8>,
}

impl View for ServerHandshake {
    type V = ServerView;

    closed spec fn view(&self) -> ServerView {
        ServerView {
            secret: self.secret@,
            client_init: self.client_init@,
            server_init: self.server_init@,
            commitment: self.commitment@,
        }
    }
}

/// What a client has once it has read the server's answer.
pub open spec fn client_finished(client: ClientView, server_init: Seq<u8>) -> std::result::Result<
    SecretsView,
    ErrorView,
> {
    agreed(client.secret, read_server_init(server_init), client.client_init, server_init)
}

/// What a server has once it has read the client's last message.
pub open spec fn server_finished(server: ServerView, client_finish: Seq<u8>) -> std::result::Result<
    SecretsView,
    ErrorView,
> {
    if sha512_of(client_finish) != server.commitment {
        Err(crypto_error("ukey2 commitment mismatch"@))
    } else {
        agreed(
            server.secret,
            read_client_finish(client_finish),
            server.client_init,
            server.server_init,
        )
    }
}

impl ClientHandshake {
    /// The first message commits to the last one, and that holds the key of the
    /// secret.
    pub open spec fn wf(&self) -> bool {
        &&& usable_secret(self@.secret)
        &&& read_client_finish(self@.client_finish) == Ok::<(Seq<u8>, Seq<u8>), ErrorView>(
            p256_public(self@.secret)->0,
        )
        &&& read_client_init(self@.client_init) == Ok::<Seq<u8>, ErrorView>(
            sha512_of(self@.client_finish),
        )
    }

    /// Starts a handshake under a secret and a random value drawn for it.
    pub fn start() -> (handshake: Result<Self>)
        ensures
            handshake is Ok,
            handshake->Ok_0.wf(),
            handshake->Ok_0@.client_finish == client_finish_bytes(
                public_point(handshake->Ok_0@.secret).0,
                public_point(handshake->Ok_0@.secret).1,
            ),
            exists|random: Seq<u8>|
                random.len() == 32 && handshake->Ok_0@.client_init == #[trigger] client_init_bytes(
                    random,
                    sha512_of(handshake->Ok_0@.client_finish),
                ),
    {
        let secret = p256_random();
        let random = random_bytes(32);
        Self::start_with(secret, random)
    }

    /// Starts a handshake under the given secret and random value.
    pub fn start_with(secret: [u8; 32], random: Vec<u8>) -> (handshake: Result<Self>)
        requires
            random@.len() == 32,
        ensures
            match p256_public(secret@) {
                Some((x, y)) => {
                    &&& handshake is Ok
                    &&& handshake->Ok_0.wf()
                    &&& handshake->Ok_0@ == (ClientView {
                        secret: secret@,
                        client_finish: client_finish_bytes(x, y),
                        client_init: client_init_bytes(
                            random@,
                            sha512_of(client_finish_bytes(x, y)),
                        ),
                    })
                },
                None => handshake is Err && handshake->Err_0@ == crypto_error("not a secret key"@),
            },
    {
        let (x, y) = match p256_public_point(&secret) {
            Some(point) => point,
            None => return Err(Error::crypto("not a secret key")),
        };
        let finished = ClientFinished { public_key: Some(encode_public_key(&x, &y)) };
        let client_finish = wrap(CLIENT_FINISH, finished.encode_to_vec());
        let commitment = slice_to_vec(&sha512(client_finish.as_slice()));
        let init = ClientInit {
            version: Some(VERSION),
            random: Some(random),
            cipher_commitments: vec![
                CipherCommitment {
                    handshake_cipher: Some(P256_SHA512),
                    commitment: Some(commitment),
                },
            ],
            next_protocol: Some(NEXT_PROTOCOL.to_owned()),
        };
        assert(init@.cipher_commitments =~= seq![
            CipherCommitmentView {
                handshake_cipher: Some(P256_SHA512),
                commitment: Some(commitment@),
            },
        ]);
        let client_init = wrap(CLIENT_INIT, init.encode_to_vec());
        Ok(Self { secret, client_init, client_finish })
    }

    pub fn client_init(&self) -> (bytes: &[u8])
        ensures
            bytes@ == self@.client_init,
    {
        self.client_init.as_slice()
    }

    pub fn client_finish(&self) -> (bytes: &[u8])
        ensures
            bytes@ == self@.client_finish,
    {
        self.client_finish.as_slice()
    }

    pub fn finish(self, server_init: &[u8]) -> (secrets: Result<SharedSecrets>)
        ensures
            outcome(secrets) == client_finished(self@, server_init@),
    {
        let message = parse_message(server_init, SERVER_INIT)?;
        let init = match ServerInit::decode(message.as_slice()) {
            Ok(init) => init,
            Err(_) => return Err(malformed()),
        };
        match (init.version, init.handshake_cipher) {
            (Some(version), Some(cipher)) if version == VERSION && cipher == P256_SHA512 => {},
            _ => return Err(Error::crypto("unsupported server init")),
        }
        if take_or_empty(init.random).len() != 32 {
            return Err(Error::crypto("server random"));
        }
        let key = take_or_empty(init.public_key);
        let (x, y) = decode_public_key(key.as_slice())?;
        match p256_agree(&self.secret, &x, &y) {
            Some(shared) => derive(&shared, self.client_init.as_slice(), server_init),
            None => Err(Error::crypto("public key is not on the curve")),
        }
    }
}

impl ServerHandshake {
    /// The commitment is the one that the client's first message holds, and the
    /// answer holds the key of the secret.
    pub open spec fn wf(&self) -> bool {
        &&& usable_secret(self@.secret)
        &&& read_client_init(self@.client_init) == Ok::<Seq<u8>, ErrorView>(self@.commitment)
        &&& read_server_init(self@.server_init) == Ok::<(Seq<u8>, Seq<u8>), ErrorView>(
            p256_public(self@.secret)->0,
        )
    }

    /// Answers a client under a secret and a random value drawn for it.
    pub fn start(client_init: &[u8]) -> (handshake: Result<Self>)
        ensures
            match read_client_init(client_init@) {
                Err(error) => handshake is Err && handshake->Err_0@ == error,
                Ok(commitment) => {
                    &&& handshake is Ok
                    &&& handshake->Ok_0.wf()
                    &&& handshake->Ok_0@.client_init == client_init@
                    &&& exists|random: Seq<u8>|
                        random.len() == 32 && handshake->Ok_0@.server_init
                            == #[trigger] server_init_bytes(
                            random,
                            public_point(handshake->Ok_0@.secret).0,
                            public_point(handshake->Ok_0@.secret).1,
                        )
                },
            },
    {
        let secret = p256_random();
        let random = random_bytes(32);
        let ghost drawn = random@;
        let handshake = Self::start_with(client_init, secret, random);
        assert(handshake matches Ok(server) ==> server@.server_init == server_init_bytes(
            drawn,
            public_point(server@.secret).0,
            public_point(server@.secret).1,
        ));
        handshake
    }

    /// Answers a client under the given secret and random value.
    pub fn start_with(client_init: &[u8], secret: [u8; 32], random: Vec<u8>) -> (handshake: Result<
        Self,
    >)
        requires
            random@.len() == 32,
        ensures
            match (read_client_init(client_init@), p256_public(secret@)) {
                (Err(error), _) => handshake is Err && handshake->Err_0@ == error,
                (Ok(_), None) => handshake is Err && handshake->Err_0@ == crypto_error(
                    "not a secret key"@,
                ),
                (Ok(commitment), Some((x, y))) => {
                    &&& handshake is Ok
                    &&& handshake->Ok_0.wf()
                    &&& handshake->Ok_0@ == (ServerView {
                        secret: secret@,
                        client_init: client_init@,
                        server_init: server_init_bytes(random@, x, y),
                        commitment,
                    })
                },
            },
    {
        let commitment = parse_client_init(client_init)?;
        let (x, y) = match p256_public_point(&secret) {
            Some(point) => point,
            None => return Err(Error::crypto("not a secret key")),
        };
        let init = ServerInit {
            version: Some(VERSION),
            random: Some(random),
            handshake_cipher: Some(P256_SHA512),
            public_key: Some(encode_public_key(&x, &y)),
        };
        let server_init = wrap(SERVER_INIT, init.encode_to_vec());
        Ok(Self { secret, client_init: slice_to_vec(client_init), server_init, commitment })
    }

    pub fn server_init(&self) -> (bytes: &[u8])
        ensures
            bytes@ == self@.server_init,
    {
        self.server_init.as_slice()
    }

    pub fn finish(self, client_finish: &[u8]) -> (secrets: Result<SharedSecrets>)
        ensures
            outcome(secrets) == server_finished(self@, client_finish@),
    {
        let actual = sha512(client_finish);
        if !same_bytes(&actual, self.commitment.as_slice()) {
            return Err(Error::crypto("ukey2 commitment mismatch"));
        }
        let message = parse_message(client_finish, CLIENT_FINISH)?;
        let finished = match ClientFinished::decode(message.as_slice()) {
            Ok(finished) => finished,
            Err(_) => return Err(malformed()),
        };
        let key = take_or_empty(finished.public_key);
        let (x, y) = decode_public_key(key.as_slice())?;
        match p256_agree(&self.secret, &x, &y) {
            Some(shared) => derive(
                &shared,
                self.client_init.as_slice(),
                self.server_init.as_slice(),
            ),
            None => Err(Error::crypto("public key is not on the curve")),
        }
    }
}

/// A client and the server that answered its first message end up with the same
/// secrets.
pub proof fn both_sides_agree(client: ClientHandshake, server: ServerHandshake)
    requires
        client.wf(),
        server.wf(),
        server@.client_init == client@.client_init,
    ensures
        client_finished(client@, server@.server_init) is Ok,
        client_finished(client@, server@.server_init) == server_finished(
            server@,
            client@.client_finish,
        ),
{
    assert(p256_public(server@.secret) is Some);
    assert(p256_public(client@.secret) is Some);
}

/// The server takes no last message but one with the digest that was committed
/// to.
pub proof fn commitment_binds(server: ServerView, client_finish: Seq<u8>)
    requires
        server_finished(server, client_finish) is Ok,
    ensures
        sha512_of(client_finish) == server.commitment,
{
}

impl SharedSecrets {
    /// The four digits that both people can compare.
    pub fn pin(&self) -> (pin: String)
        ensures
            pin@ == pin_text(self@.auth_string),
    {
        pin_from_auth(&self.auth_string)
    }

    pub fn client_channel(&self) -> (channel: Result<SecureChannel>)
        ensures
            channel is Ok,
            channel->Ok_0@ == fresh_channel(self@.next_secret, true),
            channel->Ok_0.wf(),
    {
        SecureChannel::from_next_secret(&self.next_secret, true)
    }

    pub fn server_channel(&self) -> (channel: Result<SecureChannel>)
        ensures
            channel is Ok,
            channel->Ok_0@ == fresh_channel(self@.next_secret, false),
            channel->Ok_0.wf(),
    {
        SecureChannel::from_next_secret(&self.next_secret, false)
    }
}

/// The sum of the bytes, each weighted with the power of 31 of its place.
pub open spec fn weighted_sum(token: Seq<u8>) -> nat
    decreases token.len(),
{
    if token.len() == 0 {
        0
    } else {
        weighted_sum(token.drop_last()) + token.last() as nat * pow(31, (token.len() - 1) as nat) as nat
    }
}

/// The weighted sum modulo 9973, as four decimal digits.
pub open spec fn pin_text(token: Seq<u8>) -> Seq<char> {
    let hash = weighted_sum(token) % 9973;
    seq![
        digit_char((hash / 1000) as int),
        digit_char((hash / 100 % 10) as int),
        digit_char((hash / 10 % 10) as int),
        digit_char((hash % 10) as int),
    ]
}

pub fn pin_from_auth(token: &[u8]) -> (pin: String)
    ensures
        pin@ == pin_text(token@),
{
    let mut hash: u64 = 0;
    let mut multiplier: u64 = 1;
    proof {
        lemma_pow0(31);
    }
    for i in 0..token.len()
        invariant
            hash == weighted_sum(token@.take(i as int)) % 9973,
            multiplier == pow(31, i as nat) % 9973,
            hash < 9973,
            multiplier < 9973,
    {
        proof {
            let part = token@.take(i + 1);
            assert(part.drop_last() =~= token@.take(i as int));
            let byte = token@[i as int] as int;
            let power = pow(31, i as nat);
            lemma_pow_positive(31, i as nat);
            lemma_mul_mod_noop_right(byte, power, 9973);
            lemma_add_mod_noop(
                weighted_sum(token@.take(i as int)) as int,
                byte * power,
                9973,
            );
            lemma_add_mod_noop(hash as int, byte * (multiplier as int), 9973);
            assert(byte * multiplier <= 255 * 9973) by (nonlinear_arith)
                requires
                    0 <= byte <= 255,
                    0 <= multiplier < 9973,
            ;
            lemma_pow1(31);
            lemma_pow_adds(31, i as nat, 1);
            lemma_mul_mod_noop_left(power, 31, 9973);
        }
        hash = (hash + token[i] as u64 * multiplier) % 9973;
        multiplier = (multiplier * 31) % 9973;
    }
    assert(token@.take(token@.len() as int) =~= token@);
    let digits = [
        digit(hash / 1000),
        digit(hash / 100 % 10),
        digit(hash / 10 % 10),
        digit(hash % 10),
    ];
    string_of(&digits)
}

fn derive(shared_x: &[u8; 32], client_init: &[u8], server_init: &[u8]) -> (secrets: Result<
    SharedSecrets,
>)
    ensures
        outcome(secrets) == Ok::<SecretsView, ErrorView>(
            derived(shared_x@, client_init@, server_init@),
        ),
{
    let mut info: Vec<u8> = Vec::new();
    info.extend_from_slice(client_init);
    info.extend_from_slice(server_init);
    assert(info@ =~= client_init@ + server_init@);
    let auth = expand_key(shared_x, "UKEY2 v1 auth".as_bytes(), info.as_slice())?;
    let next = expand_key(shared_x, "UKEY2 v1 next".as_bytes(), info.as_slice())?;
    Ok(SharedSecrets { auth_string: auth, next_secret: next })
}

fn expand_key(ikm: &[u8], salt: &[u8], info: &[u8]) -> (key: Result<[u8; 32]>)
    ensures
        key is Ok,
        key->Ok_0@ == hkdf_of(salt@, ikm@, info@),
{
    match hkdf_sha256(salt, ikm, info) {
        Some(key) => Ok(key),
        None => Err(Error::crypto("hkdf expand")),
    }
}

fn wrap(message_type: i32, data: Vec<u8>) -> (bytes: Vec<u8>)
    ensures
        bytes@ == wrapped(message_type, data@),
        read_message(bytes@, message_type) == Ok::<Seq<u8>, ErrorView>(data@),
{
    let message = Ukey2Message { message_type: Some(message_type), message_data: Some(data) };
    message.encode_to_vec()
}

fn parse_message(bytes: &[u8], expect: i32) -> (data: Result<Vec<u8>>)
    ensures
        outcome(data) == read_message(bytes@, expect),
{
    let message = match Ukey2Message::decode(bytes) {
        Ok(message) => message,
        Err(_) => return Err(malformed()),
    };
    match message.message_type {
        Some(kind) if kind == expect => {},
        _ => return Err(Error::crypto("unexpected ukey2 message")),
    }
    match message.message_data {
        Some(data) => Ok(data),
        None => Err(Error::crypto("empty ukey2 message")),
    }
}

fn parse_client_init(client_init: &[u8]) -> (commitment: Result<Vec<u8>>)
    ensures
        outcome(commitment) == read_client_init(client_init@),
{
    let message = parse_message(client_init, CLIENT_INIT)?;
    let init = match ClientInit::decode(message.as_slice()) {
        Ok(init) => init,
        Err(_) => return Err(malformed()),
    };
    match init.version {
        Some(version) if version == VERSION => {},
        _ => return Err(Error::crypto("unsupported ukey2 version")),
    }
    match &init.random {
        Some(random) if random.len() == 32 => {},
        _ => return Err(Error::crypto("client random")),
    }
    match &init.next_protocol {
        Some(protocol) if same_text(protocol.as_str(), NEXT_PROTOCOL) => {},
        _ => return Err(Error::crypto("unsupported next protocol")),
    }
    let commitment = match find_commitment(&init.cipher_commitments) {
        Some(commitment) => commitment,
        None => return Err(Error::crypto("no p256 commitment")),
    };
    if commitment.len() != 64 {
        return Err(Error::crypto("commitment length"));
    }
    Ok(commitment)
}

fn find_commitment(items: &Vec<CipherCommitment>) -> (commitment: Option<Vec<u8>>)
    ensures
        opt_view(commitment) == first_commitment(seq_view(items@)),
{
    let ghost views = seq_view(items@);
    assert(views.skip(0) =~= views);
    for i in 0..items.len()
        invariant
            views == seq_view(items@),
            first_commitment(views) == first_commitment(views.skip(i as int)),
    {
        assert(views.skip(i as int)[0] == items@[i as int]@);
        assert(views.skip(i as int).skip(1) =~= views.skip(i + 1));
        match items[i].handshake_cipher {
            Some(cipher) if cipher == P256_SHA512 => {
                return match &items[i].commitment {
                    Some(commitment) => Some(slice_to_vec(commitment.as_slice())),
                    None => None,
                };
            },
            _ => {},
        }
    }
    None
}

fn encode_public_key(x: &[u8; 32], y: &[u8; 32]) -> (bytes: Vec<u8>)
    ensures
        bytes@ == message_bytes::<GenericPublicKey>(key_message(x@, y@)),
        read_public_key(bytes@) == Ok::<(Seq<u8>, Seq<u8>), ErrorView>((x@, y@)),
{
    let key = GenericPublicKey {
        key_type: Some(EC_P256),
        ec_p256_public_key: Some(
            EcPoint { x: Some(twos_complement(x)), y: Some(twos_complement(y)) },
        ),
    };
    proof {
        coordinate_roundtrip(x@);
        coordinate_roundtrip(y@);
    }
    key.encode_to_vec()
}

fn decode_public_key(bytes: &[u8]) -> (point: Result<([u8; 32], [u8; 32])>)
    ensures
        match point {
            Ok((x, y)) => read_public_key(bytes@) == Ok::<(Seq<u8>, Seq<u8>), ErrorView>((x@, y@)),
            Err(error) => read_public_key(bytes@) == Err::<(Seq<u8>, Seq<u8>), ErrorView>(error@),
        },
{
    let key = match GenericPublicKey::decode(bytes) {
        Ok(key) => key,
        Err(_) => return Err(malformed()),
    };
    match key.key_type {
        Some(kind) if kind == EC_P256 => {},
        _ => return Err(Error::crypto("public key is not p256")),
    }
    let point = match key.ec_p256_public_key {
        Some(point) => point,
        None => return Err(Error::crypto("missing p256 key")),
    };
    let x = parse_twos(take_or_empty(point.x).as_slice())?;
    let y = parse_twos(take_or_empty(point.y).as_slice())?;
    Ok((x, y))
}

/// The signed form of a coordinate: without leading zero bytes, and with one
/// zero byte in front where the first bit would read as a sign.
pub fn twos_complement(coord: &[u8; 32]) -> (form: Vec<u8>)
    ensures
        form@ == signed_form(coord@),
{
    let mut start: usize = 0;
    assert(coord@.skip(0) =~= coord@);
    while start < 31 && coord[start] == 0
        invariant
            start <= 31,
            stripped(coord@) == stripped(coord@.skip(start as int)),
        decreases 31 - start,
    {
        assert(coord@.skip(start as int).skip(1) =~= coord@.skip(start + 1));
        start = start + 1;
    }
    let mut out: Vec<u8> = Vec::new();
    if coord[start] >= 0x80 {
        out.push(0);
    }
    let ghost head = out@;
    for i in start..32
        invariant
            out@ == head + coord@.subrange(start as int, i as int),
    {
        out.push(coord[i]);
    }
    assert(coord@.subrange(start as int, 32) =~= coord@.skip(start as int));
    assert(stripped(coord@) == coord@.skip(start as int));
    assert(Seq::<u8>::empty() + coord@.skip(start as int) =~= coord@.skip(start as int));
    out
}

/// Reads a coordinate from its signed form.
pub fn parse_twos(bytes: &[u8]) -> (coord: Result<[u8; 32]>)
    ensures
        match unsigned_form(bytes@) {
            Some(number) => coord is Ok && coord->Ok_0@ == number,
            None => coord is Err && coord->Err_0@ == crypto_error("bad coordinate"@),
        },
{
    if bytes.len() == 0 || bytes.len() > 33 || bytes[0] >= 0x80 {
        return Err(Error::crypto("bad coordinate"));
    }
    if bytes.len() == 33 && bytes[0] != 0 {
        return Err(Error::crypto("bad coordinate"));
    }
    let mut out = [0u8; 32];
    let skip: usize = if bytes.len() == 33 {
        1
    } else {
        0
    };
    let len: usize = bytes.len() - skip;
    for i in 0..len
        invariant
            len == bytes@.len() - skip,
            skip <= 1,
            1 <= len <= 32,
            forall|j: int| 0 <= j < 32 - len ==> out@[j] == 0,
            forall|k: int|
                32 - len <= k < 32 - len + i ==> #[trigger] out@[k] == bytes@[skip + k - (32 - len)],
    {
        out[32 - len + i] = bytes[skip + i];
    }
    assert(out@ =~= unsigned_form(bytes@)->0);
    Ok(out)
}

} // verus!
