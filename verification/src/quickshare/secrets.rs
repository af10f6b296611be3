//! What two Quick Share peers agree on, and what of it is refused.

use crate::crypto::{cbc_opened, hkdf_of, hmac_of, p256_shared, sha256_of, sha512_of};
use crate::error::ErrorView;
use crate::laws::lemma_four_digits;
use crate::quickshare::endpoint::{info_bytes, read_info, visible_info, EndpointView};
use crate::quickshare::greeting::{accepts, drawn_request, requested_name};
use crate::quickshare::proto::{merged_with, message_bytes, Schema};
use crate::quickshare::secure::{
    fresh_channel, numbered, opened, received, DeviceToDeviceMessage, DeviceToDeviceMessageView,
    DirectionView, GcmMetadata, GcmMetadataView, Header, HeaderAndBody, HeaderAndBodyView,
    HeaderView, SecureMessage, SecureMessageView, D2D_SALT,
};
use crate::quickshare::ukey2::{
    client_finish_bytes, client_finished, client_init_bytes, first_commitment, pin_text,
    read_client_finish, read_client_init, read_message, read_public_key, read_server_init,
    server_finished, server_init_bytes, signed_form, unsigned_form, weighted_sum,
    CipherCommitmentView, ClientFinished, ClientFinishedView, ClientInit, ClientInitView,
    ClientView, EcPointView, GenericPublicKey, GenericPublicKeyView, ServerInit, ServerInitView,
    ServerView, Ukey2Message, Ukey2MessageView,
};
use crate::quickshare::wire::conn;
use vstd::arithmetic::power::{lemma_pow_positive, pow};
use vstd::prelude::*;
use vstd::utf8::*;

verus! {

/// The keys of a channel: each side's key is drawn from the common secret by its
/// role, and from that one key for sealing and one for signing. A client seals with
/// the client's keys and opens with the server's. Counting begins at zero.
pub proof fn keys_of_channels(secret: Seq<u8>)
    ensures
        ({
            let salt = sha256_of(encode_utf8("SecureMessage"@));
            let client = hkdf_of(D2D_SALT@, secret, encode_utf8("client"@));
            let server = hkdf_of(D2D_SALT@, secret, encode_utf8("server"@));
            let here = fresh_channel(secret, true);
            let there = fresh_channel(secret, false);
            &&& here.encode.enc == hkdf_of(salt, client, encode_utf8("ENC:2"@))
            &&& here.encode.sig == hkdf_of(salt, client, encode_utf8("SIG:1"@))
            &&& here.decode.enc == hkdf_of(salt, server, encode_utf8("ENC:2"@))
            &&& here.decode.sig == hkdf_of(salt, server, encode_utf8("SIG:1"@))
            &&& there.encode == here.decode && there.decode == here.encode
            &&& here.encode_seq == 0 && here.decode_seq == 0
            &&& there.encode_seq == 0 && there.decode_seq == 0
            &&& here.metadata == message_bytes::<GcmMetadata>(
                GcmMetadataView { metadata_type: Some(13), version: Some(1) },
            )
            &&& there.metadata == here.metadata
        }),
        D2D_SALT@ == seq![
            0x82u8, 0xAA, 0x55, 0xA0, 0xD3, 0x97, 0xF8, 0x83, 0x46, 0xCA, 0x1C, 0xEE, 0x8D, 0x39,
            0x09, 0xB9, 0x5F, 0x13, 0xFA, 0x7D, 0xEB, 0x1D, 0x4A, 0xB3, 0x83, 0x76, 0xB8, 0x25,
            0x6D, 0xA8, 0x55, 0x10,
        ],
{
    assert(D2D_SALT@ =~= seq![
        0x82u8, 0xAA, 0x55, 0xA0, 0xD3, 0x97, 0xF8, 0x83, 0x46, 0xCA, 0x1C, 0xEE, 0x8D, 0x39, 0x09,
        0xB9, 0x5F, 0x13, 0xFA, 0x7D, 0xEB, 0x1D, 0x4A, 0xB3, 0x83, 0x76, 0xB8, 0x25, 0x6D, 0xA8,
        0x55, 0x10,
    ]);
}

/// An opened message is handed out if its number is the next one, and not
/// otherwise.
pub proof fn messages_come_in_turn(plain: Seq<u8>, last: i32, message: DeviceToDeviceMessageView)
    requires
        merged_with::<DeviceToDeviceMessage>(DeviceToDeviceMessage::blank(), plain) == Some(message),
        last < i32::MAX,
    ensures
        message.sequence_number == Some((last + 1) as i32) && message.message is Some ==> numbered(
            plain,
            last,
        ) == (Ok::<Seq<u8>, ErrorView>(message.message->0), (last + 1) as i32),
        message.sequence_number != Some((last + 1) as i32) || message.message is None ==> numbered(
            plain,
            last,
        ).0 is Err,
        numbered(plain, last).1 == last + 1,
{
}

/// After the largest number no message is taken.
pub proof fn counting_ends(plain: Seq<u8>)
    ensures
        numbered(plain, i32::MAX).0 is Err,
        numbered(plain, i32::MAX).1 == i32::MAX,
{
}

/// A message is opened if its signature is the right one and its header names the
/// expected schemes, kind and a vector of 16 bytes; what it holds is then what its
/// body gives under the key for sealing. Nothing of any other is opened.
pub proof fn signed_messages_are_opened(
    keys: DirectionView,
    bytes: Seq<u8>,
    signed: Seq<u8>,
    signature: Seq<u8>,
    wrapped: HeaderAndBodyView,
    header: HeaderView,
    metadata: GcmMetadataView,
)
    requires
        merged_with::<SecureMessage>(SecureMessage::blank(), bytes) == Some(
            SecureMessageView { header_and_body: Some(signed), signature: Some(signature) },
        ),
        merged_with::<HeaderAndBody>(HeaderAndBody::blank(), signed) == Some(wrapped),
        wrapped.header is Some,
        wrapped.body is Some,
        merged_with::<Header>(Header::blank(), wrapped.header->0) == Some(header),
        header.public_metadata is Some,
        header.iv is Some,
        merged_with::<GcmMetadata>(GcmMetadata::blank(), header.public_metadata->0) == Some(
            metadata,
        ),
    ensures
        ({
            let fits = header.signature_scheme == Some(1i32) && header.encryption_scheme == Some(
                2i32,
            ) && metadata.metadata_type == Some(13i32) && header.iv->0.len() == 16;
            &&& signature != hmac_of(keys.sig, signed) || !fits ==> opened(keys, bytes) is Err
            &&& signature == hmac_of(keys.sig, signed) && fits ==> match cbc_opened(
                keys.enc,
                header.iv->0,
                wrapped.body->0,
            ) {
                Some(plain) => opened(keys, bytes) == Ok::<Seq<u8>, ErrorView>(plain),
                None => opened(keys, bytes) is Err,
            }
        }),
{
}

/// A message that is not signed, or holds nothing, is not opened, and a message
/// that is not opened does not count.
pub proof fn unsigned_messages_are_refused(keys: DirectionView, last: i32, bytes: Seq<u8>)
    ensures
        merged_with::<SecureMessage>(SecureMessage::blank(), bytes) is None ==> opened(keys, bytes)
            is Err,
        merged_with::<SecureMessage>(SecureMessage::blank(), bytes) matches Some(secure)
            ==> secure.signature is None || secure.header_and_body is None ==> opened(keys, bytes)
            is Err,
        opened(keys, bytes) matches Err(error) ==> received(keys, last, bytes) == (
            Err::<Seq<u8>, ErrorView>(error),
            last,
        ),
{
}

/// What both sides derive from the secret that they share: the code to compare and
/// the secret to go on with, both bound to the first two messages in their order.
pub proof fn secrets_are_bound_to_messages(
    client: ClientView,
    server: ServerView,
    server_init: Seq<u8>,
    client_finish: Seq<u8>,
    x: Seq<u8>,
    y: Seq<u8>,
    shared: Seq<u8>,
)
    ensures
        read_server_init(server_init) == Ok::<(Seq<u8>, Seq<u8>), ErrorView>((x, y)) && p256_shared(
            client.secret,
            x,
            y,
        ) == Some(shared) ==> (client_finished(client, server_init) matches Ok(secrets)
            && secrets.auth_string == hkdf_of(
            encode_utf8("UKEY2 v1 auth"@),
            shared,
            client.client_init + server_init,
        ) && secrets.next_secret == hkdf_of(
            encode_utf8("UKEY2 v1 next"@),
            shared,
            client.client_init + server_init,
        )),
        sha512_of(client_finish) == server.commitment && read_client_finish(client_finish) == Ok::<
            (Seq<u8>, Seq<u8>),
            ErrorView,
        >((x, y)) && p256_shared(server.secret, x, y) == Some(shared) ==> (server_finished(
            server,
            client_finish,
        ) matches Ok(secrets) && secrets.auth_string == hkdf_of(
            encode_utf8("UKEY2 v1 auth"@),
            shared,
            server.client_init + server.server_init,
        ) && secrets.next_secret == hkdf_of(
            encode_utf8("UKEY2 v1 next"@),
            shared,
            server.client_init + server.server_init,
        )),
        sha512_of(client_finish) != server.commitment ==> server_finished(server, client_finish)
            is Err,
        read_server_init(server_init) is Err ==> client_finished(client, server_init) is Err,
        read_client_finish(client_finish) is Err ==> server_finished(server, client_finish) is Err,
{
}

/// The messages of the key agreement and their numbers.
pub proof fn messages_of_the_agreement(random: Seq<u8>, commitment: Seq<u8>, x: Seq<u8>, y: Seq<u8>)
    ensures
        ({
            let point = message_bytes::<GenericPublicKey>(
                GenericPublicKeyView {
                    key_type: Some(1),
                    ec_p256_public_key: Some(
                        EcPointView { x: Some(signed_form(x)), y: Some(signed_form(y)) },
                    ),
                },
            );
            &&& client_init_bytes(random, commitment) == message_bytes::<Ukey2Message>(
                Ukey2MessageView {
                    message_type: Some(2),
                    message_data: Some(
                        message_bytes::<ClientInit>(
                            ClientInitView {
                                version: Some(1),
                                random: Some(random),
                                cipher_commitments: seq![
                                    CipherCommitmentView {
                                        handshake_cipher: Some(100),
                                        commitment: Some(commitment),
                                    },
                                ],
                                next_protocol: Some("AES_256_CBC-HMAC_SHA256"@),
                            },
                        ),
                    ),
                },
            )
            &&& server_init_bytes(random, x, y) == message_bytes::<Ukey2Message>(
                Ukey2MessageView {
                    message_type: Some(3),
                    message_data: Some(
                        message_bytes::<ServerInit>(
                            ServerInitView {
                                version: Some(1),
                                random: Some(random),
                                handshake_cipher: Some(100),
                                public_key: Some(point),
                            },
                        ),
                    ),
                },
            )
            &&& client_finish_bytes(x, y) == message_bytes::<Ukey2Message>(
                Ukey2MessageView {
                    message_type: Some(4),
                    message_data: Some(
                        message_bytes::<ClientFinished>(
                            ClientFinishedView { public_key: Some(point) },
                        ),
                    ),
                },
            )
        }),
{
}

/// A server takes a first message of the right version and protocol with 32 random
/// bytes and a commitment of 64 bytes for its cipher, and no other.
pub proof fn first_messages_are_checked(
    bytes: Seq<u8>,
    data: Seq<u8>,
    init: ClientInitView,
    commitment: Seq<u8>,
)
    requires
        merged_with::<Ukey2Message>(Ukey2Message::blank(), bytes) == Some(
            Ukey2MessageView { message_type: Some(2), message_data: Some(data) },
        ),
        merged_with::<ClientInit>(ClientInit::blank(), data) == Some(init),
    ensures
        ({
            let fits = init.version == Some(1i32) && init.random is Some && init.random->0.len()
                == 32 && init.next_protocol == Some("AES_256_CBC-HMAC_SHA256"@);
            &&& !fits ==> read_client_init(bytes) is Err
            &&& fits && first_commitment(init.cipher_commitments) == Some(commitment) ==> (
            commitment.len() == 64 ==> read_client_init(bytes) == Ok::<Seq<u8>, ErrorView>(
                commitment,
            )) && (commitment.len() != 64 ==> read_client_init(bytes) is Err)
            &&& first_commitment(init.cipher_commitments) is None ==> read_client_init(bytes)
                is Err
        }),
{
}

/// The first commitment for the server's cipher counts.
pub proof fn first_commitment_counts(item: CipherCommitmentView, items: Seq<CipherCommitmentView>)
    ensures
        first_commitment(Seq::empty()) is None,
        item.handshake_cipher == Some(100i32) ==> first_commitment(seq![item] + items)
            == item.commitment,
        item.handshake_cipher != Some(100i32) ==> first_commitment(seq![item] + items)
            == first_commitment(items),
{
    assert((seq![item] + items)[0] == item);
    assert((seq![item] + items).skip(1) =~= items);
}

/// A client takes an answer of the right version and cipher with 32 random bytes
/// and the server's key, and no other.
pub proof fn answers_are_checked(bytes: Seq<u8>, data: Seq<u8>, init: ServerInitView)
    requires
        merged_with::<Ukey2Message>(Ukey2Message::blank(), bytes) == Some(
            Ukey2MessageView { message_type: Some(3), message_data: Some(data) },
        ),
        merged_with::<ServerInit>(ServerInit::blank(), data) == Some(init),
        init.random is Some,
        init.public_key is Some,
    ensures
        init.version == Some(1i32) && init.handshake_cipher == Some(100i32) && init.random->0.len()
            == 32 ==> read_server_init(bytes) == read_public_key(init.public_key->0),
        init.version != Some(1i32) || init.handshake_cipher != Some(100i32) || init.random->0.len()
            != 32 ==> read_server_init(bytes) is Err,
{
}

/// A message of another kind than the expected one is refused.
pub proof fn messages_are_of_the_expected_kind(
    bytes: Seq<u8>,
    expect: i32,
    message: Ukey2MessageView,
)
    requires
        merged_with::<Ukey2Message>(Ukey2Message::blank(), bytes) == Some(message),
    ensures
        message.message_type == Some(expect) && message.message_data is Some ==> read_message(
            bytes,
            expect,
        ) == Ok::<Seq<u8>, ErrorView>(message.message_data->0),
        message.message_type != Some(expect) || message.message_data is None ==> read_message(
            bytes,
            expect,
        ) is Err,
        message.message_type != Some(2i32) ==> read_client_init(bytes) is Err,
        message.message_type != Some(3i32) ==> read_server_init(bytes) is Err,
        message.message_type != Some(4i32) ==> read_client_finish(bytes) is Err,
{
}

/// A key is a point of the right curve, of which both coordinates are told.
pub proof fn keys_are_points(bytes: Seq<u8>, key: GenericPublicKeyView, x: Seq<u8>, y: Seq<u8>)
    requires
        merged_with::<GenericPublicKey>(GenericPublicKey::blank(), bytes) == Some(key),
    ensures
        key.key_type != Some(1i32) || key.ec_p256_public_key is None ==> read_public_key(bytes)
            is Err,
        key.key_type == Some(1i32) ==> (key.ec_p256_public_key == Some(
            EcPointView { x: Some(x), y: Some(y) },
        ) ==> {
            &&& unsigned_form(x) is Some && unsigned_form(y) is Some ==> read_public_key(bytes)
                == Ok::<(Seq<u8>, Seq<u8>), ErrorView>((unsigned_form(x)->0, unsigned_form(y)->0))
            &&& unsigned_form(x) is None || unsigned_form(y) is None ==> read_public_key(bytes)
                is Err
        }),
{
}

/// The code that both sides show: four digits of the sum of the bytes, each weighed
/// with a power of 31 by its place, by what it leaves when divided by 9973.
pub proof fn codes_are_weighed_sums(token: Seq<u8>, byte: u8)
    ensures
        weighted_sum(Seq::empty()) == 0,
        weighted_sum(token.push(byte)) == weighted_sum(token) + byte * pow(31, token.len()),
        ({
            let code = pin_text(token);
            &&& code.len() == 4
            &&& '0' <= code[0] <= '9' && '0' <= code[1] <= '9' && '0' <= code[2] <= '9' && '0'
                <= code[3] <= '9'
            &&& 1000 * (code[0] as int - 48) + 100 * (code[1] as int - 48) + 10 * (code[2] as int
                - 48) + (code[3] as int - 48) == weighted_sum(token) as int % 9973
        }),
{
    let longer = token.push(byte);
    assert(longer.drop_last() =~= token);
    assert(longer.last() == byte);
    let weight = pow(31, token.len());
    lemma_pow_positive(31, token.len());
    assert((longer.len() - 1) as nat == token.len());
    assert(byte as nat * weight as nat == byte * weight);
    assert(byte * weight >= 0) by (nonlinear_arith)
        requires
            weight > 0,
            byte >= 0,
    ;
    lemma_four_digits((weighted_sum(token) % 9973) as int);
}

/// A phone is called by the name that its endpoint tells, else by the name in its
/// request, and else Android.
pub proof fn phones_are_called_by_name(
    v1: conn::V1FrameView,
    request: conn::ConnectionRequestFrameView,
    info: EndpointView,
    bytes: Seq<u8>,
)
    requires
        v1.connection_request == Some(request),
    ensures
        ({
            let frame = conn::OfflineFrameView { version: Some(1), v1: Some(v1) };
            let told = request.endpoint_info == Some(bytes) && read_info(bytes) == Ok::<
                EndpointView,
                ErrorView,
            >(info) && info.name is Some;
            &&& told ==> requested_name(frame) == info.name->0
            &&& request.endpoint_info is None && request.endpoint_name is Some
                && request.endpoint_name->0.len() > 0 ==> requested_name(frame)
                == request.endpoint_name->0
            &&& request.endpoint_info is None && (request.endpoint_name is None
                || request.endpoint_name->0.len() == 0) ==> requested_name(frame) == "Android"@
        }),
        requested_name(
            conn::OfflineFrameView {
                version: Some(1),
                v1: Some(conn::V1FrameView { connection_request: None, ..v1 }),
            },
        ) == "Android"@,
{
}

/// A connection is accepted by a response that does not say no.
pub proof fn responses_accept(frame: conn::OfflineFrameView, v1: conn::V1FrameView)
    requires
        frame.v1 == Some(v1),
    ensures
        v1.frame_type != Some(2i32) ==> !accepts(frame),
        v1.frame_type == Some(2i32) && v1.connection_response is None ==> accepts(frame),
        v1.frame_type == Some(2i32) ==> (v1.connection_response matches Some(response) ==> (accepts(
            frame,
        ) <==> response.response != Some(2i32))),
        accepts(conn::connection_response_frame()),
{
}

/// A sender asks for a connection over the local network under its own name, with
/// the numbers that it drew, and keeps it alive every five seconds for up to
/// thirty.
pub proof fn requests_tell_the_name(name: Seq<char>, raw: Seq<u8>, nonce: i32, identity: Seq<u8>)
    ensures
        ({
            let frame = drawn_request(name, raw, nonce, identity);
            &&& frame.version == Some(1i32)
            &&& frame.v1 matches Some(v1) && v1.frame_type == Some(1i32) && (
            v1.connection_request matches Some(request) && {
                &&& request.endpoint_id == Some(crate::quickshare::endpoint::id_text(raw))
                &&& request.endpoint_name == Some(name)
                &&& request.nonce == Some(nonce)
                &&& request.mediums == seq![5i32]
                &&& request.endpoint_info == Some(
                    info_bytes(visible_info(name, 1, identity))->Ok_0,
                )
                &&& request.keep_alive_interval_millis == Some(5000i32)
                &&& request.keep_alive_timeout_millis == Some(30000i32)
            })
        }),
{
}

} // verus!
