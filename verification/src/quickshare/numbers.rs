//! The numbers under which the fields of each message go over the wire, and the
//! form that a field has there.

use crate::quickshare::proto::{
    field_bytes, fields_bytes, first_field, int_to_wire, lemma_varint_roundtrip, merged_with,
    packed, parse_varint, varint, wire_to_i32, wire_to_i64, FieldView, Schema, ValueView,
};
use crate::quickshare::wire::{conn, share};
use crate::quickshare::{secure, ukey2};
use vstd::prelude::*;
use vstd::utf8::*;

verus! {

/// A field that holds a number.
pub open spec fn number_in(tag: nat, wire: u64) -> FieldView {
    FieldView { tag, value: ValueView::Varint(wire) }
}

/// A field that holds bytes.
pub open spec fn bytes_in(tag: nat, body: Seq<u8>) -> FieldView {
    FieldView { tag, value: ValueView::Bytes(body) }
}

/// The message that the bytes hold.
pub open spec fn read_alone<M: Schema>(bytes: Seq<u8>) -> Option<M::V> {
    merged_with::<M>(M::blank(), bytes)
}

/// The number in the lower half of 64 bits, where the highest of its bits is the
/// sign.
pub open spec fn low_half(wire: u64) -> i32 {
    let low = wire as int % 0x1_0000_0000;
    if low >= 0x8000_0000 {
        (low - 0x1_0000_0000) as i32
    } else {
        low as i32
    }
}

/// The number in 64 bits, where the highest of them is the sign.
pub open spec fn all_of(wire: u64) -> i64 {
    if wire >= 0x8000_0000_0000_0000 {
        (wire - 0x1_0000_0000_0000_0000) as i64
    } else {
        wire as i64
    }
}

/// Numbers go over the wire in 64 bits with their sign, and come back.
pub proof fn numbers_come_back(half: i32, whole: i64, wire: u64)
    ensures
        wire_to_i32(int_to_wire(half as int)) == half,
        wire_to_i64(int_to_wire(whole as int)) == whole,
        whole >= 0 ==> int_to_wire(whole as int) == whole,
        whole < 0 ==> int_to_wire(whole as int) == 0x1_0000_0000_0000_0000 + whole,
        wire_to_i32(wire) == low_half(wire),
        wire_to_i64(wire) == all_of(wire),
{
}

/// A number takes a byte for each seven bits, the lowest first; each byte but the
/// last has its highest bit set.
pub proof fn numbers_take_seven_bits_a_byte(value: nat, low: nat)
    requires
        low < 128,
    ensures
        varint(low) == seq![low as u8],
        value > 0 ==> varint(128 * value + low) == seq![(128 + low) as u8] + varint(value),
{
}

/// How numbers are read: a byte below 128 ends the number, and a number that goes
/// on past ten bytes, or past the end, is none.
pub proof fn numbers_are_read_back(byte: u8, rest: Seq<u8>, room: nat)
    requires
        room > 1,
    ensures
        parse_varint(Seq::empty(), room) is None,
        parse_varint(rest, 0) is None,
        byte < 128 ==> parse_varint(seq![byte] + rest, room) == Some((byte as nat, 1nat)),
        byte >= 128 ==> parse_varint(seq![byte] + rest, room) == match parse_varint(
            rest,
            (room - 1) as nat,
        ) {
            Some((high, used)) => Some(((byte - 128 + 128 * high) as nat, used + 1)),
            None => None,
        },
        parse_varint(seq![byte] + rest, 1) is Some ==> byte < 2,
{
    assert((seq![byte] + rest).skip(1) =~= rest);
    assert((seq![byte] + rest)[0] == byte);
}

/// A field begins with its number times eight and, in the lowest three bits, its
/// form: 0 for a number, and 2 for bytes, which follow their length. The fields
/// follow one another.
pub proof fn fields_are_laid_out(tag: nat, wire: u64, body: Seq<u8>, more: Seq<FieldView>)
    ensures
        field_bytes(FieldView { tag, value: ValueView::Varint(wire) }) == varint(8 * tag) + varint(
            wire as nat,
        ),
        field_bytes(FieldView { tag, value: ValueView::Bytes(body) }) == varint(8 * tag + 2)
            + varint(body.len()) + body,
        fields_bytes(Seq::empty()) == Seq::<u8>::empty(),
        fields_bytes(seq![FieldView { tag, value: ValueView::Bytes(body) }] + more) == field_bytes(
            FieldView { tag, value: ValueView::Bytes(body) },
        ) + fields_bytes(more),
        fields_bytes(seq![FieldView { tag, value: ValueView::Varint(wire) }] + more) == field_bytes(
            FieldView { tag, value: ValueView::Varint(wire) },
        ) + fields_bytes(more),
{
    assert((seq![FieldView { tag, value: ValueView::Bytes(body) }] + more).skip(1) =~= more);
    assert((seq![FieldView { tag, value: ValueView::Varint(wire) }] + more).skip(1) =~= more);
}

/// Several numbers in one field follow one another.
pub proof fn packed_numbers_follow(value: u64, rest: Seq<u8>)
    ensures
        packed(Seq::empty()) == Some(Seq::<i32>::empty()),
        packed(varint(value as nat) + rest) == match packed(rest) {
            Some(more) => Some(seq![low_half(value)] + more),
            None => None,
        },
{
    lemma_varint_roundtrip(value, rest);
    lemma_varint_len(value as nat);
    assert((varint(value as nat) + rest).skip(varint(value as nat).len() as int) =~= rest);
}

proof fn lemma_varint_len(value: nat)
    ensures
        varint(value).len() > 0,
{
}

/// The numbers of the fields of a payload chunk of a connection; other fields are
/// passed over.
pub proof fn fields_of_conn_payload_chunk(
    m: conn::PayloadChunkView,
    body: Seq<u8>,
    wire: u64,
    field: FieldView,
)
    ensures
        conn::PayloadChunk::step(m, number_in(1, wire)) == Some(
            conn::PayloadChunkView { flags: Some(low_half(wire)), ..m },
        ),
        conn::PayloadChunk::step(m, number_in(2, wire)) == Some(
            conn::PayloadChunkView { offset: Some(all_of(wire)), ..m },
        ),
        conn::PayloadChunk::step(m, bytes_in(3, body)) == Some(
            conn::PayloadChunkView { body: Some(body), ..m },
        ),
        field.tag != 1 && field.tag != 2 && field.tag != 3 ==>
            conn::PayloadChunk::step(m, field) == Some(m),
{
}

/// The numbers of the fields of a payload header of a connection; other fields are
/// passed over.
pub proof fn fields_of_conn_payload_header(
    m: conn::PayloadHeaderView,
    text: Seq<char>,
    wire: u64,
    field: FieldView,
)
    ensures
        conn::PayloadHeader::step(m, number_in(1, wire)) == Some(
            conn::PayloadHeaderView { id: Some(all_of(wire)), ..m },
        ),
        conn::PayloadHeader::step(m, number_in(2, wire)) == Some(
            conn::PayloadHeaderView { payload_type: Some(low_half(wire)), ..m },
        ),
        conn::PayloadHeader::step(m, number_in(3, wire)) == Some(
            conn::PayloadHeaderView { total_size: Some(all_of(wire)), ..m },
        ),
        conn::PayloadHeader::step(m, bytes_in(5, encode_utf8(text))) == Some(
            conn::PayloadHeaderView { file_name: Some(text), ..m },
        ),
        field.tag != 1 && field.tag != 2 && field.tag != 3 && field.tag != 5 ==>
            conn::PayloadHeader::step(m, field) == Some(m),
{
    encode_utf8_valid_utf8(text);
    encode_utf8_decode_utf8(text);
}

/// The numbers of the fields of a payload transfer frame of a connection; other
/// fields are passed over.
pub proof fn fields_of_conn_payload_transfer_frame(
    m: conn::PayloadTransferFrameView,
    body: Seq<u8>,
    wire: u64,
    field: FieldView,
)
    ensures
        conn::PayloadTransferFrame::step(m, number_in(1, wire)) == Some(
            conn::PayloadTransferFrameView { packet_type: Some(low_half(wire)), ..m },
        ),
        m.payload_header is None ==> (read_alone::<conn::PayloadHeader>(body) matches Some(inner)
            ==> conn::PayloadTransferFrame::step(m, bytes_in(2, body)) == Some(
            conn::PayloadTransferFrameView { payload_header: Some(inner), ..m },
        )),
        m.payload_chunk is None ==> (read_alone::<conn::PayloadChunk>(body) matches Some(inner)
            ==> conn::PayloadTransferFrame::step(m, bytes_in(3, body)) == Some(
            conn::PayloadTransferFrameView { payload_chunk: Some(inner), ..m },
        )),
        field.tag != 1 && field.tag != 2 && field.tag != 3 ==>
            conn::PayloadTransferFrame::step(m, field) == Some(m),
{
}

/// The numbers of the fields of a connection response frame of a connection; other
/// fields are passed over.
pub proof fn fields_of_conn_connection_response_frame(
    m: conn::ConnectionResponseFrameView,
    wire: u64,
    field: FieldView,
)
    ensures
        conn::ConnectionResponseFrame::step(m, number_in(1, wire)) == Some(
            conn::ConnectionResponseFrameView { status: Some(low_half(wire)), ..m },
        ),
        conn::ConnectionResponseFrame::step(m, number_in(3, wire)) == Some(
            conn::ConnectionResponseFrameView { response: Some(low_half(wire)), ..m },
        ),
        field.tag != 1 && field.tag != 3 ==>
            conn::ConnectionResponseFrame::step(m, field) == Some(m),
{
}

/// The numbers of the fields of a connection request frame of a connection; other
/// fields are passed over.
pub proof fn fields_of_conn_connection_request_frame(
    m: conn::ConnectionRequestFrameView,
    body: Seq<u8>,
    text: Seq<char>,
    wire: u64,
    field: FieldView,
)
    ensures
        conn::ConnectionRequestFrame::step(m, bytes_in(1, encode_utf8(text))) == Some(
            conn::ConnectionRequestFrameView { endpoint_id: Some(text), ..m },
        ),
        conn::ConnectionRequestFrame::step(m, bytes_in(2, encode_utf8(text))) == Some(
            conn::ConnectionRequestFrameView { endpoint_name: Some(text), ..m },
        ),
        conn::ConnectionRequestFrame::step(m, number_in(4, wire)) == Some(
            conn::ConnectionRequestFrameView { nonce: Some(low_half(wire)), ..m },
        ),
        conn::ConnectionRequestFrame::step(m, number_in(5, wire)) == Some(
            conn::ConnectionRequestFrameView { mediums: m.mediums + seq![low_half(wire)], ..m },
        ),
        conn::ConnectionRequestFrame::step(m, bytes_in(6, body)) == Some(
            conn::ConnectionRequestFrameView { endpoint_info: Some(body), ..m },
        ),
        conn::ConnectionRequestFrame::step(m, number_in(8, wire)) == Some(
            conn::ConnectionRequestFrameView {
                keep_alive_interval_millis: Some(low_half(wire)),
                ..m
            },
        ),
        conn::ConnectionRequestFrame::step(m, number_in(9, wire)) == Some(
            conn::ConnectionRequestFrameView {
                keep_alive_timeout_millis: Some(low_half(wire)),
                ..m
            },
        ),
        field.tag != 1 && field.tag != 2 && field.tag != 4 && field.tag != 5 && field.tag != 6 &&
            field.tag != 8 && field.tag != 9 ==>
            conn::ConnectionRequestFrame::step(m, field) == Some(m),
{
    encode_utf8_valid_utf8(text);
    encode_utf8_decode_utf8(text);
}

/// The numbers of the fields of a v1 frame of a connection; other fields are passed
/// over.
pub proof fn fields_of_conn_v1_frame(
    m: conn::V1FrameView,
    body: Seq<u8>,
    wire: u64,
    field: FieldView,
)
    ensures
        conn::V1Frame::step(m, number_in(1, wire)) == Some(
            conn::V1FrameView { frame_type: Some(low_half(wire)), ..m },
        ),
        m.connection_request is None ==> (
        read_alone::<conn::ConnectionRequestFrame>(body) matches Some(inner)
            ==> conn::V1Frame::step(m, bytes_in(2, body)) == Some(
            conn::V1FrameView { connection_request: Some(inner), ..m },
        )),
        m.connection_response is None ==> (
        read_alone::<conn::ConnectionResponseFrame>(body) matches Some(inner)
            ==> conn::V1Frame::step(m, bytes_in(3, body)) == Some(
            conn::V1FrameView { connection_response: Some(inner), ..m },
        )),
        m.payload_transfer is None ==> (
        read_alone::<conn::PayloadTransferFrame>(body) matches Some(inner)
            ==> conn::V1Frame::step(m, bytes_in(4, body)) == Some(
            conn::V1FrameView { payload_transfer: Some(inner), ..m },
        )),
        m.keep_alive is None ==> (read_alone::<conn::KeepAliveFrame>(body) matches Some(inner)
            ==> conn::V1Frame::step(m, bytes_in(6, body)) == Some(
            conn::V1FrameView { keep_alive: Some(inner), ..m },
        )),
        m.disconnection is None ==> (
        read_alone::<conn::DisconnectionFrame>(body) matches Some(inner)
            ==> conn::V1Frame::step(m, bytes_in(7, body)) == Some(
            conn::V1FrameView { disconnection: Some(inner), ..m },
        )),
        field.tag != 1 && field.tag != 2 && field.tag != 3 && field.tag != 4 && field.tag != 6 &&
            field.tag != 7 ==>
            conn::V1Frame::step(m, field) == Some(m),
{
}

/// The numbers of the fields of a offline frame of a connection; other fields are
/// passed over.
pub proof fn fields_of_conn_offline_frame(
    m: conn::OfflineFrameView,
    body: Seq<u8>,
    wire: u64,
    field: FieldView,
)
    ensures
        conn::OfflineFrame::step(m, number_in(1, wire)) == Some(
            conn::OfflineFrameView { version: Some(low_half(wire)), ..m },
        ),
        m.v1 is None ==> (read_alone::<conn::V1Frame>(body) matches Some(inner)
            ==> conn::OfflineFrame::step(m, bytes_in(2, body)) == Some(
            conn::OfflineFrameView { v1: Some(inner), ..m },
        )),
        field.tag != 1 && field.tag != 2 ==> conn::OfflineFrame::step(m, field) == Some(m),
{
}

/// The numbers of the fields of a file metadata of Quick Share; other fields are
/// passed over.
pub proof fn fields_of_share_file_metadata(
    m: share::FileMetadataView,
    text: Seq<char>,
    wire: u64,
    field: FieldView,
)
    ensures
        share::FileMetadata::step(m, bytes_in(1, encode_utf8(text))) == Some(
            share::FileMetadataView { name: Some(text), ..m },
        ),
        share::FileMetadata::step(m, number_in(2, wire)) == Some(
            share::FileMetadataView { file_type: Some(low_half(wire)), ..m },
        ),
        share::FileMetadata::step(m, number_in(3, wire)) == Some(
            share::FileMetadataView { payload_id: Some(all_of(wire)), ..m },
        ),
        share::FileMetadata::step(m, number_in(4, wire)) == Some(
            share::FileMetadataView { size: Some(all_of(wire)), ..m },
        ),
        share::FileMetadata::step(m, bytes_in(5, encode_utf8(text))) == Some(
            share::FileMetadataView { mime_type: Some(text), ..m },
        ),
        share::FileMetadata::step(m, number_in(6, wire)) == Some(
            share::FileMetadataView { id: Some(all_of(wire)), ..m },
        ),
        field.tag != 1 && field.tag != 2 && field.tag != 3 && field.tag != 4 && field.tag != 5 &&
            field.tag != 6 ==>
            share::FileMetadata::step(m, field) == Some(m),
{
    encode_utf8_valid_utf8(text);
    encode_utf8_decode_utf8(text);
}

/// The numbers of the fields of a text metadata of Quick Share; other fields are
/// passed over.
pub proof fn fields_of_share_text_metadata(
    m: share::TextMetadataView,
    text: Seq<char>,
    wire: u64,
    field: FieldView,
)
    ensures
        share::TextMetadata::step(m, bytes_in(2, encode_utf8(text))) == Some(
            share::TextMetadataView { text_title: Some(text), ..m },
        ),
        share::TextMetadata::step(m, number_in(3, wire)) == Some(
            share::TextMetadataView { text_type: Some(low_half(wire)), ..m },
        ),
        share::TextMetadata::step(m, number_in(4, wire)) == Some(
            share::TextMetadataView { payload_id: Some(all_of(wire)), ..m },
        ),
        share::TextMetadata::step(m, number_in(5, wire)) == Some(
            share::TextMetadataView { size: Some(all_of(wire)), ..m },
        ),
        share::TextMetadata::step(m, number_in(6, wire)) == Some(
            share::TextMetadataView { id: Some(all_of(wire)), ..m },
        ),
        field.tag != 2 && field.tag != 3 && field.tag != 4 && field.tag != 5 && field.tag != 6 ==>
            share::TextMetadata::step(m, field) == Some(m),
{
    encode_utf8_valid_utf8(text);
    encode_utf8_decode_utf8(text);
}

/// The numbers of the fields of a introduction frame of Quick Share; other fields
/// are passed over.
pub proof fn fields_of_share_introduction_frame(
    m: share::IntroductionFrameView,
    body: Seq<u8>,
    field: FieldView,
)
    ensures
        read_alone::<share::FileMetadata>(body) matches Some(inner)
            ==> share::IntroductionFrame::step(m, bytes_in(1, body)) == Some(
            share::IntroductionFrameView { file_metadata: m.file_metadata.push(inner), ..m },
        ),
        read_alone::<share::TextMetadata>(body) matches Some(inner)
            ==> share::IntroductionFrame::step(m, bytes_in(2, body)) == Some(
            share::IntroductionFrameView { text_metadata: m.text_metadata.push(inner), ..m },
        ),
        field.tag != 1 && field.tag != 2 ==> share::IntroductionFrame::step(m, field) == Some(m),
{
}

/// The numbers of the fields of a connection response frame of Quick Share; other
/// fields are passed over.
pub proof fn fields_of_share_connection_response_frame(
    m: share::ConnectionResponseFrameView,
    wire: u64,
    field: FieldView,
)
    ensures
        share::ConnectionResponseFrame::step(m, number_in(1, wire)) == Some(
            share::ConnectionResponseFrameView { status: Some(low_half(wire)), ..m },
        ),
        field.tag != 1 ==> share::ConnectionResponseFrame::step(m, field) == Some(m),
{
}

/// The numbers of the fields of a paired key encryption frame of Quick Share; other
/// fields are passed over.
pub proof fn fields_of_share_paired_key_encryption_frame(
    m: share::PairedKeyEncryptionFrameView,
    body: Seq<u8>,
    field: FieldView,
)
    ensures
        share::PairedKeyEncryptionFrame::step(m, bytes_in(1, body)) == Some(
            share::PairedKeyEncryptionFrameView { signed_data: Some(body), ..m },
        ),
        share::PairedKeyEncryptionFrame::step(m, bytes_in(2, body)) == Some(
            share::PairedKeyEncryptionFrameView { secret_id_hash: Some(body), ..m },
        ),
        field.tag != 1 && field.tag != 2 ==>
            share::PairedKeyEncryptionFrame::step(m, field) == Some(m),
{
}

/// The numbers of the fields of a paired key result frame of Quick Share; other
/// fields are passed over.
pub proof fn fields_of_share_paired_key_result_frame(
    m: share::PairedKeyResultFrameView,
    wire: u64,
    field: FieldView,
)
    ensures
        share::PairedKeyResultFrame::step(m, number_in(1, wire)) == Some(
            share::PairedKeyResultFrameView { status: Some(low_half(wire)), ..m },
        ),
        field.tag != 1 ==> share::PairedKeyResultFrame::step(m, field) == Some(m),
{
}

/// The numbers of the fields of a v1 frame of Quick Share; other fields are passed
/// over.
pub proof fn fields_of_share_v1_frame(
    m: share::V1FrameView,
    body: Seq<u8>,
    wire: u64,
    field: FieldView,
)
    ensures
        share::V1Frame::step(m, number_in(1, wire)) == Some(
            share::V1FrameView { frame_type: Some(low_half(wire)), ..m },
        ),
        m.introduction is None ==> (read_alone::<share::IntroductionFrame>(body) matches Some(inner)
            ==> share::V1Frame::step(m, bytes_in(2, body)) == Some(
            share::V1FrameView { introduction: Some(inner), ..m },
        )),
        m.connection_response is None ==> (
        read_alone::<share::ConnectionResponseFrame>(body) matches Some(inner)
            ==> share::V1Frame::step(m, bytes_in(3, body)) == Some(
            share::V1FrameView { connection_response: Some(inner), ..m },
        )),
        m.paired_key_encryption is None ==> (
        read_alone::<share::PairedKeyEncryptionFrame>(body) matches Some(inner)
            ==> share::V1Frame::step(m, bytes_in(4, body)) == Some(
            share::V1FrameView { paired_key_encryption: Some(inner), ..m },
        )),
        m.paired_key_result is None ==> (
        read_alone::<share::PairedKeyResultFrame>(body) matches Some(inner)
            ==> share::V1Frame::step(m, bytes_in(5, body)) == Some(
            share::V1FrameView { paired_key_result: Some(inner), ..m },
        )),
        field.tag != 1 && field.tag != 2 && field.tag != 3 && field.tag != 4 && field.tag != 5 ==>
            share::V1Frame::step(m, field) == Some(m),
{
}

/// The numbers of the fields of a frame of Quick Share; other fields are passed
/// over.
pub proof fn fields_of_share_frame(m: share::FrameView, body: Seq<u8>, wire: u64, field: FieldView)
    ensures
        share::Frame::step(m, number_in(1, wire)) == Some(
            share::FrameView { version: Some(low_half(wire)), ..m },
        ),
        m.v1 is None ==> (read_alone::<share::V1Frame>(body) matches Some(inner)
            ==> share::Frame::step(m, bytes_in(2, body)) == Some(
            share::FrameView { v1: Some(inner), ..m },
        )),
        field.tag != 1 && field.tag != 2 ==> share::Frame::step(m, field) == Some(m),
{
}

/// The numbers of the fields of a secure message of the secure channel; other
/// fields are passed over.
pub proof fn fields_of_secure_secure_message(
    m: secure::SecureMessageView,
    body: Seq<u8>,
    field: FieldView,
)
    ensures
        secure::SecureMessage::step(m, bytes_in(1, body)) == Some(
            secure::SecureMessageView { header_and_body: Some(body), ..m },
        ),
        secure::SecureMessage::step(m, bytes_in(2, body)) == Some(
            secure::SecureMessageView { signature: Some(body), ..m },
        ),
        field.tag != 1 && field.tag != 2 ==> secure::SecureMessage::step(m, field) == Some(m),
{
}

/// The numbers of the fields of a header of the secure channel; other fields are
/// passed over.
pub proof fn fields_of_secure_header(
    m: secure::HeaderView,
    body: Seq<u8>,
    wire: u64,
    field: FieldView,
)
    ensures
        secure::Header::step(m, number_in(1, wire)) == Some(
            secure::HeaderView { signature_scheme: Some(low_half(wire)), ..m },
        ),
        secure::Header::step(m, number_in(2, wire)) == Some(
            secure::HeaderView { encryption_scheme: Some(low_half(wire)), ..m },
        ),
        secure::Header::step(m, bytes_in(5, body)) == Some(
            secure::HeaderView { iv: Some(body), ..m },
        ),
        secure::Header::step(m, bytes_in(6, body)) == Some(
            secure::HeaderView { public_metadata: Some(body), ..m },
        ),
        field.tag != 1 && field.tag != 2 && field.tag != 5 && field.tag != 6 ==>
            secure::Header::step(m, field) == Some(m),
{
}

/// The numbers of the fields of a header and body of the secure channel; other
/// fields are passed over.
pub proof fn fields_of_secure_header_and_body(
    m: secure::HeaderAndBodyView,
    body: Seq<u8>,
    field: FieldView,
)
    ensures
        secure::HeaderAndBody::step(m, bytes_in(1, body)) == Some(
            secure::HeaderAndBodyView { header: Some(body), ..m },
        ),
        secure::HeaderAndBody::step(m, bytes_in(2, body)) == Some(
            secure::HeaderAndBodyView { body: Some(body), ..m },
        ),
        field.tag != 1 && field.tag != 2 ==> secure::HeaderAndBody::step(m, field) == Some(m),
{
}

/// The numbers of the fields of a gcm metadata of the secure channel; other fields
/// are passed over.
pub proof fn fields_of_secure_gcm_metadata(m: secure::GcmMetadataView, wire: u64, field: FieldView)
    ensures
        secure::GcmMetadata::step(m, number_in(1, wire)) == Some(
            secure::GcmMetadataView { metadata_type: Some(low_half(wire)), ..m },
        ),
        secure::GcmMetadata::step(m, number_in(2, wire)) == Some(
            secure::GcmMetadataView { version: Some(low_half(wire)), ..m },
        ),
        field.tag != 1 && field.tag != 2 ==> secure::GcmMetadata::step(m, field) == Some(m),
{
}

/// The numbers of the fields of a device to device message of the secure channel;
/// other fields are passed over.
pub proof fn fields_of_secure_device_to_device_message(
    m: secure::DeviceToDeviceMessageView,
    body: Seq<u8>,
    wire: u64,
    field: FieldView,
)
    ensures
        secure::DeviceToDeviceMessage::step(m, bytes_in(1, body)) == Some(
            secure::DeviceToDeviceMessageView { message: Some(body), ..m },
        ),
        secure::DeviceToDeviceMessage::step(m, number_in(2, wire)) == Some(
            secure::DeviceToDeviceMessageView { sequence_number: Some(low_half(wire)), ..m },
        ),
        field.tag != 1 && field.tag != 2 ==>
            secure::DeviceToDeviceMessage::step(m, field) == Some(m),
{
}

/// The numbers of the fields of a ukey2 message of the key agreement; other fields
/// are passed over.
pub proof fn fields_of_ukey2_ukey2_message(
    m: ukey2::Ukey2MessageView,
    body: Seq<u8>,
    wire: u64,
    field: FieldView,
)
    ensures
        ukey2::Ukey2Message::step(m, number_in(1, wire)) == Some(
            ukey2::Ukey2MessageView { message_type: Some(low_half(wire)), ..m },
        ),
        ukey2::Ukey2Message::step(m, bytes_in(2, body)) == Some(
            ukey2::Ukey2MessageView { message_data: Some(body), ..m },
        ),
        field.tag != 1 && field.tag != 2 ==> ukey2::Ukey2Message::step(m, field) == Some(m),
{
}

/// The numbers of the fields of a cipher commitment of the key agreement; other
/// fields are passed over.
pub proof fn fields_of_ukey2_cipher_commitment(
    m: ukey2::CipherCommitmentView,
    body: Seq<u8>,
    wire: u64,
    field: FieldView,
)
    ensures
        ukey2::CipherCommitment::step(m, number_in(1, wire)) == Some(
            ukey2::CipherCommitmentView { handshake_cipher: Some(low_half(wire)), ..m },
        ),
        ukey2::CipherCommitment::step(m, bytes_in(2, body)) == Some(
            ukey2::CipherCommitmentView { commitment: Some(body), ..m },
        ),
        field.tag != 1 && field.tag != 2 ==> ukey2::CipherCommitment::step(m, field) == Some(m),
{
}

/// The numbers of the fields of a client init of the key agreement; other fields
/// are passed over.
pub proof fn fields_of_ukey2_client_init(
    m: ukey2::ClientInitView,
    body: Seq<u8>,
    text: Seq<char>,
    wire: u64,
    field: FieldView,
)
    ensures
        ukey2::ClientInit::step(m, number_in(1, wire)) == Some(
            ukey2::ClientInitView { version: Some(low_half(wire)), ..m },
        ),
        ukey2::ClientInit::step(m, bytes_in(2, body)) == Some(
            ukey2::ClientInitView { random: Some(body), ..m },
        ),
        read_alone::<ukey2::CipherCommitment>(body) matches Some(inner)
            ==> ukey2::ClientInit::step(m, bytes_in(3, body)) == Some(
            ukey2::ClientInitView { cipher_commitments: m.cipher_commitments.push(inner), ..m },
        ),
        ukey2::ClientInit::step(m, bytes_in(4, encode_utf8(text))) == Some(
            ukey2::ClientInitView { next_protocol: Some(text), ..m },
        ),
        field.tag != 1 && field.tag != 2 && field.tag != 3 && field.tag != 4 ==>
            ukey2::ClientInit::step(m, field) == Some(m),
{
    encode_utf8_valid_utf8(text);
    encode_utf8_decode_utf8(text);
}

/// The numbers of the fields of a server init of the key agreement; other fields
/// are passed over.
pub proof fn fields_of_ukey2_server_init(
    m: ukey2::ServerInitView,
    body: Seq<u8>,
    wire: u64,
    field: FieldView,
)
    ensures
        ukey2::ServerInit::step(m, number_in(1, wire)) == Some(
            ukey2::ServerInitView { version: Some(low_half(wire)), ..m },
        ),
        ukey2::ServerInit::step(m, bytes_in(2, body)) == Some(
            ukey2::ServerInitView { random: Some(body), ..m },
        ),
        ukey2::ServerInit::step(m, number_in(3, wire)) == Some(
            ukey2::ServerInitView { handshake_cipher: Some(low_half(wire)), ..m },
        ),
        ukey2::ServerInit::step(m, bytes_in(4, body)) == Some(
            ukey2::ServerInitView { public_key: Some(body), ..m },
        ),
        field.tag != 1 && field.tag != 2 && field.tag != 3 && field.tag != 4 ==>
            ukey2::ServerInit::step(m, field) == Some(m),
{
}

/// The numbers of the fields of a client finished of the key agreement; other
/// fields are passed over.
pub proof fn fields_of_ukey2_client_finished(
    m: ukey2::ClientFinishedView,
    body: Seq<u8>,
    field: FieldView,
)
    ensures
        ukey2::ClientFinished::step(m, bytes_in(1, body)) == Some(
            ukey2::ClientFinishedView { public_key: Some(body), ..m },
        ),
        field.tag != 1 ==> ukey2::ClientFinished::step(m, field) == Some(m),
{
}

/// The numbers of the fields of a ec point of the key agreement; other fields are
/// passed over.
pub proof fn fields_of_ukey2_ec_point(m: ukey2::EcPointView, body: Seq<u8>, field: FieldView)
    ensures
        ukey2::EcPoint::step(m, bytes_in(1, body)) == Some(
            ukey2::EcPointView { x: Some(body), ..m },
        ),
        ukey2::EcPoint::step(m, bytes_in(2, body)) == Some(
            ukey2::EcPointView { y: Some(body), ..m },
        ),
        field.tag != 1 && field.tag != 2 ==> ukey2::EcPoint::step(m, field) == Some(m),
{
}

/// The numbers of the fields of a generic public key of the key agreement; other
/// fields are passed over.
pub proof fn fields_of_ukey2_generic_public_key(
    m: ukey2::GenericPublicKeyView,
    body: Seq<u8>,
    wire: u64,
    field: FieldView,
)
    ensures
        ukey2::GenericPublicKey::step(m, number_in(1, wire)) == Some(
            ukey2::GenericPublicKeyView { key_type: Some(low_half(wire)), ..m },
        ),
        m.ec_p256_public_key is None ==> (read_alone::<ukey2::EcPoint>(body) matches Some(inner)
            ==> ukey2::GenericPublicKey::step(m, bytes_in(2, body)) == Some(
            ukey2::GenericPublicKeyView { ec_p256_public_key: Some(inner), ..m },
        )),
        field.tag != 1 && field.tag != 2 ==> ukey2::GenericPublicKey::step(m, field) == Some(m),
{
}

/// Fields of a fixed width are passed over, eight bytes for one form and four for
/// another; other forms are refused, and so is the number zero.
pub proof fn fixed_fields_are_passed_over(tag: nat, wide: Seq<u8>, narrow: Seq<u8>, rest: Seq<u8>)
    requires
        1 <= tag < 0x1000_0000,
        wide.len() == 8,
        narrow.len() == 4,
    ensures
        first_field(varint(8 * tag + 1) + (wide + rest)) == Some(
            (FieldView { tag, value: ValueView::Skipped }, varint(8 * tag + 1).len() + 8),
        ),
        first_field(varint(8 * tag + 5) + (narrow + rest)) == Some(
            (FieldView { tag, value: ValueView::Skipped }, varint(8 * tag + 5).len() + 4),
        ),
        first_field(varint(8 * tag + 4) + rest) is None,
        first_field(varint(8 * tag + 6) + rest) is None,
        first_field(varint(8 * tag + 7) + rest) is None,
        first_field(varint(0) + rest) is None,
        first_field(varint(2) + rest) is None,
{
    lemma_varint_roundtrip((8 * tag + 1) as u64, wide + rest);
    lemma_varint_roundtrip((8 * tag + 5) as u64, narrow + rest);
    lemma_varint_roundtrip((8 * tag + 4) as u64, rest);
    lemma_varint_roundtrip((8 * tag + 6) as u64, rest);
    lemma_varint_roundtrip((8 * tag + 7) as u64, rest);
    lemma_varint_roundtrip(0, rest);
    lemma_varint_roundtrip(2, rest);
    let one = varint(8 * tag + 1);
    let five = varint(8 * tag + 5);
    assert((one + (wide + rest)).skip(one.len() as int) =~= wide + rest);
    assert((five + (narrow + rest)).skip(five.len() as int) =~= narrow + rest);
}

} // verus!
