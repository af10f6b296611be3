//! Frames of Nearby Connections.

use crate::quickshare::proto::{
    absorb, all_writable, bytes_field, encode_nested, group_wire, i32_wire, i64_wire, int_field,
    int_fields, lemma_absorb_bytes, lemma_absorb_int, merge_nested, nested_bytes, read_bytes,
    read_i32, read_i64, read_ints, read_nested, read_text, text_bytes, Field, FieldView, Fields,
    Malformed, Message, Schema,
};
use crate::text::{opt_view, seq_view};
use vstd::prelude::*;
use vstd::slice::slice_to_vec;

verus! {

pub const CONNECTION_REQUEST: i32 = 1;
pub const CONNECTION_RESPONSE: i32 = 2;
pub const PAYLOAD_TRANSFER: i32 = 3;
pub const KEEP_ALIVE: i32 = 5;
pub const DISCONNECTION: i32 = 6;

pub const WIFI_LAN: i32 = 5;
pub const ACCEPT: i32 = 1;
pub const STATUS_OK: i32 = 0;

pub const PACKET_DATA: i32 = 1;
pub const PACKET_ACK: i32 = 3;
pub const BYTES: i32 = 1;
pub const FILE: i32 = 2;
pub const LAST_CHUNK: i32 = 1;

#[derive(Debug, Clone, PartialEq)]
pub struct KeepAliveFrame {}

pub ghost struct KeepAliveFrameView {}

impl View for KeepAliveFrame {
    type V = KeepAliveFrameView;

    open spec fn view(&self) -> KeepAliveFrameView {
        KeepAliveFrameView {
        }
    }
}

impl Schema for KeepAliveFrame {
    open spec fn blank() -> KeepAliveFrameView {
        KeepAliveFrameView {  }
    }

    open spec fn step(m: KeepAliveFrameView, field: FieldView) -> Option<KeepAliveFrameView> {
        Some(m)
    }

    open spec fn listed(m: KeepAliveFrameView) -> Seq<FieldView> {
        Seq::empty()
    }
}

impl Message for KeepAliveFrame {
    fn empty() -> Self {
        KeepAliveFrame {  }
    }

    fn merge_field(&mut self, field: &Field) -> Result<(), Malformed> {
        Ok(())
    }

    fn to_fields(&self) -> Fields {
        let fields = Fields::new();
        assert(absorb::<Self>(Self::blank(), fields@) == Some(Self::blank()));
        assert(self@ == Self::blank());
        fields
    }
}

#[derive(Debug, Clone, PartialEq)]
pub struct DisconnectionFrame {}

pub ghost struct DisconnectionFrameView {}

impl View for DisconnectionFrame {
    type V = DisconnectionFrameView;

    open spec fn view(&self) -> DisconnectionFrameView {
        DisconnectionFrameView {
        }
    }
}

impl Schema for DisconnectionFrame {
    open spec fn blank() -> DisconnectionFrameView {
        DisconnectionFrameView {  }
    }

    open spec fn step(m: DisconnectionFrameView, field: FieldView) -> Option<DisconnectionFrameView> {
        Some(m)
    }

    open spec fn listed(m: DisconnectionFrameView) -> Seq<FieldView> {
        Seq::empty()
    }
}

impl Message for DisconnectionFrame {
    fn empty() -> Self {
        DisconnectionFrame {  }
    }

    fn merge_field(&mut self, field: &Field) -> Result<(), Malformed> {
        Ok(())
    }

    fn to_fields(&self) -> Fields {
        let fields = Fields::new();
        assert(absorb::<Self>(Self::blank(), fields@) == Some(Self::blank()));
        assert(self@ == Self::blank());
        fields
    }
}

#[derive(Debug, Clone, PartialEq)]
pub struct PayloadChunk {
    pub flags: Option<i32>,
    pub offset: Option<i64>,
    pub body: Option<Vec<u8>>,
}

pub ghost struct PayloadChunkView {
    pub flags: Option<i32>,
    pub offset: Option<i64>,
    pub body: Option<Seq<u8>>,
}

impl View for PayloadChunk {
    type V = PayloadChunkView;

    open spec fn view(&self) -> PayloadChunkView {
        PayloadChunkView {
            flags: self.flags,
            offset: self.offset,
            body: opt_view(self.body),
        }
    }
}

impl Schema for PayloadChunk {
    open spec fn blank() -> PayloadChunkView {
        PayloadChunkView { flags: None, offset: None, body: None }
    }

    open spec fn step(m: PayloadChunkView, field: FieldView) -> Option<PayloadChunkView> {
        if field.tag == 1 {
            match read_i32(field.value) {
                Some(value) => Some(PayloadChunkView { flags: Some(value), ..m }),
                None => None,
            }
        } else if field.tag == 2 {
            match read_i64(field.value) {
                Some(value) => Some(PayloadChunkView { offset: Some(value), ..m }),
                None => None,
            }
        } else if field.tag == 3 {
            match read_bytes(field.value) {
                Some(value) => Some(PayloadChunkView { body: Some(value), ..m }),
                None => None,
            }
        } else {
            Some(m)
        }
    }

    open spec fn listed(m: PayloadChunkView) -> Seq<FieldView> {
        Seq::empty() + int_field(1, i32_wire(m.flags)) + int_field(2, i64_wire(m.offset)) + bytes_field(3, m.body)
    }
}

impl Message for PayloadChunk {
    fn empty() -> Self {
        PayloadChunk { flags: None, offset: None, body: None }
    }

    fn merge_field(&mut self, field: &Field) -> Result<(), Malformed> {
        if field.tag == 1 {
            self.flags = Some(field.value.as_i32()?);
        } else if field.tag == 2 {
            self.offset = Some(field.value.as_i64()?);
        } else if field.tag == 3 {
            self.body = Some(slice_to_vec(field.value.as_bytes()?));
        }
        Ok(())
    }

    fn to_fields(&self) -> Fields {
        broadcast use group_wire;

        let mut fields = Fields::new();
        let ghost before = fields@;
        fields.put_i32(1, self.flags);
        proof {
            lemma_absorb_int::<Self>(Self::blank(), before, 1, i32_wire(self.flags));
        }
        let ghost before = fields@;
        fields.put_i64(2, self.offset);
        proof {
            lemma_absorb_int::<Self>(Self::blank(), before, 2, i64_wire(self.offset));
        }
        let ghost before = fields@;
        fields.put_data(3, &self.body);
        proof {
            lemma_absorb_bytes::<Self>(Self::blank(), before, 3, self@.body);
        }
        fields
    }
}

#[derive(Debug, Clone, PartialEq)]
pub struct PayloadHeader {
    pub id: Option<i64>,
    pub payload_type: Option<i32>,
    pub total_size: Option<i64>,
    pub file_name: Option<String>,
}

pub ghost struct PayloadHeaderView {
    pub id: Option<i64>,
    pub payload_type: Option<i32>,
    pub total_size: Option<i64>,
    pub file_name: Option<Seq<char>>,
}

impl View for PayloadHeader {
    type V = PayloadHeaderView;

    open spec fn view(&self) -> PayloadHeaderView {
        PayloadHeaderView {
            id: self.id,
            payload_type: self.payload_type,
            total_size: self.total_size,
            file_name: opt_view(self.file_name),
        }
    }
}

impl Schema for PayloadHeader {
    open spec fn blank() -> PayloadHeaderView {
        PayloadHeaderView { id: None, payload_type: None, total_size: None, file_name: None }
    }

    open spec fn step(m: PayloadHeaderView, field: FieldView) -> Option<PayloadHeaderView> {
        if field.tag == 1 {
            match read_i64(field.value) {
                Some(value) => Some(PayloadHeaderView { id: Some(value), ..m }),
                None => None,
            }
        } else if field.tag == 2 {
            match read_i32(field.value) {
                Some(value) => Some(PayloadHeaderView { payload_type: Some(value), ..m }),
                None => None,
            }
        } else if field.tag == 3 {
            match read_i64(field.value) {
                Some(value) => Some(PayloadHeaderView { total_size: Some(value), ..m }),
                None => None,
            }
        } else if field.tag == 5 {
            match read_text(field.value) {
                Some(value) => Some(PayloadHeaderView { file_name: Some(value), ..m }),
                None => None,
            }
        } else {
            Some(m)
        }
    }

    open spec fn listed(m: PayloadHeaderView) -> Seq<FieldView> {
        Seq::empty() + int_field(1, i64_wire(m.id)) + int_field(2, i32_wire(m.payload_type)) + int_field(3, i64_wire(m.total_size)) + bytes_field(5, text_bytes(m.file_name))
    }
}

impl Message for PayloadHeader {
    fn empty() -> Self {
        PayloadHeader { id: None, payload_type: None, total_size: None, file_name: None }
    }

    fn merge_field(&mut self, field: &Field) -> Result<(), Malformed> {
        if field.tag == 1 {
            self.id = Some(field.value.as_i64()?);
        } else if field.tag == 2 {
            self.payload_type = Some(field.value.as_i32()?);
        } else if field.tag == 3 {
            self.total_size = Some(field.value.as_i64()?);
        } else if field.tag == 5 {
            self.file_name = Some(field.value.as_text()?);
        }
        Ok(())
    }

    fn to_fields(&self) -> Fields {
        broadcast use group_wire;

        let mut fields = Fields::new();
        let ghost before = fields@;
        fields.put_i64(1, self.id);
        proof {
            lemma_absorb_int::<Self>(Self::blank(), before, 1, i64_wire(self.id));
        }
        let ghost before = fields@;
        fields.put_i32(2, self.payload_type);
        proof {
            lemma_absorb_int::<Self>(Self::blank(), before, 2, i32_wire(self.payload_type));
        }
        let ghost before = fields@;
        fields.put_i64(3, self.total_size);
        proof {
            lemma_absorb_int::<Self>(Self::blank(), before, 3, i64_wire(self.total_size));
        }
        let ghost before = fields@;
        fields.put_text(5, &self.file_name);
        proof {
            lemma_absorb_bytes::<Self>(Self::blank(), before, 5, text_bytes(self@.file_name));
        }
        fields
    }
}

#[derive(Debug, Clone, PartialEq)]
pub struct PayloadTransferFrame {
    pub packet_type: Option<i32>,
    pub payload_header: Option<PayloadHeader>,
    pub payload_chunk: Option<PayloadChunk>,
}

pub ghost struct PayloadTransferFrameView {
    pub packet_type: Option<i32>,
    pub payload_header: Option<PayloadHeaderView>,
    pub payload_chunk: Option<PayloadChunkView>,
}

impl View for PayloadTransferFrame {
    type V = PayloadTransferFrameView;

    open spec fn view(&self) -> PayloadTransferFrameView {
        PayloadTransferFrameView {
            packet_type: self.packet_type,
            payload_header: opt_view(self.payload_header),
            payload_chunk: opt_view(self.payload_chunk),
        }
    }
}

impl Schema for PayloadTransferFrame {
    open spec fn blank() -> PayloadTransferFrameView {
        PayloadTransferFrameView { packet_type: None, payload_header: None, payload_chunk: None }
    }

    open spec fn step(m: PayloadTransferFrameView, field: FieldView) -> Option<PayloadTransferFrameView> {
        if field.tag == 1 {
            match read_i32(field.value) {
                Some(value) => Some(PayloadTransferFrameView { packet_type: Some(value), ..m }),
                None => None,
            }
        } else if field.tag == 2 {
            match read_nested::<PayloadHeader>(m.payload_header, field.value) {
                Some(value) => Some(PayloadTransferFrameView { payload_header: Some(value), ..m }),
                None => None,
            }
        } else if field.tag == 3 {
            match read_nested::<PayloadChunk>(m.payload_chunk, field.value) {
                Some(value) => Some(PayloadTransferFrameView { payload_chunk: Some(value), ..m }),
                None => None,
            }
        } else {
            Some(m)
        }
    }

    open spec fn listed(m: PayloadTransferFrameView) -> Seq<FieldView> {
        Seq::empty() + int_field(1, i32_wire(m.packet_type)) + bytes_field(2, nested_bytes::<PayloadHeader>(m.payload_header)) + bytes_field(3, nested_bytes::<PayloadChunk>(m.payload_chunk))
    }
}

impl Message for PayloadTransferFrame {
    fn empty() -> Self {
        PayloadTransferFrame { packet_type: None, payload_header: None, payload_chunk: None }
    }

    fn merge_field(&mut self, field: &Field) -> Result<(), Malformed> {
        if field.tag == 1 {
            self.packet_type = Some(field.value.as_i32()?);
        } else if field.tag == 2 {
            merge_nested(&mut self.payload_header, &field.value)?;
        } else if field.tag == 3 {
            merge_nested(&mut self.payload_chunk, &field.value)?;
        }
        Ok(())
    }

    fn to_fields(&self) -> Fields {
        broadcast use group_wire;

        let mut fields = Fields::new();
        let ghost before = fields@;
        fields.put_i32(1, self.packet_type);
        proof {
            lemma_absorb_int::<Self>(Self::blank(), before, 1, i32_wire(self.packet_type));
        }
        let ghost before = fields@;
        fields.put_bytes(2, encode_nested(&self.payload_header));
        proof {
            lemma_absorb_bytes::<Self>(Self::blank(), before, 2, nested_bytes::<PayloadHeader>(self@.payload_header));
        }
        let ghost before = fields@;
        fields.put_bytes(3, encode_nested(&self.payload_chunk));
        proof {
            lemma_absorb_bytes::<Self>(Self::blank(), before, 3, nested_bytes::<PayloadChunk>(self@.payload_chunk));
        }
        fields
    }
}

#[derive(Debug, Clone, PartialEq)]
pub struct ConnectionResponseFrame {
    pub status: Option<i32>,
    pub response: Option<i32>,
}

pub ghost struct ConnectionResponseFrameView {
    pub status: Option<i32>,
    pub response: Option<i32>,
}

impl View for ConnectionResponseFrame {
    type V = ConnectionResponseFrameView;

    open spec fn view(&self) -> ConnectionResponseFrameView {
        ConnectionResponseFrameView {
            status: self.status,
            response: self.response,
        }
    }
}

impl Schema for ConnectionResponseFrame {
    open spec fn blank() -> ConnectionResponseFrameView {
        ConnectionResponseFrameView { status: None, response: None }
    }

    open spec fn step(m: ConnectionResponseFrameView, field: FieldView) -> Option<ConnectionResponseFrameView> {
        if field.tag == 1 {
            match read_i32(field.value) {
                Some(value) => Some(ConnectionResponseFrameView { status: Some(value), ..m }),
                None => None,
            }
        } else if field.tag == 3 {
            match read_i32(field.value) {
                Some(value) => Some(ConnectionResponseFrameView { response: Some(value), ..m }),
                None => None,
            }
        } else {
            Some(m)
        }
    }

    open spec fn listed(m: ConnectionResponseFrameView) -> Seq<FieldView> {
        Seq::empty() + int_field(1, i32_wire(m.status)) + int_field(3, i32_wire(m.response))
    }
}

impl Message for ConnectionResponseFrame {
    fn empty() -> Self {
        ConnectionResponseFrame { status: None, response: None }
    }

    fn merge_field(&mut self, field: &Field) -> Result<(), Malformed> {
        if field.tag == 1 {
            self.status = Some(field.value.as_i32()?);
        } else if field.tag == 3 {
            self.response = Some(field.value.as_i32()?);
        }
        Ok(())
    }

    fn to_fields(&self) -> Fields {
        broadcast use group_wire;

        let mut fields = Fields::new();
        let ghost before = fields@;
        fields.put_i32(1, self.status);
        proof {
            lemma_absorb_int::<Self>(Self::blank(), before, 1, i32_wire(self.status));
        }
        let ghost before = fields@;
        fields.put_i32(3, self.response);
        proof {
            lemma_absorb_int::<Self>(Self::blank(), before, 3, i32_wire(self.response));
        }
        fields
    }
}

#[derive(Debug, Clone, PartialEq)]
pub struct ConnectionRequestFrame {
    pub endpoint_id: Option<String>,
    pub endpoint_name: Option<String>,
    pub nonce: Option<i32>,
    pub mediums: Vec<i32>,
    pub endpoint_info: Option<Vec<u8>>,
    pub keep_alive_interval_millis: Option<i32>,
    pub keep_alive_timeout_millis: Option<i32>,
}

pub ghost struct ConnectionRequestFrameView {
    pub endpoint_id: Option<Seq<char>>,
    pub endpoint_name: Option<Seq<char>>,
    pub nonce: Option<i32>,
    pub mediums: Seq<i32>,
    pub endpoint_info: Option<Seq<u8>>,
    pub keep_alive_interval_millis: Option<i32>,
    pub keep_alive_timeout_millis: Option<i32>,
}

impl View for ConnectionRequestFrame {
    type V = ConnectionRequestFrameView;

    open spec fn view(&self) -> ConnectionRequestFrameView {
        ConnectionRequestFrameView {
            endpoint_id: opt_view(self.endpoint_id),
            endpoint_name: opt_view(self.endpoint_name),
            nonce: self.nonce,
            mediums: self.mediums@,
            endpoint_info: opt_view(self.endpoint_info),
            keep_alive_interval_millis: self.keep_alive_interval_millis,
            keep_alive_timeout_millis: self.keep_alive_timeout_millis,
        }
    }
}

impl Schema for ConnectionRequestFrame {
    open spec fn blank() -> ConnectionRequestFrameView {
        ConnectionRequestFrameView { endpoint_id: None, endpoint_name: None, nonce: None, mediums: Seq::empty(), endpoint_info: None, keep_alive_interval_millis: None, keep_alive_timeout_millis: None }
    }

    open spec fn step(m: ConnectionRequestFrameView, field: FieldView) -> Option<ConnectionRequestFrameView> {
        if field.tag == 1 {
            match read_text(field.value) {
                Some(value) => Some(ConnectionRequestFrameView { endpoint_id: Some(value), ..m }),
                None => None,
            }
        } else if field.tag == 2 {
            match read_text(field.value) {
                Some(value) => Some(ConnectionRequestFrameView { endpoint_name: Some(value), ..m }),
                None => None,
            }
        } else if field.tag == 4 {
            match read_i32(field.value) {
                Some(value) => Some(ConnectionRequestFrameView { nonce: Some(value), ..m }),
                None => None,
            }
        } else if field.tag == 5 {
            match read_ints(field.value) {
                Some(values) => Some(ConnectionRequestFrameView { mediums: m.mediums + values, ..m }),
                None => None,
            }
        } else if field.tag == 6 {
            match read_bytes(field.value) {
                Some(value) => Some(ConnectionRequestFrameView { endpoint_info: Some(value), ..m }),
                None => None,
            }
        } else if field.tag == 8 {
            match read_i32(field.value) {
                Some(value) => Some(ConnectionRequestFrameView { keep_alive_interval_millis: Some(value), ..m }),
                None => None,
            }
        } else if field.tag == 9 {
            match read_i32(field.value) {
                Some(value) => Some(ConnectionRequestFrameView { keep_alive_timeout_millis: Some(value), ..m }),
                None => None,
            }
        } else {
            Some(m)
        }
    }

    open spec fn listed(m: ConnectionRequestFrameView) -> Seq<FieldView> {
        Seq::empty() + bytes_field(1, text_bytes(m.endpoint_id)) + bytes_field(2, text_bytes(m.endpoint_name)) + int_field(4, i32_wire(m.nonce)) + int_fields(5, m.mediums) + bytes_field(6, m.endpoint_info) + int_field(8, i32_wire(m.keep_alive_interval_millis)) + int_field(9, i32_wire(m.keep_alive_timeout_millis))
    }
}

impl Message for ConnectionRequestFrame {
    fn empty() -> Self {
        let message = ConnectionRequestFrame { endpoint_id: None, endpoint_name: None, nonce: None, mediums: Vec::new(), endpoint_info: None, keep_alive_interval_millis: None, keep_alive_timeout_millis: None };
        assert(message@ =~= Self::blank());
        message
    }

    fn merge_field(&mut self, field: &Field) -> Result<(), Malformed> {
        if field.tag == 1 {
            self.endpoint_id = Some(field.value.as_text()?);
        } else if field.tag == 2 {
            self.endpoint_name = Some(field.value.as_text()?);
        } else if field.tag == 4 {
            self.nonce = Some(field.value.as_i32()?);
        } else if field.tag == 5 {
            let mut values = field.value.as_ints()?;
            self.mediums.append(&mut values);
        } else if field.tag == 6 {
            self.endpoint_info = Some(slice_to_vec(field.value.as_bytes()?));
        } else if field.tag == 8 {
            self.keep_alive_interval_millis = Some(field.value.as_i32()?);
        } else if field.tag == 9 {
            self.keep_alive_timeout_millis = Some(field.value.as_i32()?);
        }
        Ok(())
    }

    fn to_fields(&self) -> Fields {
        broadcast use group_wire;

        let mut fields = Fields::new();
        let ghost before = fields@;
        fields.put_text(1, &self.endpoint_id);
        proof {
            lemma_absorb_bytes::<Self>(Self::blank(), before, 1, text_bytes(self@.endpoint_id));
        }
        let ghost before = fields@;
        fields.put_text(2, &self.endpoint_name);
        proof {
            lemma_absorb_bytes::<Self>(Self::blank(), before, 2, text_bytes(self@.endpoint_name));
        }
        let ghost before = fields@;
        fields.put_i32(4, self.nonce);
        proof {
            lemma_absorb_int::<Self>(Self::blank(), before, 4, i32_wire(self.nonce));
        }
        let ghost before = fields@;
        assert(self@.mediums.take(0) =~= Seq::empty());
        assert(before + int_fields(5, self@.mediums.take(0)) =~= before);
        for i in 0..self.mediums.len()
            invariant
                fields@ == before + int_fields(5, self@.mediums.take(i as int)),
                all_writable(fields@),
                self@.mediums.len() == self.mediums@.len(),
                absorb::<Self>(Self::blank(), fields@) == Some(
                    ConnectionRequestFrameView { endpoint_id: self@.endpoint_id, endpoint_name: self@.endpoint_name, nonce: self@.nonce, mediums: self@.mediums.take(i as int), ..Self::blank() },
                ),
        {
            let ghost held = fields@;
            fields.put_i32(5, Some(self.mediums[i]));
            proof {
                lemma_absorb_int::<Self>(Self::blank(), held, 5, i32_wire(Some(self.mediums@[i as int])));
                assert(self@.mediums.take(i as int) + seq![self@.mediums[i as int]] =~= self@.mediums.take(i + 1));
                assert(before + int_fields(5, self@.mediums.take(i + 1)) =~= fields@);
            }
        }
        assert(self@.mediums.take(self@.mediums.len() as int) =~= self@.mediums);
        let ghost before = fields@;
        fields.put_data(6, &self.endpoint_info);
        proof {
            lemma_absorb_bytes::<Self>(Self::blank(), before, 6, self@.endpoint_info);
        }
        let ghost before = fields@;
        fields.put_i32(8, self.keep_alive_interval_millis);
        proof {
            lemma_absorb_int::<Self>(Self::blank(), before, 8, i32_wire(self.keep_alive_interval_millis));
        }
        let ghost before = fields@;
        fields.put_i32(9, self.keep_alive_timeout_millis);
        proof {
            lemma_absorb_int::<Self>(Self::blank(), before, 9, i32_wire(self.keep_alive_timeout_millis));
        }
        fields
    }
}

#[derive(Debug, Clone, PartialEq)]
pub struct V1Frame {
    pub frame_type: Option<i32>,
    pub connection_request: Option<ConnectionRequestFrame>,
    pub connection_response: Option<ConnectionResponseFrame>,
    pub payload_transfer: Option<PayloadTransferFrame>,
    pub keep_alive: Option<KeepAliveFrame>,
    pub disconnection: Option<DisconnectionFrame>,
}

pub ghost struct V1FrameView {
    pub frame_type: Option<i32>,
    pub connection_request: Option<ConnectionRequestFrameView>,
    pub connection_response: Option<ConnectionResponseFrameView>,
    pub payload_transfer: Option<PayloadTransferFrameView>,
    pub keep_alive: Option<KeepAliveFrameView>,
    pub disconnection: Option<DisconnectionFrameView>,
}

impl View for V1Frame {
    type V = V1FrameView;

    open spec fn view(&self) -> V1FrameView {
        V1FrameView {
            frame_type: self.frame_type,
            connection_request: opt_view(self.connection_request),
            connection_response: opt_view(self.connection_response),
            payload_transfer: opt_view(self.payload_transfer),
            keep_alive: opt_view(self.keep_alive),
            disconnection: opt_view(self.disconnection),
        }
    }
}

impl Schema for V1Frame {
    open spec fn blank() -> V1FrameView {
        V1FrameView { frame_type: None, connection_request: None, connection_response: None, payload_transfer: None, keep_alive: None, disconnection: None }
    }

    open spec fn step(m: V1FrameView, field: FieldView) -> Option<V1FrameView> {
        if field.tag == 1 {
            match read_i32(field.value) {
                Some(value) => Some(V1FrameView { frame_type: Some(value), ..m }),
                None => None,
            }
        } else if field.tag == 2 {
            match read_nested::<ConnectionRequestFrame>(m.connection_request, field.value) {
                Some(value) => Some(V1FrameView { connection_request: Some(value), ..m }),
                None => None,
            }
        } else if field.tag == 3 {
            match read_nested::<ConnectionResponseFrame>(m.connection_response, field.value) {
                Some(value) => Some(V1FrameView { connection_response: Some(value), ..m }),
                None => None,
            }
        } else if field.tag == 4 {
            match read_nested::<PayloadTransferFrame>(m.payload_transfer, field.value) {
                Some(value) => Some(V1FrameView { payload_transfer: Some(value), ..m }),
                None => None,
            }
        } else if field.tag == 6 {
            match read_nested::<KeepAliveFrame>(m.keep_alive, field.value) {
                Some(value) => Some(V1FrameView { keep_alive: Some(value), ..m }),
                None => None,
            }
        } else if field.tag == 7 {
            match read_nested::<DisconnectionFrame>(m.disconnection, field.value) {
                Some(value) => Some(V1FrameView { disconnection: Some(value), ..m }),
                None => None,
            }
        } else {
            Some(m)
        }
    }

    open spec fn listed(m: V1FrameView) -> Seq<FieldView> {
        Seq::empty() + int_field(1, i32_wire(m.frame_type)) + bytes_field(2, nested_bytes::<ConnectionRequestFrame>(m.connection_request)) + bytes_field(3, nested_bytes::<ConnectionResponseFrame>(m.connection_response)) + bytes_field(4, nested_bytes::<PayloadTransferFrame>(m.payload_transfer)) + bytes_field(6, nested_bytes::<KeepAliveFrame>(m.keep_alive)) + bytes_field(7, nested_bytes::<DisconnectionFrame>(m.disconnection))
    }
}

impl Message for V1Frame {
    fn empty() -> Self {
        V1Frame { frame_type: None, connection_request: None, connection_response: None, payload_transfer: None, keep_alive: None, disconnection: None }
    }

    fn merge_field(&mut self, field: &Field) -> Result<(), Malformed> {
        if field.tag == 1 {
            self.frame_type = Some(field.value.as_i32()?);
        } else if field.tag == 2 {
            merge_nested(&mut self.connection_request, &field.value)?;
        } else if field.tag == 3 {
            merge_nested(&mut self.connection_response, &field.value)?;
        } else if field.tag == 4 {
            merge_nested(&mut self.payload_transfer, &field.value)?;
        } else if field.tag == 6 {
            merge_nested(&mut self.keep_alive, &field.value)?;
        } else if field.tag == 7 {
            merge_nested(&mut self.disconnection, &field.value)?;
        }
        Ok(())
    }

    fn to_fields(&self) -> Fields {
        broadcast use group_wire;

        let mut fields = Fields::new();
        let ghost before = fields@;
        fields.put_i32(1, self.frame_type);
        proof {
            lemma_absorb_int::<Self>(Self::blank(), before, 1, i32_wire(self.frame_type));
        }
        let ghost before = fields@;
        fields.put_bytes(2, encode_nested(&self.connection_request));
        proof {
            lemma_absorb_bytes::<Self>(Self::blank(), before, 2, nested_bytes::<ConnectionRequestFrame>(self@.connection_request));
        }
        let ghost before = fields@;
        fields.put_bytes(3, encode_nested(&self.connection_response));
        proof {
            lemma_absorb_bytes::<Self>(Self::blank(), before, 3, nested_bytes::<ConnectionResponseFrame>(self@.connection_response));
        }
        let ghost before = fields@;
        fields.put_bytes(4, encode_nested(&self.payload_transfer));
        proof {
            lemma_absorb_bytes::<Self>(Self::blank(), before, 4, nested_bytes::<PayloadTransferFrame>(self@.payload_transfer));
        }
        let ghost before = fields@;
        fields.put_bytes(6, encode_nested(&self.keep_alive));
        proof {
            lemma_absorb_bytes::<Self>(Self::blank(), before, 6, nested_bytes::<KeepAliveFrame>(self@.keep_alive));
        }
        let ghost before = fields@;
        fields.put_bytes(7, encode_nested(&self.disconnection));
        proof {
            lemma_absorb_bytes::<Self>(Self::blank(), before, 7, nested_bytes::<DisconnectionFrame>(self@.disconnection));
        }
        fields
    }
}

#[derive(Debug, Clone, PartialEq)]
pub struct OfflineFrame {
    pub version: Option<i32>,
    pub v1: Option<V1Frame>,
}

pub ghost struct OfflineFrameView {
    pub version: Option<i32>,
    pub v1: Option<V1FrameView>,
}

impl View for OfflineFrame {
    type V = OfflineFrameView;

    open spec fn view(&self) -> OfflineFrameView {
        OfflineFrameView {
            version: self.version,
            v1: opt_view(self.v1),
        }
    }
}

impl Schema for OfflineFrame {
    open spec fn blank() -> OfflineFrameView {
        OfflineFrameView { version: None, v1: None }
    }

    open spec fn step(m: OfflineFrameView, field: FieldView) -> Option<OfflineFrameView> {
        if field.tag == 1 {
            match read_i32(field.value) {
                Some(value) => Some(OfflineFrameView { version: Some(value), ..m }),
                None => None,
            }
        } else if field.tag == 2 {
            match read_nested::<V1Frame>(m.v1, field.value) {
                Some(value) => Some(OfflineFrameView { v1: Some(value), ..m }),
                None => None,
            }
        } else {
            Some(m)
        }
    }

    open spec fn listed(m: OfflineFrameView) -> Seq<FieldView> {
        Seq::empty() + int_field(1, i32_wire(m.version)) + bytes_field(2, nested_bytes::<V1Frame>(m.v1))
    }
}

impl Message for OfflineFrame {
    fn empty() -> Self {
        OfflineFrame { version: None, v1: None }
    }

    fn merge_field(&mut self, field: &Field) -> Result<(), Malformed> {
        if field.tag == 1 {
            self.version = Some(field.value.as_i32()?);
        } else if field.tag == 2 {
            merge_nested(&mut self.v1, &field.value)?;
        }
        Ok(())
    }

    fn to_fields(&self) -> Fields {
        broadcast use group_wire;

        let mut fields = Fields::new();
        let ghost before = fields@;
        fields.put_i32(1, self.version);
        proof {
            lemma_absorb_int::<Self>(Self::blank(), before, 1, i32_wire(self.version));
        }
        let ghost before = fields@;
        fields.put_bytes(2, encode_nested(&self.v1));
        proof {
            lemma_absorb_bytes::<Self>(Self::blank(), before, 2, nested_bytes::<V1Frame>(self@.v1));
        }
        fields
    }
}

/// A frame of version 1 that holds `v1` under the given type.
pub open spec fn frame_of(frame_type: i32, v1: V1FrameView) -> OfflineFrameView {
    OfflineFrameView { version: Some(1), v1: Some(V1FrameView { frame_type: Some(frame_type), ..v1 }) }
}

/// The frame that accepts a connection.
pub open spec fn connection_response_frame() -> OfflineFrameView {
    frame_of(
        CONNECTION_RESPONSE,
        V1FrameView {
            connection_response: Some(
                ConnectionResponseFrameView { status: Some(STATUS_OK), response: Some(ACCEPT) },
            ),
            ..V1Frame::blank()
        },
    )
}

pub open spec fn keep_alive_frame() -> OfflineFrameView {
    frame_of(
        KEEP_ALIVE,
        V1FrameView { keep_alive: Some(KeepAliveFrame::blank()), ..V1Frame::blank() },
    )
}

pub open spec fn disconnect_frame() -> OfflineFrameView {
    frame_of(
        DISCONNECTION,
        V1FrameView { disconnection: Some(DisconnectionFrame::blank()), ..V1Frame::blank() },
    )
}

/// The frame that carries a part of a payload.
pub open spec fn payload_frame(transfer: PayloadTransferFrameView) -> OfflineFrameView {
    frame_of(
        PAYLOAD_TRANSFER,
        V1FrameView { payload_transfer: Some(transfer), ..V1Frame::blank() },
    )
}

/// The frame that carries `body`, the bytes of a payload from `offset` on.
pub open spec fn data_frame_of(
    id: i64,
    payload_type: i32,
    total: i64,
    offset: i64,
    body: Seq<u8>,
    flags: i32,
    name: Option<Seq<char>>,
) -> OfflineFrameView {
    payload_frame(
        PayloadTransferFrameView {
            packet_type: Some(PACKET_DATA),
            payload_header: Some(
                PayloadHeaderView {
                    id: Some(id),
                    payload_type: Some(payload_type),
                    total_size: Some(total),
                    file_name: name,
                },
            ),
            payload_chunk: Some(
                PayloadChunkView { flags: Some(flags), offset: Some(offset), body: Some(body) },
            ),
        },
    )
}

/// The two frames of a payload of bytes: all of it, then an empty last chunk.
pub open spec fn bytes_payload_frames(id: i64, data: Seq<u8>) -> Seq<OfflineFrameView> {
    let total = data.len() as i64;
    seq![
        data_frame_of(id, BYTES, total, 0, data, 0, None),
        data_frame_of(id, BYTES, total, total, Seq::empty(), LAST_CHUNK, None),
    ]
}

/// One chunk of a file.
pub open spec fn file_chunk_frame(
    id: i64,
    total: i64,
    offset: i64,
    body: Seq<u8>,
    last: bool,
    name: Seq<char>,
) -> OfflineFrameView {
    data_frame_of(id, FILE, total, offset, body, if last { LAST_CHUNK } else { 0 }, Some(name))
}

/// The frame that acknowledges a payload.
pub open spec fn payload_ack_frame(id: i64, payload_type: i32, total: i64) -> OfflineFrameView {
    payload_frame(
        PayloadTransferFrameView {
            packet_type: Some(PACKET_ACK),
            payload_header: Some(
                PayloadHeaderView {
                    id: Some(id),
                    payload_type: Some(payload_type),
                    total_size: Some(total),
                    file_name: None,
                },
            ),
            payload_chunk: None,
        },
    )
}

impl OfflineFrame {
    pub fn new(frame_type: i32, v1: V1Frame) -> (frame: Self)
        ensures
            frame@ == frame_of(frame_type, v1@),
    {
        Self { version: Some(1), v1: Some(V1Frame { frame_type: Some(frame_type), ..v1 }) }
    }

    pub fn connection_response() -> (frame: Self)
        ensures
            frame@ == connection_response_frame(),
    {
        Self::new(
            CONNECTION_RESPONSE,
            V1Frame {
                connection_response: Some(
                    ConnectionResponseFrame { status: Some(STATUS_OK), response: Some(ACCEPT) },
                ),
                ..V1Frame::empty()
            },
        )
    }

    pub fn keep_alive() -> (frame: Self)
        ensures
            frame@ == keep_alive_frame(),
    {
        Self::new(
            KEEP_ALIVE,
            V1Frame { keep_alive: Some(KeepAliveFrame::empty()), ..V1Frame::empty() },
        )
    }

    pub fn disconnect() -> (frame: Self)
        ensures
            frame@ == disconnect_frame(),
    {
        Self::new(
            DISCONNECTION,
            V1Frame { disconnection: Some(DisconnectionFrame::empty()), ..V1Frame::empty() },
        )
    }

    pub fn payload(transfer: PayloadTransferFrame) -> (frame: Self)
        ensures
            frame@ == payload_frame(transfer@),
    {
        Self::new(
            PAYLOAD_TRANSFER,
            V1Frame { payload_transfer: Some(transfer), ..V1Frame::empty() },
        )
    }
}

pub fn bytes_payload(id: i64, data: &[u8]) -> (frames: [OfflineFrame; 2])
    requires
        data@.len() <= i64::MAX,
    ensures
        seq_view(frames@) == bytes_payload_frames(id, data@),
{
    let total: i64 = data.len() as i64;
    let first = data_frame(id, BYTES, total, 0, slice_to_vec(data), 0, None);
    let second = data_frame(id, BYTES, total, total, Vec::new(), LAST_CHUNK, None);
    [first, second]
}

pub fn file_chunk(
    id: i64,
    total: i64,
    offset: i64,
    body: &[u8],
    last: bool,
    name: &str,
) -> (frame: OfflineFrame)
    ensures
        frame@ == file_chunk_frame(id, total, offset, body@, last, name@),
{
    data_frame(
        id,
        FILE,
        total,
        offset,
        slice_to_vec(body),
        if last {
            LAST_CHUNK
        } else {
            0
        },
        Some(name.to_owned()),
    )
}

pub fn payload_ack(id: i64, payload_type: i32, total: i64) -> (frame: OfflineFrame)
    ensures
        frame@ == payload_ack_frame(id, payload_type, total),
{
    OfflineFrame::payload(
        PayloadTransferFrame {
            packet_type: Some(PACKET_ACK),
            payload_header: Some(
                PayloadHeader {
                    id: Some(id),
                    payload_type: Some(payload_type),
                    total_size: Some(total),
                    file_name: None,
                },
            ),
            payload_chunk: None,
        },
    )
}

fn data_frame(
    id: i64,
    payload_type: i32,
    total: i64,
    offset: i64,
    body: Vec<u8>,
    flags: i32,
    name: Option<String>,
) -> (frame: OfflineFrame)
    ensures
        frame@ == data_frame_of(id, payload_type, total, offset, body@, flags, opt_view(name)),
{
    OfflineFrame::payload(
        PayloadTransferFrame {
            packet_type: Some(PACKET_DATA),
            payload_header: Some(
                PayloadHeader {
                    id: Some(id),
                    payload_type: Some(payload_type),
                    total_size: Some(total),
                    file_name: name,
                },
            ),
            payload_chunk: Some(
                PayloadChunk { flags: Some(flags), offset: Some(offset), body: Some(body) },
            ),
        },
    )
}

} // verus!
