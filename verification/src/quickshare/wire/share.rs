//! Frames of Quick Share, which travel as payloads of Nearby Connections.

use crate::quickshare::proto::{
    absorb, all_writable, bytes_field, encode_nested, group_wire, i32_wire, i64_wire, int_field,
    lemma_absorb_bytes, lemma_absorb_int, merge_nested, message_fields, nested_bytes, read_bytes,
    read_i32, read_i64, read_nested, read_text, text_bytes, Field, FieldView, Fields, Malformed,
    Message, Schema,
};
use crate::text::{opt_view, seq_view};
use vstd::prelude::*;
use vstd::slice::slice_to_vec;

verus! {

pub const INTRODUCTION: i32 = 1;
pub const RESPONSE: i32 = 2;
pub const PAIRED_KEY_ENCRYPTION: i32 = 3;
pub const PAIRED_KEY_RESULT: i32 = 4;
pub const CANCEL: i32 = 6;

pub const ACCEPT: i32 = 1;
pub const REJECT: i32 = 2;
pub const NOT_ENOUGH_SPACE: i32 = 3;
pub const UNABLE: i32 = 3;

#[derive(Debug, Clone, PartialEq)]
pub struct FileMetadata {
    pub name: Option<String>,
    pub file_type: Option<i32>,
    pub payload_id: Option<i64>,
    pub size: Option<i64>,
    pub mime_type: Option<String>,
    pub id: Option<i64>,
}

pub ghost struct FileMetadataView {
    pub name: Option<Seq<char>>,
    pub file_type: Option<i32>,
    pub payload_id: Option<i64>,
    pub size: Option<i64>,
    pub mime_type: Option<Seq<char>>,
    pub id: Option<i64>,
}

impl View for FileMetadata {
    type V = FileMetadataView;

    open spec fn view(&self) -> FileMetadataView {
        FileMetadataView {
            name: opt_view(self.name),
            file_type: self.file_type,
            payload_id: self.payload_id,
            size: self.size,
            mime_type: opt_view(self.mime_type),
            id: self.id,
        }
    }
}

impl Schema for FileMetadata {
    open spec fn blank() -> FileMetadataView {
        FileMetadataView { name: None, file_type: None, payload_id: None, size: None, mime_type: None, id: None }
    }

    open spec fn step(m: FileMetadataView, field: FieldView) -> Option<FileMetadataView> {
        if field.tag == 1 {
            match read_text(field.value) {
                Some(value) => Some(FileMetadataView { name: Some(value), ..m }),
                None => None,
            }
        } else if field.tag == 2 {
            match read_i32(field.value) {
                Some(value) => Some(FileMetadataView { file_type: Some(value), ..m }),
                None => None,
            }
        } else if field.tag == 3 {
            match read_i64(field.value) {
                Some(value) => Some(FileMetadataView { payload_id: Some(value), ..m }),
                None => None,
            }
        } else if field.tag == 4 {
            match read_i64(field.value) {
                Some(value) => Some(FileMetadataView { size: Some(value), ..m }),
                None => None,
            }
        } else if field.tag == 5 {
            match read_text(field.value) {
                Some(value) => Some(FileMetadataView { mime_type: Some(value), ..m }),
                None => None,
            }
        } else if field.tag == 6 {
            match read_i64(field.value) {
                Some(value) => Some(FileMetadataView { id: Some(value), ..m }),
                None => None,
            }
        } else {
            Some(m)
        }
    }

    open spec fn listed(m: FileMetadataView) -> Seq<FieldView> {
        Seq::empty() + bytes_field(1, text_bytes(m.name)) + int_field(2, i32_wire(m.file_type)) + int_field(3, i64_wire(m.payload_id)) + int_field(4, i64_wire(m.size)) + bytes_field(5, text_bytes(m.mime_type)) + int_field(6, i64_wire(m.id))
    }
}

impl Message for FileMetadata {
    fn empty() -> Self {
        FileMetadata { name: None, file_type: None, payload_id: None, size: None, mime_type: None, id: None }
    }

    fn merge_field(&mut self, field: &Field) -> Result<(), Malformed> {
        if field.tag == 1 {
            self.name = Some(field.value.as_text()?);
        } else if field.tag == 2 {
            self.file_type = Some(field.value.as_i32()?);
        } else if field.tag == 3 {
            self.payload_id = Some(field.value.as_i64()?);
        } else if field.tag == 4 {
            self.size = Some(field.value.as_i64()?);
        } else if field.tag == 5 {
            self.mime_type = Some(field.value.as_text()?);
        } else if field.tag == 6 {
            self.id = Some(field.value.as_i64()?);
        }
        Ok(())
    }

    fn to_fields(&self) -> Fields {
        broadcast use group_wire;

        let mut fields = Fields::new();
        let ghost before = fields@;
        fields.put_text(1, &self.name);
        proof {
            lemma_absorb_bytes::<Self>(Self::blank(), before, 1, text_bytes(self@.name));
        }
        let ghost before = fields@;
        fields.put_i32(2, self.file_type);
        proof {
            lemma_absorb_int::<Self>(Self::blank(), before, 2, i32_wire(self.file_type));
        }
        let ghost before = fields@;
        fields.put_i64(3, self.payload_id);
        proof {
            lemma_absorb_int::<Self>(Self::blank(), before, 3, i64_wire(self.payload_id));
        }
        let ghost before = fields@;
        fields.put_i64(4, self.size);
        proof {
            lemma_absorb_int::<Self>(Self::blank(), before, 4, i64_wire(self.size));
        }
        let ghost before = fields@;
        fields.put_text(5, &self.mime_type);
        proof {
            lemma_absorb_bytes::<Self>(Self::blank(), before, 5, text_bytes(self@.mime_type));
        }
        let ghost before = fields@;
        fields.put_i64(6, self.id);
        proof {
            lemma_absorb_int::<Self>(Self::blank(), before, 6, i64_wire(self.id));
        }
        fields
    }
}

#[derive(Debug, Clone, PartialEq)]
pub struct TextMetadata {
    pub text_title: Option<String>,
    pub text_type: Option<i32>,
    pub payload_id: Option<i64>,
    pub size: Option<i64>,
    pub id: Option<i64>,
}

pub ghost struct TextMetadataView {
    pub text_title: Option<Seq<char>>,
    pub text_type: Option<i32>,
    pub payload_id: Option<i64>,
    pub size: Option<i64>,
    pub id: Option<i64>,
}

impl View for TextMetadata {
    type V = TextMetadataView;

    open spec fn view(&self) -> TextMetadataView {
        TextMetadataView {
            text_title: opt_view(self.text_title),
            text_type: self.text_type,
            payload_id: self.payload_id,
            size: self.size,
            id: self.id,
        }
    }
}

impl Schema for TextMetadata {
    open spec fn blank() -> TextMetadataView {
        TextMetadataView { text_title: None, text_type: None, payload_id: None, size: None, id: None }
    }

    open spec fn step(m: TextMetadataView, field: FieldView) -> Option<TextMetadataView> {
        if field.tag == 2 {
            match read_text(field.value) {
                Some(value) => Some(TextMetadataView { text_title: Some(value), ..m }),
                None => None,
            }
        } else if field.tag == 3 {
            match read_i32(field.value) {
                Some(value) => Some(TextMetadataView { text_type: Some(value), ..m }),
                None => None,
            }
        } else if field.tag == 4 {
            match read_i64(field.value) {
                Some(value) => Some(TextMetadataView { payload_id: Some(value), ..m }),
                None => None,
            }
        } else if field.tag == 5 {
            match read_i64(field.value) {
                Some(value) => Some(TextMetadataView { size: Some(value), ..m }),
                None => None,
            }
        } else if field.tag == 6 {
            match read_i64(field.value) {
                Some(value) => Some(TextMetadataView { id: Some(value), ..m }),
                None => None,
            }
        } else {
            Some(m)
        }
    }

    open spec fn listed(m: TextMetadataView) -> Seq<FieldView> {
        Seq::empty() + bytes_field(2, text_bytes(m.text_title)) + int_field(3, i32_wire(m.text_type)) + int_field(4, i64_wire(m.payload_id)) + int_field(5, i64_wire(m.size)) + int_field(6, i64_wire(m.id))
    }
}

impl Message for TextMetadata {
    fn empty() -> Self {
        TextMetadata { text_title: None, text_type: None, payload_id: None, size: None, id: None }
    }

    fn merge_field(&mut self, field: &Field) -> Result<(), Malformed> {
        if field.tag == 2 {
            self.text_title = Some(field.value.as_text()?);
        } else if field.tag == 3 {
            self.text_type = Some(field.value.as_i32()?);
        } else if field.tag == 4 {
            self.payload_id = Some(field.value.as_i64()?);
        } else if field.tag == 5 {
            self.size = Some(field.value.as_i64()?);
        } else if field.tag == 6 {
            self.id = Some(field.value.as_i64()?);
        }
        Ok(())
    }

    fn to_fields(&self) -> Fields {
        broadcast use group_wire;

        let mut fields = Fields::new();
        let ghost before = fields@;
        fields.put_text(2, &self.text_title);
        proof {
            lemma_absorb_bytes::<Self>(Self::blank(), before, 2, text_bytes(self@.text_title));
        }
        let ghost before = fields@;
        fields.put_i32(3, self.text_type);
        proof {
            lemma_absorb_int::<Self>(Self::blank(), before, 3, i32_wire(self.text_type));
        }
        let ghost before = fields@;
        fields.put_i64(4, self.payload_id);
        proof {
            lemma_absorb_int::<Self>(Self::blank(), before, 4, i64_wire(self.payload_id));
        }
        let ghost before = fields@;
        fields.put_i64(5, self.size);
        proof {
            lemma_absorb_int::<Self>(Self::blank(), before, 5, i64_wire(self.size));
        }
        let ghost before = fields@;
        fields.put_i64(6, self.id);
        proof {
            lemma_absorb_int::<Self>(Self::blank(), before, 6, i64_wire(self.id));
        }
        fields
    }
}

#[derive(Debug, Clone, PartialEq)]
pub struct IntroductionFrame {
    pub file_metadata: Vec<FileMetadata>,
    pub text_metadata: Vec<TextMetadata>,
}

pub ghost struct IntroductionFrameView {
    pub file_metadata: Seq<FileMetadataView>,
    pub text_metadata: Seq<TextMetadataView>,
}

impl View for IntroductionFrame {
    type V = IntroductionFrameView;

    open spec fn view(&self) -> IntroductionFrameView {
        IntroductionFrameView {
            file_metadata: seq_view(self.file_metadata@),
            text_metadata: seq_view(self.text_metadata@),
        }
    }
}

impl Schema for IntroductionFrame {
    open spec fn blank() -> IntroductionFrameView {
        IntroductionFrameView { file_metadata: Seq::empty(), text_metadata: Seq::empty() }
    }

    open spec fn step(m: IntroductionFrameView, field: FieldView) -> Option<IntroductionFrameView> {
        if field.tag == 1 {
            match read_nested::<FileMetadata>(None, field.value) {
                Some(item) => Some(IntroductionFrameView { file_metadata: m.file_metadata.push(item), ..m }),
                None => None,
            }
        } else if field.tag == 2 {
            match read_nested::<TextMetadata>(None, field.value) {
                Some(item) => Some(IntroductionFrameView { text_metadata: m.text_metadata.push(item), ..m }),
                None => None,
            }
        } else {
            Some(m)
        }
    }

    open spec fn listed(m: IntroductionFrameView) -> Seq<FieldView> {
        Seq::empty() + message_fields::<FileMetadata>(1, m.file_metadata) + message_fields::<TextMetadata>(2, m.text_metadata)
    }
}

impl Message for IntroductionFrame {
    fn empty() -> Self {
        let message = IntroductionFrame { file_metadata: Vec::new(), text_metadata: Vec::new() };
        assert(message@.file_metadata =~= Seq::empty());
        assert(message@.text_metadata =~= Seq::empty());
        message
    }

    fn merge_field(&mut self, field: &Field) -> Result<(), Malformed> {
        if field.tag == 1 {
            let mut item: Option<FileMetadata> = None;
            merge_nested(&mut item, &field.value)?;
            if let Some(item) = item {
                self.file_metadata.push(item);
            }
            assert(self@.file_metadata =~= Self::step(old(self)@, field@)->0.file_metadata);
        } else if field.tag == 2 {
            let mut item: Option<TextMetadata> = None;
            merge_nested(&mut item, &field.value)?;
            if let Some(item) = item {
                self.text_metadata.push(item);
            }
            assert(self@.text_metadata =~= Self::step(old(self)@, field@)->0.text_metadata);
        }
        Ok(())
    }

    fn to_fields(&self) -> Fields {
        broadcast use group_wire;

        let mut fields = Fields::new();
        let ghost before = fields@;
        assert(self@.file_metadata.take(0) =~= Seq::empty());
        assert(before + message_fields::<FileMetadata>(1, self@.file_metadata.take(0)) =~= before);
        for i in 0..self.file_metadata.len()
            invariant
                fields@ == before + message_fields::<FileMetadata>(1, self@.file_metadata.take(i as int)),
                all_writable(fields@),
                self@.file_metadata.len() == self.file_metadata@.len(),
                absorb::<Self>(Self::blank(), fields@) == Some(
                    IntroductionFrameView { file_metadata: self@.file_metadata.take(i as int), ..Self::blank() },
                ),
        {
            let ghost held = fields@;
            let item = self.file_metadata[i].encode_to_vec();
            fields.put_bytes(1, Some(item));
            proof {
                lemma_absorb_bytes::<Self>(Self::blank(), held, 1, Some(item@));
                assert(self@.file_metadata.take(i as int).push(self@.file_metadata[i as int]) =~= self@.file_metadata.take(i + 1));
                assert(before + message_fields::<FileMetadata>(1, self@.file_metadata.take(i + 1)) =~= fields@);
            }
        }
        assert(self@.file_metadata.take(self@.file_metadata.len() as int) =~= self@.file_metadata);
        let ghost before = fields@;
        assert(self@.text_metadata.take(0) =~= Seq::empty());
        assert(before + message_fields::<TextMetadata>(2, self@.text_metadata.take(0)) =~= before);
        for i in 0..self.text_metadata.len()
            invariant
                fields@ == before + message_fields::<TextMetadata>(2, self@.text_metadata.take(i as int)),
                all_writable(fields@),
                self@.text_metadata.len() == self.text_metadata@.len(),
                absorb::<Self>(Self::blank(), fields@) == Some(
                    IntroductionFrameView { file_metadata: self@.file_metadata, text_metadata: self@.text_metadata.take(i as int) },
                ),
        {
            let ghost held = fields@;
            let item = self.text_metadata[i].encode_to_vec();
            fields.put_bytes(2, Some(item));
            proof {
                lemma_absorb_bytes::<Self>(Self::blank(), held, 2, Some(item@));
                assert(self@.text_metadata.take(i as int).push(self@.text_metadata[i as int]) =~= self@.text_metadata.take(i + 1));
                assert(before + message_fields::<TextMetadata>(2, self@.text_metadata.take(i + 1)) =~= fields@);
            }
        }
        assert(self@.text_metadata.take(self@.text_metadata.len() as int) =~= self@.text_metadata);
        fields
    }
}

#[derive(Debug, Clone, PartialEq)]
pub struct ConnectionResponseFrame {
    pub status: Option<i32>,
}

pub ghost struct ConnectionResponseFrameView {
    pub status: Option<i32>,
}

impl View for ConnectionResponseFrame {
    type V = ConnectionResponseFrameView;

    open spec fn view(&self) -> ConnectionResponseFrameView {
        ConnectionResponseFrameView {
            status: self.status,
        }
    }
}

impl Schema for ConnectionResponseFrame {
    open spec fn blank() -> ConnectionResponseFrameView {
        ConnectionResponseFrameView { status: None }
    }

    open spec fn step(m: ConnectionResponseFrameView, field: FieldView) -> Option<ConnectionResponseFrameView> {
        if field.tag == 1 {
            match read_i32(field.value) {
                Some(value) => Some(ConnectionResponseFrameView { status: Some(value), ..m }),
                None => None,
            }
        } else {
            Some(m)
        }
    }

    open spec fn listed(m: ConnectionResponseFrameView) -> Seq<FieldView> {
        Seq::empty() + int_field(1, i32_wire(m.status))
    }
}

impl Message for ConnectionResponseFrame {
    fn empty() -> Self {
        ConnectionResponseFrame { status: None }
    }

    fn merge_field(&mut self, field: &Field) -> Result<(), Malformed> {
        if field.tag == 1 {
            self.status = Some(field.value.as_i32()?);
        }
        Ok(())
    }

    fn to_fields(&self) -> Fields {
        broadcast use group_wire;

        let mut fields = Fields::new();
        let ghost before = fields@;
        fields.put_i32(1, self.status);
        proof {
            lemma_absorb_int::<Self>(Self::blank(), before, 1, i32_wire(self.status));
        }
        fields
    }
}

#[derive(Debug, Clone, PartialEq)]
pub struct PairedKeyEncryptionFrame {
    pub signed_data: Option<Vec<u8>>,
    pub secret_id_hash: Option<Vec<u8>>,
}

pub ghost struct PairedKeyEncryptionFrameView {
    pub signed_data: Option<Seq<u8>>,
    pub secret_id_hash: Option<Seq<u8>>,
}

impl View for PairedKeyEncryptionFrame {
    type V = PairedKeyEncryptionFrameView;

    open spec fn view(&self) -> PairedKeyEncryptionFrameView {
        PairedKeyEncryptionFrameView {
            signed_data: opt_view(self.signed_data),
            secret_id_hash: opt_view(self.secret_id_hash),
        }
    }
}

impl Schema for PairedKeyEncryptionFrame {
    open spec fn blank() -> PairedKeyEncryptionFrameView {
        PairedKeyEncryptionFrameView { signed_data: None, secret_id_hash: None }
    }

    open spec fn step(m: PairedKeyEncryptionFrameView, field: FieldView) -> Option<PairedKeyEncryptionFrameView> {
        if field.tag == 1 {
            match read_bytes(field.value) {
                Some(value) => Some(PairedKeyEncryptionFrameView { signed_data: Some(value), ..m }),
                None => None,
            }
        } else if field.tag == 2 {
            match read_bytes(field.value) {
                Some(value) => Some(PairedKeyEncryptionFrameView { secret_id_hash: Some(value), ..m }),
                None => None,
            }
        } else {
            Some(m)
        }
    }

    open spec fn listed(m: PairedKeyEncryptionFrameView) -> Seq<FieldView> {
        Seq::empty() + bytes_field(1, m.signed_data) + bytes_field(2, m.secret_id_hash)
    }
}

impl Message for PairedKeyEncryptionFrame {
    fn empty() -> Self {
        PairedKeyEncryptionFrame { signed_data: None, secret_id_hash: None }
    }

    fn merge_field(&mut self, field: &Field) -> Result<(), Malformed> {
        if field.tag == 1 {
            self.signed_data = Some(slice_to_vec(field.value.as_bytes()?));
        } else if field.tag == 2 {
            self.secret_id_hash = Some(slice_to_vec(field.value.as_bytes()?));
        }
        Ok(())
    }

    fn to_fields(&self) -> Fields {
        broadcast use group_wire;

        let mut fields = Fields::new();
        let ghost before = fields@;
        fields.put_data(1, &self.signed_data);
        proof {
            lemma_absorb_bytes::<Self>(Self::blank(), before, 1, self@.signed_data);
        }
        let ghost before = fields@;
        fields.put_data(2, &self.secret_id_hash);
        proof {
            lemma_absorb_bytes::<Self>(Self::blank(), before, 2, self@.secret_id_hash);
        }
        fields
    }
}

#[derive(Debug, Clone, PartialEq)]
pub struct PairedKeyResultFrame {
    pub status: Option<i32>,
}

pub ghost struct PairedKeyResultFrameView {
    pub status: Option<i32>,
}

impl View for PairedKeyResultFrame {
    type V = PairedKeyResultFrameView;

    open spec fn view(&self) -> PairedKeyResultFrameView {
        PairedKeyResultFrameView {
            status: self.status,
        }
    }
}

impl Schema for PairedKeyResultFrame {
    open spec fn blank() -> PairedKeyResultFrameView {
        PairedKeyResultFrameView { status: None }
    }

    open spec fn step(m: PairedKeyResultFrameView, field: FieldView) -> Option<PairedKeyResultFrameView> {
        if field.tag == 1 {
            match read_i32(field.value) {
                Some(value) => Some(PairedKeyResultFrameView { status: Some(value), ..m }),
                None => None,
            }
        } else {
            Some(m)
        }
    }

    open spec fn listed(m: PairedKeyResultFrameView) -> Seq<FieldView> {
        Seq::empty() + int_field(1, i32_wire(m.status))
    }
}

impl Message for PairedKeyResultFrame {
    fn empty() -> Self {
        PairedKeyResultFrame { status: None }
    }

    fn merge_field(&mut self, field: &Field) -> Result<(), Malformed> {
        if field.tag == 1 {
            self.status = Some(field.value.as_i32()?);
        }
        Ok(())
    }

    fn to_fields(&self) -> Fields {
        broadcast use group_wire;

        let mut fields = Fields::new();
        let ghost before = fields@;
        fields.put_i32(1, self.status);
        proof {
            lemma_absorb_int::<Self>(Self::blank(), before, 1, i32_wire(self.status));
        }
        fields
    }
}

#[derive(Debug, Clone, PartialEq)]
pub struct V1Frame {
    pub frame_type: Option<i32>,
    pub introduction: Option<IntroductionFrame>,
    pub connection_response: Option<ConnectionResponseFrame>,
    pub paired_key_encryption: Option<PairedKeyEncryptionFrame>,
    pub paired_key_result: Option<PairedKeyResultFrame>,
}

pub ghost struct V1FrameView {
    pub frame_type: Option<i32>,
    pub introduction: Option<IntroductionFrameView>,
    pub connection_response: Option<ConnectionResponseFrameView>,
    pub paired_key_encryption: Option<PairedKeyEncryptionFrameView>,
    pub paired_key_result: Option<PairedKeyResultFrameView>,
}

impl View for V1Frame {
    type V = V1FrameView;

    open spec fn view(&self) -> V1FrameView {
        V1FrameView {
            frame_type: self.frame_type,
            introduction: opt_view(self.introduction),
            connection_response: opt_view(self.connection_response),
            paired_key_encryption: opt_view(self.paired_key_encryption),
            paired_key_result: opt_view(self.paired_key_result),
        }
    }
}

impl Schema for V1Frame {
    open spec fn blank() -> V1FrameView {
        V1FrameView { frame_type: None, introduction: None, connection_response: None, paired_key_encryption: None, paired_key_result: None }
    }

    open spec fn step(m: V1FrameView, field: FieldView) -> Option<V1FrameView> {
        if field.tag == 1 {
            match read_i32(field.value) {
                Some(value) => Some(V1FrameView { frame_type: Some(value), ..m }),
                None => None,
            }
        } else if field.tag == 2 {
            match read_nested::<IntroductionFrame>(m.introduction, field.value) {
                Some(value) => Some(V1FrameView { introduction: Some(value), ..m }),
                None => None,
            }
        } else if field.tag == 3 {
            match read_nested::<ConnectionResponseFrame>(m.connection_response, field.value) {
                Some(value) => Some(V1FrameView { connection_response: Some(value), ..m }),
                None => None,
            }
        } else if field.tag == 4 {
            match read_nested::<PairedKeyEncryptionFrame>(m.paired_key_encryption, field.value) {
                Some(value) => Some(V1FrameView { paired_key_encryption: Some(value), ..m }),
                None => None,
            }
        } else if field.tag == 5 {
            match read_nested::<PairedKeyResultFrame>(m.paired_key_result, field.value) {
                Some(value) => Some(V1FrameView { paired_key_result: Some(value), ..m }),
                None => None,
            }
        } else {
            Some(m)
        }
    }

    open spec fn listed(m: V1FrameView) -> Seq<FieldView> {
        Seq::empty() + int_field(1, i32_wire(m.frame_type)) + bytes_field(2, nested_bytes::<IntroductionFrame>(m.introduction)) + bytes_field(3, nested_bytes::<ConnectionResponseFrame>(m.connection_response)) + bytes_field(4, nested_bytes::<PairedKeyEncryptionFrame>(m.paired_key_encryption)) + bytes_field(5, nested_bytes::<PairedKeyResultFrame>(m.paired_key_result))
    }
}

impl Message for V1Frame {
    fn empty() -> Self {
        V1Frame { frame_type: None, introduction: None, connection_response: None, paired_key_encryption: None, paired_key_result: None }
    }

    fn merge_field(&mut self, field: &Field) -> Result<(), Malformed> {
        if field.tag == 1 {
            self.frame_type = Some(field.value.as_i32()?);
        } else if field.tag == 2 {
            merge_nested(&mut self.introduction, &field.value)?;
        } else if field.tag == 3 {
            merge_nested(&mut self.connection_response, &field.value)?;
        } else if field.tag == 4 {
            merge_nested(&mut self.paired_key_encryption, &field.value)?;
        } else if field.tag == 5 {
            merge_nested(&mut self.paired_key_result, &field.value)?;
        }
        Ok(())
    }

    fn to_fields(&self) -> Fields {
        broadcast use group_wire;

        let mut fields = Fields::new();
        let ghost before = fields@;
        fields.put_i32(1, self.frame_type);
        proof {
            lemma_absorb_int::<Self>(Self::blank(), before, 1, i32_wire(self.frame_type));
        }
        let ghost before = fields@;
        fields.put_bytes(2, encode_nested(&self.introduction));
        proof {
            lemma_absorb_bytes::<Self>(Self::blank(), before, 2, nested_bytes::<IntroductionFrame>(self@.introduction));
        }
        let ghost before = fields@;
        fields.put_bytes(3, encode_nested(&self.connection_response));
        proof {
            lemma_absorb_bytes::<Self>(Self::blank(), before, 3, nested_bytes::<ConnectionResponseFrame>(self@.connection_response));
        }
        let ghost before = fields@;
        fields.put_bytes(4, encode_nested(&self.paired_key_encryption));
        proof {
            lemma_absorb_bytes::<Self>(Self::blank(), before, 4, nested_bytes::<PairedKeyEncryptionFrame>(self@.paired_key_encryption));
        }
        let ghost before = fields@;
        fields.put_bytes(5, encode_nested(&self.paired_key_result));
        proof {
            lemma_absorb_bytes::<Self>(Self::blank(), before, 5, nested_bytes::<PairedKeyResultFrame>(self@.paired_key_result));
        }
        fields
    }
}

#[derive(Debug, Clone, PartialEq)]
pub struct Frame {
    pub version: Option<i32>,
    pub v1: Option<V1Frame>,
}

pub ghost struct FrameView {
    pub version: Option<i32>,
    pub v1: Option<V1FrameView>,
}

impl View for Frame {
    type V = FrameView;

    open spec fn view(&self) -> FrameView {
        FrameView {
            version: self.version,
            v1: opt_view(self.v1),
        }
    }
}

impl Schema for Frame {
    open spec fn blank() -> FrameView {
        FrameView { version: None, v1: None }
    }

    open spec fn step(m: FrameView, field: FieldView) -> Option<FrameView> {
        if field.tag == 1 {
            match read_i32(field.value) {
                Some(value) => Some(FrameView { version: Some(value), ..m }),
                None => None,
            }
        } else if field.tag == 2 {
            match read_nested::<V1Frame>(m.v1, field.value) {
                Some(value) => Some(FrameView { v1: Some(value), ..m }),
                None => None,
            }
        } else {
            Some(m)
        }
    }

    open spec fn listed(m: FrameView) -> Seq<FieldView> {
        Seq::empty() + int_field(1, i32_wire(m.version)) + bytes_field(2, nested_bytes::<V1Frame>(m.v1))
    }
}

impl Message for Frame {
    fn empty() -> Self {
        Frame { version: None, v1: None }
    }

    fn merge_field(&mut self, field: &Field) -> Result<(), Malformed> {
        if field.tag == 1 {
            self.version = Some(field.value.as_i32()?);
        } else if field.tag == 2 {
            merge_nested(&mut self.v1, &field.value)?;
        }
        Ok(())
    }

    fn to_fields(&self) -> Fields {
        broadcast use group_wire;

        let mut fields = Fields::new();
        let ghost before = fields@;
        fields.put_i32(1, self.version);
        proof {
            lemma_absorb_int::<Self>(Self::blank(), before, 1, i32_wire(self.version));
        }
        let ghost before = fields@;
        fields.put_bytes(2, encode_nested(&self.v1));
        proof {
            lemma_absorb_bytes::<Self>(Self::blank(), before, 2, nested_bytes::<V1Frame>(self@.v1));
        }
        fields
    }
}

/// A frame of version 1 that holds `v1` under the given type.
pub open spec fn frame_of(frame_type: i32, v1: V1FrameView) -> FrameView {
    FrameView { version: Some(1), v1: Some(V1FrameView { frame_type: Some(frame_type), ..v1 }) }
}

/// The type of a frame, where it has one.
pub open spec fn frame_type_of(frame: FrameView) -> Option<i32> {
    match frame.v1 {
        Some(v1) => v1.frame_type,
        None => None,
    }
}

impl Frame {
    pub fn new(frame_type: i32, v1: V1Frame) -> (frame: Self)
        ensures
            frame@ == frame_of(frame_type, v1@),
    {
        Self { version: Some(1), v1: Some(V1Frame { frame_type: Some(frame_type), ..v1 }) }
    }

    /// Whether the frame is one of the kinds that steer a transfer.
    pub fn is_control(&self) -> (control: bool)
        ensures
            control == (frame_type_of(self@) matches Some(kind) && (kind == INTRODUCTION || kind
                == RESPONSE || kind == PAIRED_KEY_ENCRYPTION || kind == PAIRED_KEY_RESULT || kind
                == CANCEL)),
    {
        match &self.v1 {
            Some(v1) => match v1.frame_type {
                Some(kind) => kind == INTRODUCTION || kind == RESPONSE || kind
                    == PAIRED_KEY_ENCRYPTION || kind == PAIRED_KEY_RESULT || kind == CANCEL,
                None => false,
            },
            None => false,
        }
    }
}

} // verus!
