//! The two sides of a Quick Share transfer, from the first decrypted frame on.
//!
//! Frames of Quick Share travel as payloads of bytes, files as payloads of
//! files, and both are cut into chunks.

use crate::approve::{IncomingFile, IncomingFileView, TransferOffer, TransferOfferView};
use crate::bytes::{be, be32, be_value, get_be, get_le, le_value, lemma_be, lemma_pow256};
use crate::crypto::random_bytes;
use crate::error::{outcome, Error, ErrorView, Result};
use crate::mime::{kind_of_mime, mime_kind, share_type, sniff, sniffed, subdir_name, MediaKind};
use crate::paths::{destination, Destination};
use crate::quickshare::endpoint::DEVICE_LAPTOP;
use crate::quickshare::proto::{from_wire, merged_with, message_bytes, wire_to_i64, Message, Schema};
use crate::quickshare::secure::{
    crypto_error, or_empty, received, ChannelView, DirectionView, SecureChannel,
};
use crate::quickshare::wire::{conn, share, MAX_FRAME};
use crate::sanitize::{safe_file_name, safe_name};
use crate::text::{
    decimal, decimal_text, ends_in, opt_view, seq_view, signed, signed_text, str_ends_with,
};
use std::collections::HashMap;
use vstd::prelude::*;
use vstd::slice::slice_to_vec;

verus! {

broadcast use vstd::std_specs::hash::group_hash_axioms;

/// How much of a file goes into one chunk.
pub const CHUNK: usize = 512 * 1024;

/// How long a body is that follows a length prefix.
pub fn body_len(prefix: &[u8; 4]) -> (len: Result<usize>)
    ensures
        be_value(prefix@) <= MAX_FRAME ==> len is Ok && len->Ok_0 == be_value(prefix@),
        be_value(prefix@) > MAX_FRAME ==> len is Err && len->Err_0@ == ErrorView::TooLarge,
{
    let len: u64 = get_be(prefix);
    if len > MAX_FRAME as u64 {
        return Err(Error::TooLarge);
    }
    Ok(len as usize)
}

/// A body behind its length prefix.
pub fn framed_body(body: &[u8]) -> (framed: Vec<u8>)
    requires
        body@.len() <= u32::MAX,
    ensures
        framed@ == be(body@.len(), 4) + body@,
{
    let mut framed = slice_to_vec(&be32(body.len() as u64));
    framed.extend_from_slice(body);
    assert(framed@ =~= be(body@.len(), 4) + body@);
    framed
}

/// A length prefix tells the length of the body that it was written for.
pub proof fn body_len_roundtrip(len: nat)
    requires
        len <= u32::MAX,
    ensures
        be_value(be(len, 4)) == len,
{
    lemma_pow256();
    lemma_be(len, 4);
}

/// Reads a frame.
pub fn decode_frame<M: Message>(bytes: &[u8]) -> (frame: Result<M>)
    ensures
        match merged_with::<M>(M::blank(), bytes@) {
            Some(message) => frame is Ok && frame->Ok_0@ == message,
            None => frame is Err && frame->Err_0@ == ErrorView::Protocol("malformed message"@),
        },
{
    match M::decode(bytes) {
        Ok(frame) => Ok(frame),
        Err(_) => Err(Error::protocol("malformed message")),
    }
}

/// The part of a payload of bytes that has come.
#[derive(Debug)]
pub struct ByteBuf {
    pub total: Option<i64>,
    pub buf: Vec<u8>,
}

pub ghost struct BufView {
    pub total: Option<i64>,
    pub buf: Seq<u8>,
}

impl View for ByteBuf {
    type V = BufView;

    open spec fn view(&self) -> BufView {
        BufView { total: self.total, buf: self.buf@ }
    }
}

/// The values of a map by their views.
pub open spec fn map_view<T: View>(map: Map<i64, T>) -> Map<i64, T::V> {
    Map::new(|id: i64| map.contains_key(id), |id: i64| map[id]@)
}

pub open spec fn header_of(transfer: conn::PayloadTransferFrameView) -> conn::PayloadHeaderView {
    match transfer.payload_header {
        Some(header) => header,
        None => conn::PayloadHeader::blank(),
    }
}

pub open spec fn id_of(transfer: conn::PayloadTransferFrameView) -> i64 {
    match header_of(transfer).id {
        Some(id) => id,
        None => 0,
    }
}

pub open spec fn chunk_of(transfer: conn::PayloadTransferFrameView) -> conn::PayloadChunkView {
    match transfer.payload_chunk {
        Some(chunk) => chunk,
        None => conn::PayloadChunk::blank(),
    }
}

pub open spec fn offset_of(transfer: conn::PayloadTransferFrameView) -> i64 {
    match chunk_of(transfer).offset {
        Some(offset) => offset,
        None => 0,
    }
}

pub open spec fn body_of(transfer: conn::PayloadTransferFrameView) -> Seq<u8> {
    or_empty(chunk_of(transfer).body)
}

/// Whether the lowest bit of the flags marks the last chunk.
pub open spec fn is_last(transfer: conn::PayloadTransferFrameView) -> bool {
    chunk_of(transfer).flags matches Some(flags) && flags as int % 2 == 1
}

/// The buffers after a chunk of bytes, and the payload if it is complete, or why
/// the chunk is refused.
pub open spec fn pushed(bufs: Map<i64, BufView>, transfer: conn::PayloadTransferFrameView) -> (
    Map<i64, BufView>,
    std::result::Result<Option<Seq<u8>>, ErrorView>,
) {
    let id = id_of(transfer);
    let held = if bufs.contains_key(id) {
        bufs[id]
    } else {
        BufView { total: header_of(transfer).total_size, buf: Seq::empty() }
    };
    let whole = held.buf + body_of(transfer);
    if transfer.packet_type == Some(conn::PACKET_ACK) || header_of(transfer).payload_type == Some(
        conn::FILE,
    ) {
        (bufs, Ok(None))
    } else if offset_of(transfer) != held.buf.len() {
        (
            bufs.insert(id, held),
            Err(ErrorView::Protocol("quick share control payload is out of order"@)),
        )
    } else if whole.len() > MAX_FRAME {
        (bufs.insert(id, held), Err(ErrorView::TooLarge))
    } else if !is_last(transfer) {
        (bufs.insert(id, BufView { buf: whole, ..held }), Ok(None))
    } else if held.total is Some && held.total->0 != whole.len() {
        (
            bufs.insert(id, BufView { buf: whole, ..held }),
            Err(ErrorView::Protocol("control payload size mismatch"@)),
        )
    } else {
        (bufs.insert(id, BufView { buf: Seq::empty(), ..held }), Ok(Some(whole)))
    }
}

fn odd(flags: i32) -> (yes: bool)
    ensures
        yes == (flags as int % 2 == 1),
{
    (flags as i64 + 0x1_0000_0000) as u64 % 2 == 1
}

/// The parts of a transfer frame that the logic reads, with their defaults.
struct Parts {
    is_ack: bool,
    is_file: bool,
    id: i64,
    total: Option<i64>,
    offset: i64,
    body: Vec<u8>,
    last: bool,
}

fn parts_of(transfer: conn::PayloadTransferFrame) -> (parts: Parts)
    ensures
        parts.is_ack == (transfer@.packet_type == Some(conn::PACKET_ACK)),
        parts.is_file == (header_of(transfer@).payload_type == Some(conn::FILE)),
        parts.id == id_of(transfer@),
        parts.total == header_of(transfer@).total_size,
        parts.offset == offset_of(transfer@),
        parts.body@ == body_of(transfer@),
        parts.last == is_last(transfer@),
{
    let is_ack = match transfer.packet_type {
        Some(kind) => kind == conn::PACKET_ACK,
        None => false,
    };
    let header = match transfer.payload_header {
        Some(header) => header,
        None => conn::PayloadHeader::empty(),
    };
    let chunk = match transfer.payload_chunk {
        Some(chunk) => chunk,
        None => conn::PayloadChunk::empty(),
    };
    Parts {
        is_ack,
        is_file: match header.payload_type {
            Some(kind) => kind == conn::FILE,
            None => false,
        },
        id: match header.id {
            Some(id) => id,
            None => 0,
        },
        total: header.total_size,
        offset: match chunk.offset {
            Some(offset) => offset,
            None => 0,
        },
        body: match chunk.body {
            Some(body) => body,
            None => Vec::new(),
        },
        last: match chunk.flags {
            Some(flags) => odd(flags),
            None => false,
        },
    }
}

/// Adds a chunk to the payload that it belongs to. A complete payload is handed
/// out.
pub fn push_payload(
    bufs: &mut HashMap<i64, ByteBuf>,
    transfer: conn::PayloadTransferFrame,
) -> (payload: Result<Option<Vec<u8>>>)
    ensures
        map_view(final(bufs)@) == pushed(map_view(old(bufs)@), transfer@).0,
        match pushed(map_view(old(bufs)@), transfer@).1 {
            Ok(complete) => payload is Ok && opt_view(payload->Ok_0) == complete,
            Err(error) => payload is Err && payload->Err_0@ == error,
        },
{
    let parts = parts_of(transfer);
    if parts.is_ack || parts.is_file {
        return Ok(None);
    }
    let ghost before = bufs@;
    let entry = match bufs.remove(&parts.id) {
        Some(entry) => entry,
        None => ByteBuf { total: parts.total, buf: Vec::new() },
    };
    let ghost held = entry@;
    let first = parts.total;
    assert(held == if before.contains_key(parts.id) {
        before[parts.id]@
    } else {
        BufView { total: first, buf: Seq::empty() }
    });
    if parts.offset < 0 || parts.offset as u64 != entry.buf.len() as u64 {
        bufs.insert(parts.id, entry);
        assert(map_view(bufs@) =~= map_view(before).insert(parts.id, held));
        return Err(Error::protocol("quick share control payload is out of order"));
    }
    if entry.buf.len() > MAX_FRAME || parts.body.len() > MAX_FRAME - entry.buf.len() {
        bufs.insert(parts.id, entry);
        assert(map_view(bufs@) =~= map_view(before).insert(parts.id, held));
        return Err(Error::TooLarge);
    }
    let total = entry.total;
    let mut whole = entry.buf;
    whole.extend_from_slice(parts.body.as_slice());
    assert(whole@ =~= held.buf + body_of(transfer@));
    if parts.last {
        if let Some(total) = total {
            if total < 0 || total as u64 != whole.len() as u64 {
                let grown = ByteBuf { total: Some(total), buf: whole };
                bufs.insert(parts.id, grown);
                assert(grown@ == (BufView { buf: held.buf + body_of(transfer@), ..held }));
                assert(map_view(bufs@) =~= map_view(before).insert(parts.id, grown@));
                return Err(Error::protocol("control payload size mismatch"));
            }
        }
        let emptied = ByteBuf { total, buf: Vec::new() };
        bufs.insert(parts.id, emptied);
        assert(emptied@.buf =~= Seq::empty());
        assert(map_view(bufs@) =~= map_view(before).insert(parts.id, emptied@));
        return Ok(Some(whole));
    }
    let grown = ByteBuf { total, buf: whole };
    bufs.insert(parts.id, grown);
    assert(grown@ == (BufView { buf: held.buf + body_of(transfer@), ..held }));
    assert(map_view(bufs@) =~= map_view(before).insert(parts.id, grown@));
    Ok(None)
}

/// A file or a text that was introduced.
#[derive(Debug)]
pub struct InFile {
    pub name: String,
    pub size: u64,
    pub mime: String,
    pub kind: MediaKind,
    pub text: bool,
    pub written: u64,
    pub opened: bool,
    pub done: bool,
}

pub ghost struct InFileView {
    pub name: Seq<char>,
    pub size: u64,
    pub mime: Seq<char>,
    pub kind: MediaKind,
    pub text: bool,
    pub written: u64,
    pub opened: bool,
    pub done: bool,
}

impl View for InFile {
    type V = InFileView;

    open spec fn view(&self) -> InFileView {
        InFileView {
            name: self.name@,
            size: self.size,
            mime: self.mime@,
            kind: self.kind,
            text: self.text,
            written: self.written,
            opened: self.opened,
            done: self.done,
        }
    }
}

/// Something that a receiver does.
#[derive(Debug)]
pub enum Action {
    /// Create the partial file of a payload.
    Open { id: i64, dest: Destination },
    /// Append to the partial file of a payload.
    Write { id: i64, body: Vec<u8> },
    /// Move the file of a payload into place.
    Commit { id: i64 },
    /// Create a file with the given contents and move it into place.
    Store { id: i64, dest: Destination, body: Vec<u8> },
    /// Send a Quick Share frame as a payload of bytes.
    Share(share::Frame),
    /// Send a frame.
    Send(conn::OfflineFrame),
    /// Ask the person.
    Ask(TransferOffer),
}

pub ghost struct DestView {
    pub folder: Option<Seq<char>>,
    pub name: Seq<char>,
}

pub open spec fn dest_view(dest: Destination) -> DestView {
    DestView { folder: opt_view(dest.folder), name: dest.name@ }
}

pub ghost enum ActionView {
    Open { id: i64, dest: DestView },
    Write { id: i64, body: Seq<u8> },
    Commit { id: i64 },
    Store { id: i64, dest: DestView, body: Seq<u8> },
    Share(share::FrameView),
    Send(conn::OfflineFrameView),
    Ask(TransferOfferView),
}

impl View for Action {
    type V = ActionView;

    open spec fn view(&self) -> ActionView {
        match *self {
            Action::Open { id, dest } => ActionView::Open { id, dest: dest_view(dest) },
            Action::Write { id, body } => ActionView::Write { id, body: body@ },
            Action::Commit { id } => ActionView::Commit { id },
            Action::Store { id, dest, body } => ActionView::Store {
                id,
                dest: dest_view(dest),
                body: body@,
            },
            Action::Share(frame) => ActionView::Share(frame@),
            Action::Send(frame) => ActionView::Send(frame@),
            Action::Ask(offer) => ActionView::Ask(offer@),
        }
    }
}

/// Whether a session goes on.
#[derive(Debug)]
pub enum Outcome {
    Continue,
    Finish,
    Fail(Error),
}

pub ghost enum OutcomeView {
    Continue,
    Finish,
    Fail(ErrorView),
}

impl View for Outcome {
    type V = OutcomeView;

    open spec fn view(&self) -> OutcomeView {
        match *self {
            Outcome::Continue => OutcomeView::Continue,
            Outcome::Finish => OutcomeView::Finish,
            Outcome::Fail(error) => OutcomeView::Fail(error@),
        }
    }
}

/// What a session does in turn, and whether it goes on after that.
#[derive(Debug)]
pub struct Step {
    pub actions: Vec<Action>,
    pub outcome: Outcome,
}

pub ghost struct StepView {
    pub actions: Seq<ActionView>,
    pub outcome: OutcomeView,
}

impl View for Step {
    type V = StepView;

    open spec fn view(&self) -> StepView {
        StepView { actions: seq_view(self.actions@), outcome: self.outcome@ }
    }
}

/// The receiving side of a session.
#[derive(Debug)]
pub struct Inbound {
    pub peer: String,
    pub pin: String,
    pub sort_media: bool,
    pub max_file_bytes: u64,
    pub got_key: bool,
    pub sent_result: bool,
    pub waiting: bool,
    pub accepted: bool,
    pub files: HashMap<i64, InFile>,
    pub bufs: HashMap<i64, ByteBuf>,
    pub bytes: u64,
}

pub ghost struct InboundView {
    pub peer: Seq<char>,
    pub pin: Seq<char>,
    pub sort_media: bool,
    pub max_file_bytes: u64,
    pub got_key: bool,
    pub sent_result: bool,
    pub waiting: bool,
    pub accepted: bool,
    pub files: Map<i64, InFileView>,
    pub bufs: Map<i64, BufView>,
    pub bytes: u64,
}

impl View for Inbound {
    type V = InboundView;

    open spec fn view(&self) -> InboundView {
        InboundView {
            peer: self.peer@,
            pin: self.pin@,
            sort_media: self.sort_media,
            max_file_bytes: self.max_file_bytes,
            got_key: self.got_key,
            sent_result: self.sent_result,
            waiting: self.waiting,
            accepted: self.accepted,
            files: map_view(self.files@),
            bufs: map_view(self.bufs@),
            bytes: self.bytes,
        }
    }
}

/// The sum, or the largest number where the sum is larger.
pub open spec fn capped_sum(a: u64, b: nat) -> u64 {
    if a + b > u64::MAX {
        u64::MAX
    } else {
        (a + b) as u64
    }
}

pub open spec fn go_on(actions: Seq<ActionView>) -> StepView {
    StepView { actions, outcome: OutcomeView::Continue }
}

pub open spec fn fail_with(actions: Seq<ActionView>, error: ErrorView) -> StepView {
    StepView { actions, outcome: OutcomeView::Fail(error) }
}

/// There are files, and all of them are in place.
pub open spec fn all_done(files: Map<i64, InFileView>) -> bool {
    &&& exists|id: i64| files.contains_key(id)
    &&& forall|id: i64| files.contains_key(id) ==> (#[trigger] files[id]).done
}

/// Where a file goes.
pub open spec fn dest_of(state: InboundView, file: InFileView) -> DestView {
    DestView {
        folder: if state.sort_media {
            subdir_name(file.kind)
        } else {
            None
        },
        name: safe_name(file.name)->0,
    }
}

/// The file after a chunk.
pub open spec fn file_after(file: InFileView, transfer: conn::PayloadTransferFrameView) -> InFileView {
    InFileView {
        written: capped_sum(file.written, body_of(transfer).len()),
        opened: true,
        done: file.done || is_last(transfer),
        ..file
    }
}

/// What is done with a chunk before it is known whether it is the last one.
pub open spec fn chunk_actions(
    state: InboundView,
    id: i64,
    file: InFileView,
    body: Seq<u8>,
) -> Seq<ActionView> {
    let opening = if file.opened {
        Seq::empty()
    } else {
        seq![ActionView::Open { id, dest: dest_of(state, file) }]
    };
    if body.len() == 0 {
        opening
    } else {
        opening.push(ActionView::Write { id, body })
    }
}

pub open spec fn incomplete_text(file: InFileView) -> Seq<char> {
    file.name + " is incomplete ("@ + decimal_text(file.written as nat) + " of "@ + decimal_text(
        file.size as nat,
    ) + " bytes)"@
}

/// Why a chunk of a file is refused before anything is done with it.
pub open spec fn chunk_objection(
    state: InboundView,
    transfer: conn::PayloadTransferFrameView,
) -> Option<ErrorView> {
    let id = id_of(transfer);
    let file = state.files[id];
    let body = body_of(transfer);
    let offset = offset_of(transfer);
    if !state.accepted {
        Some(ErrorView::Protocol("file bytes arrived before acceptance"@))
    } else if !state.files.contains_key(id) {
        Some(ErrorView::Protocol("unknown quick share file"@))
    } else if (if offset < 0 {
        u64::MAX as int
    } else {
        offset as int
    }) != file.written {
        Some(ErrorView::Protocol("quick share file chunk is out of order"@))
    } else if file.size > 0 && file.written + body.len() > file.size && body.len() > 0 {
        Some(ErrorView::Protocol("quick share file exceeded its declared size"@))
    } else if !file.opened && safe_name(file.name) is None {
        Some(ErrorView::UnsafeName)
    } else {
        None
    }
}

/// What a chunk of a file leads to.
pub open spec fn file_step(state: InboundView, transfer: conn::PayloadTransferFrameView) -> (
    InboundView,
    StepView,
) {
    let id = id_of(transfer);
    let file = state.files[id];
    let after = file_after(file, transfer);
    let actions = chunk_actions(state, id, file, body_of(transfer));
    if chunk_objection(state, transfer) is Some {
        (state, fail_with(Seq::empty(), chunk_objection(state, transfer)->0))
    } else if !is_last(transfer) {
        let files = state.files.insert(id, after);
        (
            InboundView { files, ..state },
            StepView {
                actions,
                outcome: if all_done(files) {
                    OutcomeView::Finish
                } else {
                    OutcomeView::Continue
                },
            },
        )
    } else if after.size != after.written {
        let files = state.files.insert(id, InFileView { done: file.done, ..after });
        (
            InboundView { files, ..state },
            fail_with(actions, ErrorView::Protocol(incomplete_text(after))),
        )
    } else {
        let files = state.files.insert(id, after);
        (
            InboundView {
                files,
                bytes: capped_sum(state.bytes, after.written as nat),
                ..state
            },
            StepView {
                actions: actions.push(ActionView::Commit { id }).push(
                    ActionView::Send(
                        conn::payload_ack_frame(id, conn::FILE, wire_to_i64(after.size)),
                    ),
                ),
                outcome: if all_done(files) {
                    OutcomeView::Finish
                } else {
                    OutcomeView::Continue
                },
            },
        )
    }
}

/// The size of an announced file; a negative one counts as the largest.
pub open spec fn file_size(size: Option<i64>) -> u64 {
    match size {
        Some(size) => if size < 0 {
            u64::MAX
        } else {
            size as u64
        },
        None => 0,
    }
}

/// The size of an announced text; a negative one counts as nothing.
pub open spec fn text_size(size: Option<i64>) -> u64 {
    match size {
        Some(size) => if size < 0 {
            0
        } else {
            size as u64
        },
        None => 0,
    }
}

pub open spec fn text_or_empty(text: Option<Seq<char>>) -> Seq<char> {
    match text {
        Some(text) => text,
        None => Seq::empty(),
    }
}

pub open spec fn id_or_zero(id: Option<i64>) -> i64 {
    match id {
        Some(id) => id,
        None => 0,
    }
}

/// A file as it is introduced.
pub open spec fn introduced_file(file: share::FileMetadataView) -> InFileView {
    let name = text_or_empty(file.name);
    let mime = match file.mime_type {
        Some(mime) => mime,
        None => sniffed(Seq::empty(), name).1,
    };
    InFileView {
        name,
        size: file_size(file.size),
        mime,
        kind: mime_kind(mime),
        text: false,
        written: 0,
        opened: false,
        done: false,
    }
}

/// The name of a text: its title where that can be a file's name, with the
/// extension of a text.
pub open spec fn text_name(title: Option<Seq<char>>) -> Seq<char> {
    match title {
        Some(title) => if safe_name(title) is None {
            "shared-text.txt"@
        } else if ends_in(title, ".txt"@) {
            title
        } else {
            title + ".txt"@
        },
        None => "shared-text.txt"@,
    }
}

/// A text as it is introduced.
pub open spec fn introduced_text(text: share::TextMetadataView) -> InFileView {
    InFileView {
        name: text_name(text.text_title),
        size: text_size(text.size),
        mime: "text/plain"@,
        kind: MediaKind::Other,
        text: true,
        written: 0,
        opened: false,
        done: false,
    }
}

/// What an introduction announces, in its order.
pub open spec fn introduced(intro: share::IntroductionFrameView) -> Seq<(i64, InFileView)> {
    Seq::new(
        intro.file_metadata.len(),
        |i: int|
            (
                id_or_zero(intro.file_metadata[i].payload_id),
                introduced_file(intro.file_metadata[i]),
            ),
    ) + Seq::new(
        intro.text_metadata.len(),
        |i: int|
            (
                id_or_zero(intro.text_metadata[i].payload_id),
                introduced_text(intro.text_metadata[i]),
            ),
    )
}

/// What stands against a list of files: the first one with an unsafe name or
/// over the limit.
pub open spec fn files_objection(files: Seq<share::FileMetadataView>, limit: u64) -> Option<
    ErrorView,
>
    decreases files.len(),
{
    if files.len() == 0 {
        None
    } else if safe_name(text_or_empty(files[0].name)) is None {
        Some(ErrorView::UnsafeName)
    } else if file_size(files[0].size) > limit {
        Some(ErrorView::TooLarge)
    } else {
        files_objection(files.skip(1), limit)
    }
}

/// How many files stand before the first one that is objected to.
pub open spec fn files_in_order(files: Seq<share::FileMetadataView>, limit: u64) -> nat
    decreases files.len(),
{
    if files.len() == 0 || safe_name(text_or_empty(files[0].name)) is None || file_size(
        files[0].size,
    ) > limit {
        0
    } else {
        1 + files_in_order(files.skip(1), limit)
    }
}

/// The map after all entries are put in; a later one takes the place of an
/// earlier one.
pub open spec fn insert_all(files: Map<i64, InFileView>, entries: Seq<(i64, InFileView)>) -> Map<
    i64,
    InFileView,
>
    decreases entries.len(),
{
    if entries.len() == 0 {
        files
    } else {
        insert_all(files, entries.drop_last()).insert(entries.last().0, entries.last().1)
    }
}

/// What a person is shown of the entries.
pub open spec fn shown(entries: Seq<(i64, InFileView)>) -> Seq<IncomingFileView> {
    Seq::new(
        entries.len(),
        |i: int|
            IncomingFileView {
                name: entries[i].1.name,
                bytes: entries[i].1.size,
                mime: entries[i].1.mime,
                kind: mime_kind(entries[i].1.mime),
            },
    )
}

/// The answer to an introduction.
pub open spec fn response_frame(status: i32) -> share::FrameView {
    share::frame_of(
        share::RESPONSE,
        share::V1FrameView {
            connection_response: Some(share::ConnectionResponseFrameView { status: Some(status) }),
            ..share::V1Frame::blank()
        },
    )
}

/// The frame that says that no keys are known of the peer.
pub open spec fn paired_result_frame() -> share::FrameView {
    share::frame_of(
        share::PAIRED_KEY_RESULT,
        share::V1FrameView {
            paired_key_result: Some(
                share::PairedKeyResultFrameView { status: Some(share::UNABLE) },
            ),
            ..share::V1Frame::blank()
        },
    )
}

/// What an introduction leads to. The files before one that is objected to are
/// noted.
pub open spec fn introduction_step(state: InboundView, intro: share::IntroductionFrameView) -> (
    InboundView,
    StepView,
) {
    let entries = introduced(intro);
    let noted = InboundView {
        files: insert_all(
            state.files,
            entries.take(files_in_order(intro.file_metadata, state.max_file_bytes) as int),
        ),
        ..state
    };
    match files_objection(intro.file_metadata, state.max_file_bytes) {
        Some(ErrorView::TooLarge) => (
            noted,
            fail_with(
                seq![ActionView::Share(response_frame(share::NOT_ENOUGH_SPACE))],
                ErrorView::TooLarge,
            ),
        ),
        Some(error) => (noted, fail_with(Seq::empty(), error)),
        None => if entries.len() == 0 {
            (
                state,
                fail_with(
                    Seq::empty(),
                    ErrorView::Protocol("quick share introduction has no files"@),
                ),
            )
        } else {
            (
                InboundView {
                    files: insert_all(state.files, entries),
                    waiting: true,
                    ..state
                },
                go_on(
                    seq![
                        ActionView::Ask(
                            TransferOfferView {
                                protocol: "quickshare"@,
                                peer: state.peer,
                                pin: Some(state.pin),
                                files: shown(entries),
                            },
                        ),
                    ],
                ),
            )
        },
    }
}

/// What a Quick Share frame leads to.
pub open spec fn share_step(state: InboundView, frame: share::FrameView) -> (
    InboundView,
    StepView,
) {
    match frame.v1 {
        None => (
            state,
            fail_with(Seq::empty(), ErrorView::Protocol("empty share frame"@)),
        ),
        Some(v1) => if v1.frame_type == Some(share::PAIRED_KEY_ENCRYPTION) {
            (
                InboundView { got_key: true, sent_result: true, ..state },
                go_on(
                    if state.sent_result {
                        Seq::empty()
                    } else {
                        seq![ActionView::Share(paired_result_frame())]
                    },
                ),
            )
        } else if v1.frame_type == Some(share::CANCEL) {
            (state, fail_with(Seq::empty(), ErrorView::Rejected("cancelled"@)))
        } else if v1.frame_type == Some(share::INTRODUCTION) {
            introduction_step(
                state,
                match v1.introduction {
                    Some(intro) => intro,
                    None => share::IntroductionFrame::blank(),
                },
            )
        } else {
            (state, go_on(Seq::empty()))
        },
    }
}

pub open spec fn is_control(frame: share::FrameView) -> bool {
    share::frame_type_of(frame) matches Some(kind) && (kind == share::INTRODUCTION || kind
        == share::RESPONSE || kind == share::PAIRED_KEY_ENCRYPTION || kind
        == share::PAIRED_KEY_RESULT || kind == share::CANCEL)
}

/// What a payload that is no frame leads to: the contents of a text that was
/// introduced and accepted.
pub open spec fn text_step(state: InboundView, id: i64, bytes: Seq<u8>) -> (InboundView, StepView) {
    let file = state.files[id];
    if !state.accepted || !state.files.contains_key(id) || !file.text {
        (state, go_on(Seq::empty()))
    } else if safe_name(file.name) is None {
        (state, fail_with(Seq::empty(), ErrorView::UnsafeName))
    } else {
        let files = state.files.insert(id, InFileView { done: true, ..file });
        (
            InboundView { files, bytes: capped_sum(state.bytes, bytes.len()), ..state },
            StepView {
                actions: seq![
                    ActionView::Store { id, dest: dest_of(state, file), body: bytes },
                ],
                outcome: if all_done(files) {
                    OutcomeView::Finish
                } else {
                    OutcomeView::Continue
                },
            },
        )
    }
}

/// What a complete payload leads to.
pub open spec fn payload_step(state: InboundView, id: i64, bytes: Seq<u8>) -> (
    InboundView,
    StepView,
) {
    match merged_with::<share::Frame>(share::Frame::blank(), bytes) {
        Some(frame) if is_control(frame) => share_step(state, frame),
        _ => text_step(state, id, bytes),
    }
}

/// What a part of a payload leads to.
pub open spec fn transfer_step(state: InboundView, transfer: conn::PayloadTransferFrameView) -> (
    InboundView,
    StepView,
) {
    if transfer.packet_type == Some(conn::PACKET_ACK) {
        (state, go_on(Seq::empty()))
    } else if header_of(transfer).payload_type == Some(conn::FILE) {
        file_step(state, transfer)
    } else {
        let (bufs, payload) = pushed(state.bufs, transfer);
        let next = InboundView { bufs, ..state };
        match payload {
            Err(error) => (next, fail_with(Seq::empty(), error)),
            Ok(None) => (next, go_on(Seq::empty())),
            Ok(Some(bytes)) => payload_step(next, id_of(transfer), bytes),
        }
    }
}

/// A frame of the payload kind has its payload part.
pub open spec fn whole_frame(frame: conn::OfflineFrameView) -> bool {
    match frame.v1 {
        Some(v1) => v1.frame_type == Some(conn::PAYLOAD_TRANSFER) ==> v1.payload_transfer is Some,
        None => true,
    }
}

pub open spec fn kind_of_frame(frame: conn::OfflineFrameView) -> Option<i32> {
    match frame.v1 {
        Some(v1) => v1.frame_type,
        None => None,
    }
}

pub open spec fn payload_of(frame: conn::OfflineFrameView) -> conn::PayloadTransferFrameView {
    let v1 = frame.v1->0;
    v1.payload_transfer->0
}

/// What a frame leads to.
pub open spec fn frame_step(state: InboundView, frame: conn::OfflineFrameView) -> (
    InboundView,
    StepView,
) {
    if kind_of_frame(frame) == Some(conn::DISCONNECTION) {
        (state, StepView { actions: Seq::empty(), outcome: OutcomeView::Finish })
    } else if kind_of_frame(frame) != Some(conn::PAYLOAD_TRANSFER) {
        (state, go_on(Seq::empty()))
    } else {
        transfer_step(state, payload_of(frame))
    }
}

/// What a decision leads to.
pub open spec fn decision_step(state: InboundView, allow: bool) -> (InboundView, StepView) {
    if allow {
        (
            InboundView { waiting: false, accepted: true, ..state },
            go_on(seq![ActionView::Share(response_frame(share::ACCEPT))]),
        )
    } else {
        (
            InboundView { waiting: false, accepted: false, ..state },
            StepView {
                actions: seq![ActionView::Share(response_frame(share::REJECT))],
                outcome: OutcomeView::Finish,
            },
        )
    }
}

fn step_of(actions: Vec<Action>, outcome: Outcome) -> (step: Step)
    ensures
        step@ == (StepView { actions: seq_view(actions@), outcome: outcome@ }),
{
    Step { actions, outcome }
}

fn just(outcome: Outcome) -> (step: Step)
    ensures
        step@ == (StepView { actions: Seq::empty(), outcome: outcome@ }),
{
    let step = Step { actions: Vec::new(), outcome };
    assert(step@.actions =~= Seq::empty());
    step
}

fn one(action: Action, outcome: Outcome) -> (step: Step)
    ensures
        step@ == (StepView { actions: seq![action@], outcome: outcome@ }),
{
    let step = Step { actions: vec![action], outcome };
    assert(step@.actions =~= seq![action@]);
    step
}

fn push_action(actions: &mut Vec<Action>, action: Action)
    ensures
        seq_view(final(actions)@) == seq_view(old(actions)@).push(action@),
{
    actions.push(action);
    assert(seq_view(actions@) =~= seq_view(old(actions)@).push(action@));
}

/// Whether there are files and all of them are in place.
pub fn files_done(files: &HashMap<i64, InFile>) -> (done: bool)
    ensures
        done == all_done(map_view(files@)),
{
    let ghost views = map_view(files@);
    if files.is_empty() {
        assert(forall|id: i64| files@.contains_key(id) <==> views.contains_key(id));
        return false;
    }
    proof {
        if forall|id: i64| !files@.contains_key(id) {
            assert(files@.dom() =~= Set::empty());
        }
        let id = choose|id: i64| files@.contains_key(id);
        assert(views.contains_key(id));
    }
    for file in iter: files.values()
        invariant
            views == map_view(files@),
            iter.seq().unref().to_set() == files@.values(),
            forall|i: int| 0 <= i < iter.index() ==> (#[trigger] iter.seq()[i]).done,
            exists|id: i64| views.contains_key(id),
    {
        if !file.done {
            proof {
                let at = iter.index() as int;
                assert(iter.seq().unref()[at] == *file);
                assert(iter.seq().unref().to_set().contains(*file));
                let id = choose|id: i64| files@.contains_key(id) && files@[id] == *file;
                assert(views.contains_key(id) && !views[id].done);
            }
            return false;
        }
    }
    proof {
        assert forall|id: i64| views.contains_key(id) implies (#[trigger] views[id]).done by {
            assert(files@.values().contains(files@[id]));
        }
    }
    true
}

/// The step and the state are those of the model, whether or not the session
/// fails.
pub open spec fn follows(step: Step, state: InboundView, model: (InboundView, StepView)) -> bool {
    step@ == model.1 && state == model.0
}

/// A session before its first frame.
pub open spec fn fresh_inbound(
    peer: Seq<char>,
    pin: Seq<char>,
    sort_media: bool,
    max_file_bytes: u64,
) -> InboundView {
    InboundView {
        peer,
        pin,
        sort_media,
        max_file_bytes,
        got_key: false,
        sent_result: false,
        waiting: false,
        accepted: false,
        files: Map::empty(),
        bufs: Map::empty(),
        bytes: 0,
    }
}

/// What a receiver is called and what it takes.
#[derive(Debug, Clone, PartialEq, Eq)]
pub struct QuickshareConfig {
    pub name: String,
    pub sort_media: bool,
    pub max_file_bytes: u64,
    pub device_type: u8,
}

impl QuickshareConfig {
    pub fn auto() -> (config: Self)
        ensures
            config.name@ == "Crossdrop"@,
            !config.sort_media,
            config.max_file_bytes == 32 * 1024 * 1024 * 1024,
            config.device_type == DEVICE_LAPTOP,
    {
        QuickshareConfig {
            name: "Crossdrop".to_owned(),
            sort_media: false,
            max_file_bytes: 32 * 1024 * 1024 * 1024,
            device_type: DEVICE_LAPTOP,
        }
    }
}

impl Inbound {
    pub fn new(peer: String, pin: String, config: &QuickshareConfig) -> (session: Self)
        ensures
            session@ == fresh_inbound(peer@, pin@, config.sort_media, config.max_file_bytes),
    {
        let session = Inbound {
            peer,
            pin,
            sort_media: config.sort_media,
            max_file_bytes: config.max_file_bytes,
            got_key: false,
            sent_result: false,
            waiting: false,
            accepted: false,
            files: HashMap::new(),
            bufs: HashMap::new(),
            bytes: 0,
        };
        assert(session@.files =~= Map::empty());
        assert(session@.bufs =~= Map::empty());
        session
    }

    /// Takes a decrypted frame.
    pub fn on_frame(&mut self, frame: conn::OfflineFrame) -> (step: Step)
        requires
            whole_frame(frame@),
        ensures
            follows(step, final(self)@, frame_step(old(self)@, frame@)),
    {
        let v1 = match frame.v1 {
            Some(v1) => v1,
            None => return just(Outcome::Continue),
        };
        let kind = match v1.frame_type {
            Some(kind) => kind,
            None => return just(Outcome::Continue),
        };
        if kind == conn::DISCONNECTION {
            return just(Outcome::Finish);
        }
        if kind != conn::PAYLOAD_TRANSFER {
            return just(Outcome::Continue);
        }
        match v1.payload_transfer {
            Some(transfer) => self.on_transfer(transfer),
            None => just(Outcome::Continue),
        }
    }

    fn on_transfer(&mut self, transfer: conn::PayloadTransferFrame) -> (step: Step)
        ensures
            follows(step, final(self)@, transfer_step(old(self)@, transfer@)),
    {
        if let Some(kind) = transfer.packet_type {
            if kind == conn::PACKET_ACK {
                return just(Outcome::Continue);
            }
        }
        let (payload_type, id) = match &transfer.payload_header {
            Some(header) => (header.payload_type, header.id),
            None => (None, None),
        };
        let id: i64 = match id {
            Some(id) => id,
            None => 0,
        };
        let is_file = match payload_type {
            Some(kind) => kind == conn::FILE,
            None => false,
        };
        if is_file {
            return self.on_file(transfer);
        }
        match push_payload(&mut self.bufs, transfer) {
            Err(error) => just(Outcome::Fail(error)),
            Ok(None) => just(Outcome::Continue),
            Ok(Some(bytes)) => self.on_payload(id, bytes),
        }
    }

    fn outcome_now(&self) -> (outcome: Outcome)
        ensures
            outcome@ == if all_done(self@.files) {
                OutcomeView::Finish
            } else {
                OutcomeView::Continue
            },
    {
        if files_done(&self.files) {
            Outcome::Finish
        } else {
            Outcome::Continue
        }
    }

    fn put_back(&mut self, id: i64, file: InFile)
        ensures
            final(self)@ == (InboundView {
                files: old(self)@.files.insert(id, file@),
                ..old(self)@
            }),
    {
        self.files.insert(id, file);
        assert(self@.files =~= old(self)@.files.insert(id, file@));
    }

    fn objection_to(&self, parts: &Parts, transfer: Ghost<conn::PayloadTransferFrameView>) -> (error:
        Option<Error>)
        requires
            parts.id == id_of(transfer@),
            parts.offset == offset_of(transfer@),
            parts.body@ == body_of(transfer@),
        ensures
            opt_view(error) == chunk_objection(self@, transfer@),
    {
        if !self.accepted {
            return Some(Error::protocol("file bytes arrived before acceptance"));
        }
        let file = match self.files.get(&parts.id) {
            Some(file) => file,
            None => {
                assert(!self@.files.contains_key(parts.id));
                return Some(Error::protocol("unknown quick share file"));
            },
        };
        assert(file@ == self@.files[parts.id]);
        let offset: u64 = if parts.offset < 0 {
            u64::MAX
        } else {
            parts.offset as u64
        };
        if offset != file.written {
            return Some(Error::protocol("quick share file chunk is out of order"));
        }
        let len: u64 = parts.body.len() as u64;
        if file.size > 0 && len > 0 && (file.written > file.size || len > file.size
            - file.written) {
            return Some(Error::protocol("quick share file exceeded its declared size"));
        }
        if !file.opened {
            if let Err(error) = safe_file_name(file.name.as_str()) {
                return Some(error);
            }
        }
        None
    }

    fn on_file(&mut self, transfer: conn::PayloadTransferFrame) -> (step: Step)
        ensures
            follows(step, final(self)@, file_step(old(self)@, transfer@)),
    {
        let ghost view = transfer@;
        let parts = parts_of(transfer);
        if let Some(error) = self.objection_to(&parts, Ghost(view)) {
            return just(Outcome::Fail(error));
        }
        let ghost before = self.files@;
        let id: i64 = parts.id;
        let len: u64 = parts.body.len() as u64;
        let mut file = match self.files.remove(&id) {
            Some(file) => file,
            None => return just(Outcome::Continue),
        };
        let ghost held = file@;
        assert(held == map_view(before)[id]);
        let mut actions: Vec<Action> = Vec::new();
        assert(seq_view(actions@) =~= Seq::empty());
        if !file.opened {
            let dest = match destination(file.name.as_str(), file.kind, self.sort_media) {
                Ok(dest) => dest,
                Err(error) => return just(Outcome::Fail(error)),
            };
            assert(dest_view(dest) == dest_of(old(self)@, held));
            push_action(&mut actions, Action::Open { id, dest });
            file.opened = true;
        }
        let last = parts.last;
        if len > 0 {
            push_action(&mut actions, Action::Write { id, body: parts.body });
            file.written = file.written.saturating_add(len);
        }
        assert(seq_view(actions@) =~= chunk_actions(
            old(self)@,
            id,
            held,
            body_of(transfer@),
        ));
        if last {
            if file.size != file.written {
                let mut text = file.name.clone();
                text.append(" is incomplete (");
                text.append(decimal(file.written).as_str());
                text.append(" of ");
                text.append(decimal(file.size).as_str());
                text.append(" bytes)");
                let ghost kept = file@;
                assert(kept == (InFileView { done: held.done, ..file_after(held, transfer@) }));
                self.put_back(id, file);
                assert(self@.files =~= old(self)@.files.insert(id, kept));
                return step_of(actions, Outcome::Fail(Error::Protocol(text)));
            }
            file.done = true;
            self.bytes = self.bytes.saturating_add(file.written);
            push_action(&mut actions, Action::Commit { id });
            let ack = conn::payload_ack(id, conn::FILE, from_wire(file.size));
            push_action(&mut actions, Action::Send(ack));
        }
        assert(file@ == file_after(held, transfer@));
        self.files.insert(id, file);
        assert(self@.files =~= old(self)@.files.insert(id, file@));
        step_of(actions, self.outcome_now())
    }

    fn on_payload(&mut self, id: i64, bytes: Vec<u8>) -> (step: Step)
        ensures
            follows(step, final(self)@, payload_step(old(self)@, id, bytes@)),
    {
        if let Ok(frame) = share::Frame::decode(bytes.as_slice()) {
            if frame.is_control() {
                return self.on_share(frame);
            }
        }
        self.on_text(id, bytes)
    }

    fn on_text(&mut self, id: i64, bytes: Vec<u8>) -> (step: Step)
        ensures
            follows(step, final(self)@, text_step(old(self)@, id, bytes@)),
    {
        if !self.accepted {
            return just(Outcome::Continue);
        }
        let ghost before = self.files@;
        let text = match self.files.get(&id) {
            Some(file) => file.text,
            None => false,
        };
        if !text {
            return just(Outcome::Continue);
        }
        let mut file = match self.files.remove(&id) {
            Some(file) => file,
            None => return just(Outcome::Continue),
        };
        let ghost held = file@;
        assert(held == map_view(before)[id]);
        let dest = match destination(file.name.as_str(), file.kind, self.sort_media) {
            Ok(dest) => dest,
            Err(error) => {
                self.put_back(id, file);
                assert(self@.files =~= old(self)@.files);
                return just(Outcome::Fail(error));
            },
        };
        assert(dest_view(dest) == dest_of(old(self)@, held));
        file.done = true;
        self.bytes = self.bytes.saturating_add(bytes.len() as u64);
        self.files.insert(id, file);
        assert(self@.files =~= old(self)@.files.insert(id, file@));
        let outcome = self.outcome_now();
        one(Action::Store { id, dest, body: bytes }, outcome)
    }

    fn on_share(&mut self, frame: share::Frame) -> (step: Step)
        ensures
            follows(step, final(self)@, share_step(old(self)@, frame@)),
    {
        let v1 = match frame.v1 {
            Some(v1) => v1,
            None => return just(Outcome::Fail(Error::protocol("empty share frame"))),
        };
        let kind = match v1.frame_type {
            Some(kind) => kind,
            None => return just(Outcome::Continue),
        };
        if kind == share::PAIRED_KEY_ENCRYPTION {
            self.got_key = true;
            if self.sent_result {
                return just(Outcome::Continue);
            }
            self.sent_result = true;
            return one(Action::Share(paired_result()), Outcome::Continue);
        }
        if kind == share::CANCEL {
            return just(Outcome::Fail(Error::Rejected("cancelled".to_owned())));
        }
        if kind == share::INTRODUCTION {
            let intro = match v1.introduction {
                Some(intro) => intro,
                None => share::IntroductionFrame::empty(),
            };
            return self.on_introduction(intro);
        }
        just(Outcome::Continue)
    }

    fn on_introduction(&mut self, intro: share::IntroductionFrame) -> (step: Step)
        ensures
            follows(step, final(self)@, introduction_step(old(self)@, intro@)),
    {
        let ghost metas = intro@.file_metadata;
        let ghost texts = intro@.text_metadata;
        let ghost entries = introduced(intro@);
        let ghost start = self@;
        let mut offer: Vec<IncomingFile> = Vec::new();
        assert(metas.skip(0) =~= metas);
        assert(seq_view(offer@) =~= shown(entries.take(0)));
        assert(entries.take(0) =~= Seq::empty());
        for i in 0..intro.file_metadata.len()
            invariant
                metas == intro@.file_metadata,
                metas.len() == intro.file_metadata@.len(),
                entries == introduced(intro@),
                self@ == (InboundView {
                    files: insert_all(start.files, entries.take(i as int)),
                    ..start
                }),
                files_objection(metas, start.max_file_bytes) == files_objection(
                    metas.skip(i as int),
                    start.max_file_bytes,
                ),
                files_in_order(metas, start.max_file_bytes) == i + files_in_order(
                    metas.skip(i as int),
                    start.max_file_bytes,
                ),
                seq_view(offer@) == shown(entries.take(i as int)),
                start == old(self)@,
        {
            let meta = &intro.file_metadata[i];
            assert(metas.skip(i as int)[0] == meta@);
            assert(metas.skip(i as int).skip(1) =~= metas.skip(i + 1));
            let ghost files = self@.files;
            let ghost held = offer@;
            let name = match &meta.name {
                Some(name) => name.clone(),
                None => String::new(),
            };
            if safe_file_name(name.as_str()).is_err() {
                return just(Outcome::Fail(Error::UnsafeName));
            }
            let size: u64 = match meta.size {
                Some(size) => if size < 0 {
                    u64::MAX
                } else {
                    size as u64
                },
                None => 0,
            };
            if size > self.max_file_bytes {
                return one(
                    Action::Share(share_response(share::NOT_ENOUGH_SPACE)),
                    Outcome::Fail(Error::TooLarge),
                );
            }
            let mime = match &meta.mime_type {
                Some(mime) => mime.clone(),
                None => {
                    let nothing: [u8; 0] = [];
                    assert(nothing@ =~= Seq::empty());
                    sniff(&nothing, name.as_str()).1.to_owned()
                },
            };
            let id: i64 = match meta.payload_id {
                Some(id) => id,
                None => 0,
            };
            let file = InFile {
                name: name.clone(),
                size,
                mime: mime.clone(),
                kind: kind_of_mime(mime.as_str()),
                text: false,
                written: 0,
                opened: false,
                done: false,
            };
            assert(entries[i as int] == (id, file@));
            let kind = kind_of_mime(mime.as_str());
            let item = IncomingFile { name, bytes: size, mime, kind };
            self.files.insert(id, file);
            offer.push(item);
            proof {
                assert(self@.files =~= files.insert(id, file@));
                assert(entries.take(i + 1).drop_last() =~= entries.take(i as int));
                assert(seq_view(offer@) =~= seq_view(held).push(item@));
                assert(shown(entries.take(i + 1)) =~= shown(entries.take(i as int)).push(item@));
            }
        }
        let count: usize = intro.file_metadata.len();
        assert(metas.skip(count as int) =~= Seq::empty());
        for i in 0..intro.text_metadata.len()
            invariant
                count == metas.len(),
                metas == intro@.file_metadata,
                texts == intro@.text_metadata,
                texts.len() == intro.text_metadata@.len(),
                entries == introduced(intro@),
                self@ == (InboundView {
                    files: insert_all(start.files, entries.take(count + i)),
                    ..start
                }),
                files_objection(metas, start.max_file_bytes) is None,
                seq_view(offer@) == shown(entries.take(count + i)),
                start == old(self)@,
        {
            let meta = &intro.text_metadata[i];
            let ghost files = self@.files;
            let ghost held = offer@;
            let id: i64 = match meta.payload_id {
                Some(id) => id,
                None => 0,
            };
            let size: u64 = match meta.size {
                Some(size) => if size < 0 {
                    0
                } else {
                    size as u64
                },
                None => 0,
            };
            let name = text_file_name(&meta.text_title);
            let file = InFile {
                name: name.clone(),
                size,
                mime: "text/plain".to_owned(),
                kind: MediaKind::Other,
                text: true,
                written: 0,
                opened: false,
                done: false,
            };
            assert(texts[i as int] == meta@);
            assert(entries[count + i] == (id, file@));
            let mime = "text/plain".to_owned();
            let kind = kind_of_mime(mime.as_str());
            let item = IncomingFile { name, bytes: size, mime, kind };
            self.files.insert(id, file);
            offer.push(item);
            proof {
                assert(self@.files =~= files.insert(id, file@));
                assert(entries.take(count + i + 1).drop_last() =~= entries.take(count + i));
                assert(seq_view(offer@) =~= seq_view(held).push(item@));
                assert(shown(entries.take(count + i + 1)) =~= shown(entries.take(count + i)).push(
                    item@,
                ));
            }
        }
        assert(entries.take(entries.len() as int) =~= entries);
        if offer.len() == 0 {
            assert(seq_view(offer@).len() == entries.len());
            return just(
                Outcome::Fail(Error::protocol("quick share introduction has no files")),
            );
        }
        assert(seq_view(offer@).len() == entries.len());
        self.waiting = true;
        let ask = TransferOffer {
            protocol: "quickshare",
            peer: self.peer.clone(),
            pin: Some(self.pin.clone()),
            files: offer,
        };
        one(Action::Ask(ask), Outcome::Continue)
    }

    /// Takes the decision on the files that were introduced.
    pub fn on_decision(&mut self, allow: bool) -> (step: Step)
        requires
            old(self)@.waiting,
        ensures
            follows(step, final(self)@, decision_step(old(self)@, allow)),
    {
        self.waiting = false;
        self.accepted = allow;
        if allow {
            one(Action::Share(share_response(share::ACCEPT)), Outcome::Continue)
        } else {
            one(Action::Share(share_response(share::REJECT)), Outcome::Finish)
        }
    }
}

fn text_file_name(title: &Option<String>) -> (name: String)
    ensures
        name@ == text_name(opt_view(*title)),
{
    match title {
        Some(title) => if safe_file_name(title.as_str()).is_err() {
            "shared-text.txt".to_owned()
        } else if str_ends_with(title.as_str(), ".txt") {
            title.clone()
        } else {
            let mut name = title.clone();
            name.append(".txt");
            name
        },
        None => "shared-text.txt".to_owned(),
    }
}

pub fn paired_result() -> (frame: share::Frame)
    ensures
        frame@ == paired_result_frame(),
{
    share::Frame::new(
        share::PAIRED_KEY_RESULT,
        share::V1Frame {
            paired_key_result: Some(share::PairedKeyResultFrame { status: Some(share::UNABLE) }),
            ..share::V1Frame::empty()
        },
    )
}

pub fn share_response(status: i32) -> (frame: share::Frame)
    ensures
        frame@ == response_frame(status),
{
    share::Frame::new(
        share::RESPONSE,
        share::V1Frame {
            connection_response: Some(share::ConnectionResponseFrame { status: Some(status) }),
            ..share::V1Frame::empty()
        },
    )
}

/// The action touches the disk.
pub open spec fn touches_disk(action: ActionView) -> bool {
    action is Open || action is Write || action is Commit || action is Store
}

/// Nothing touches the disk before the files were accepted.
pub proof fn nothing_is_written_unaccepted(state: InboundView, frame: conn::OfflineFrameView, i: int)
    requires
        !state.accepted,
        whole_frame(frame),
        0 <= i < frame_step(state, frame).1.actions.len(),
    ensures
        !touches_disk(frame_step(state, frame).1.actions[i]),
{
}

/// A session is accepted by a decision alone, and a refusal ends it without
/// touching the disk.
pub proof fn only_a_decision_accepts(state: InboundView, frame: conn::OfflineFrameView)
    requires
        whole_frame(frame),
    ensures
        frame_step(state, frame).0.accepted == state.accepted,
        decision_step(state, true).0.accepted,
        decision_step(state, false).1.outcome is Finish,
        decision_step(state, false).1.actions == seq![
            ActionView::Share(response_frame(share::REJECT)),
        ],
{
}

/// An introduction with an unsafe name or a file over the limit is not put
/// before a person and ends the session; nobody is waited for, and nothing is
/// accepted by it.
pub proof fn objectionable_introduction_fails(
    state: InboundView,
    intro: share::IntroductionFrameView,
    i: int,
)
    requires
        0 <= i < intro.file_metadata.len(),
        safe_name(text_or_empty(intro.file_metadata[i].name)) is None || file_size(
            intro.file_metadata[i].size,
        ) > state.max_file_bytes,
    ensures
        introduction_step(state, intro).0.waiting == state.waiting,
        introduction_step(state, intro).0.accepted == state.accepted,
        introduction_step(state, intro).1.outcome is Fail,
        forall|j: int|
            0 <= j < introduction_step(state, intro).1.actions.len() ==> !((
            #[trigger] introduction_step(state, intro).1.actions[j]) is Ask),
{
    lemma_objection_found(intro.file_metadata, state.max_file_bytes, i);
}

proof fn lemma_objection_found(files: Seq<share::FileMetadataView>, limit: u64, i: int)
    requires
        0 <= i < files.len(),
        safe_name(text_or_empty(files[i].name)) is None || file_size(files[i].size) > limit,
    ensures
        files_objection(files, limit) is Some,
    decreases files.len(),
{
    if i > 0 {
        lemma_objection_found(files.skip(1), limit, i - 1);
    }
}

/// A file that is being sent.
#[derive(Debug)]
pub struct Outgoing {
    pub name: String,
    pub mime: String,
    pub kind: MediaKind,
    pub payload_id: i64,
    pub total: u64,
    pub offset: u64,
}

pub ghost struct OutgoingView {
    pub name: Seq<char>,
    pub mime: Seq<char>,
    pub kind: MediaKind,
    pub payload_id: i64,
    pub total: u64,
    pub offset: u64,
}

impl View for Outgoing {
    type V = OutgoingView;

    open spec fn view(&self) -> OutgoingView {
        OutgoingView {
            name: self.name@,
            mime: self.mime@,
            kind: self.kind,
            payload_id: self.payload_id,
            total: self.total,
            offset: self.offset,
        }
    }
}

impl Outgoing {
    /// A file of the given name and length that begins with `header`. Its name
    /// must be one that a receiver can keep.
    pub fn open(name: &str, header: &[u8], total: u64, payload_id: i64) -> (file: Result<Self>)
        ensures
            safe_name(name@) is None ==> file is Err && file->Err_0@ == ErrorView::UnsafeName,
            safe_name(name@) is Some ==> file is Ok && file->Ok_0@ == (OutgoingView {
                name: name@,
                mime: sniffed(header@, name@).1,
                kind: sniffed(header@, name@).0,
                payload_id,
                total,
                offset: 0,
            }),
    {
        safe_file_name(name)?;
        let (kind, mime) = sniff(header, name);
        Ok(
            Outgoing {
                name: name.to_owned(),
                mime: mime.to_owned(),
                kind,
                payload_id,
                total,
                offset: 0,
            },
        )
    }
}

/// The number that eight random bytes give a payload: not negative and not
/// zero.
pub open spec fn id_of_bytes(low: u64) -> i64 {
    let value = low as int % 0x8000_0000_0000_0000;
    if value == 0 {
        1
    } else {
        value as i64
    }
}

/// The number of a payload, made of eight random bytes.
pub fn payload_id_of(bytes: &[u8; 8]) -> (id: i64)
    ensures
        id == id_of_bytes(le_value(bytes@) as u64),
        id > 0,
{
    let value: u64 = get_le(bytes);
    let low: u64 = value % 0x8000_0000_0000_0000;
    if low == 0 {
        1
    } else {
        low as i64
    }
}

/// A number for a payload, made of eight bytes that are drawn at random, as
/// [`payload_id_of`] says for each draw.
pub fn new_id() -> (id: i64)
    ensures
        exists|bytes: Seq<u8>|
            bytes.len() == 8 && id == id_of_bytes(#[trigger] le_value(bytes) as u64),
        id > 0,
{
    let drawn = random_bytes(8);
    let mut bytes = [0u8; 8];
    for i in 0..8
        invariant
            drawn@.len() == 8,
    {
        bytes[i] = drawn[i];
    }
    let id: i64 = payload_id_of(&bytes);
    assert(bytes@.len() == 8 && id == id_of_bytes(le_value(bytes@) as u64));
    id
}

/// What a sender announces of its files.
pub open spec fn announced(files: Seq<OutgoingView>) -> Seq<share::FileMetadataView> {
    Seq::new(
        files.len(),
        |i: int|
            share::FileMetadataView {
                name: Some(files[i].name),
                file_type: Some(share_type(files[i].kind)),
                payload_id: Some(files[i].payload_id),
                size: Some(wire_to_i64(files[i].total)),
                mime_type: Some(files[i].mime),
                id: Some(files[i].payload_id),
            },
    )
}

/// The frame that announces files.
pub open spec fn introduction_frame(files: Seq<OutgoingView>) -> share::FrameView {
    share::frame_of(
        share::INTRODUCTION,
        share::V1FrameView {
            introduction: Some(
                share::IntroductionFrameView {
                    file_metadata: announced(files),
                    text_metadata: Seq::empty(),
                },
            ),
            ..share::V1Frame::blank()
        },
    )
}

pub fn introduction(files: &Vec<Outgoing>) -> (frame: share::Frame)
    ensures
        frame@ == introduction_frame(seq_view(files@)),
{
    let mut metas: Vec<share::FileMetadata> = Vec::new();
    let ghost views = announced(seq_view(files@));
    for i in 0..files.len()
        invariant
            views == announced(seq_view(files@)),
            seq_view(metas@) == views.take(i as int),
    {
        let file = &files[i];
        let ghost held = metas@;
        let meta = share::FileMetadata {
            name: Some(file.name.clone()),
            file_type: Some(file.kind.quickshare_type()),
            payload_id: Some(file.payload_id),
            size: Some(from_wire(file.total)),
            mime_type: Some(file.mime.clone()),
            id: Some(file.payload_id),
        };
        metas.push(meta);
        assert(seq_view(metas@) =~= seq_view(held).push(meta@));
        assert(views.take(i + 1) =~= views.take(i as int).push(meta@));
    }
    assert(views.take(files@.len() as int) =~= views);
    let intro = share::IntroductionFrame { file_metadata: metas, text_metadata: Vec::new() };
    assert(intro@.text_metadata =~= Seq::empty());
    share::Frame::new(
        share::INTRODUCTION,
        share::V1Frame { introduction: Some(intro), ..share::V1Frame::empty() },
    )
}

/// The frame with which a side presents its keys, of which a receiver without
/// them makes nothing.
pub open spec fn paired_encryption_frame(signed_data: Seq<u8>, hash: Seq<u8>) -> share::FrameView {
    share::frame_of(
        share::PAIRED_KEY_ENCRYPTION,
        share::V1FrameView {
            paired_key_encryption: Some(
                share::PairedKeyEncryptionFrameView {
                    signed_data: Some(signed_data),
                    secret_id_hash: Some(hash),
                },
            ),
            ..share::V1Frame::blank()
        },
    )
}

/// The frame with random bytes in place of keys.
pub fn paired_encryption() -> (frame: share::Frame)
    ensures
        exists|signed_data: Seq<u8>, hash: Seq<u8>|
            signed_data.len() == 72 && hash.len() == 6 && frame@
                == #[trigger] paired_encryption_frame(signed_data, hash),
{
    let signed_data = random_bytes(72);
    let hash = random_bytes(6);
    paired_encryption_of(signed_data, hash)
}

pub fn paired_encryption_of(signed_data: Vec<u8>, hash: Vec<u8>) -> (frame: share::Frame)
    ensures
        frame@ == paired_encryption_frame(signed_data@, hash@),
{
    share::Frame::new(
        share::PAIRED_KEY_ENCRYPTION,
        share::V1Frame {
            paired_key_encryption: Some(
                share::PairedKeyEncryptionFrame {
                    signed_data: Some(signed_data),
                    secret_id_hash: Some(hash),
                },
            ),
            ..share::V1Frame::empty()
        },
    )
}

/// The sending side of a session.
#[derive(Debug)]
pub struct Outbound {
    pub sent_key: bool,
    pub sent_result: bool,
    pub got_key: bool,
    pub got_result: bool,
    pub sent_intro: bool,
    pub accepted: bool,
    pub index: usize,
    pub files: Vec<Outgoing>,
    pub bufs: HashMap<i64, ByteBuf>,
}

pub ghost struct OutboundView {
    pub sent_key: bool,
    pub sent_result: bool,
    pub got_key: bool,
    pub got_result: bool,
    pub sent_intro: bool,
    pub accepted: bool,
    pub index: nat,
    pub files: Seq<OutgoingView>,
    pub bufs: Map<i64, BufView>,
}

impl View for Outbound {
    type V = OutboundView;

    open spec fn view(&self) -> OutboundView {
        OutboundView {
            sent_key: self.sent_key,
            sent_result: self.sent_result,
            got_key: self.got_key,
            got_result: self.got_result,
            sent_intro: self.sent_intro,
            accepted: self.accepted,
            index: self.index as nat,
            files: seq_view(self.files@),
            bufs: map_view(self.bufs@),
        }
    }
}

/// What a sender does when nothing comes in.
#[derive(Debug, Clone, Copy, PartialEq, Eq, Structural)]
pub enum Next {
    /// Present keys.
    SendKey,
    /// Answer the peer's keys.
    SendResult,
    /// Announce the files.
    SendIntroduction,
    /// Send the next chunk of the file at hand.
    SendChunk,
    /// Say good-bye.
    Disconnect,
    /// Wait for the peer.
    Wait,
}

/// What comes next: keys are presented once the peer has presented its own,
/// then answered; files are announced once both sides have answered, and sent
/// once they are accepted.
pub open spec fn next_of(state: OutboundView) -> Next {
    if !state.sent_key && state.got_key {
        Next::SendKey
    } else if state.sent_key && state.got_key && !state.sent_result {
        Next::SendResult
    } else if state.sent_result && state.got_result && !state.sent_intro {
        Next::SendIntroduction
    } else if state.accepted && state.index < state.files.len() {
        Next::SendChunk
    } else if state.accepted {
        Next::Disconnect
    } else {
        Next::Wait
    }
}

/// The status in a response; none counts as zero.
pub open spec fn reply_status(frame: share::FrameView) -> i32 {
    match frame.v1 {
        Some(v1) => match v1.connection_response {
            Some(response) => match response.status {
                Some(status) => status,
                None => 0,
            },
            None => 0,
        },
        None => 0,
    }
}

/// The state after a Quick Share frame, or why the sender stops.
pub open spec fn reply_step(state: OutboundView, frame: share::FrameView) -> std::result::Result<
    OutboundView,
    ErrorView,
> {
    match share::frame_type_of(frame) {
        Some(kind) => if kind == share::PAIRED_KEY_ENCRYPTION {
            Ok(OutboundView { got_key: true, ..state })
        } else if kind == share::PAIRED_KEY_RESULT {
            Ok(OutboundView { got_result: true, ..state })
        } else if kind == share::RESPONSE {
            if reply_status(frame) == share::ACCEPT {
                Ok(OutboundView { accepted: true, ..state })
            } else {
                Err(
                    ErrorView::Rejected(
                        "receiver status "@ + signed_text(reply_status(frame) as int),
                    ),
                )
            }
        } else if kind == share::CANCEL {
            Err(ErrorView::Rejected("cancelled"@))
        } else {
            Ok(state)
        },
        None => Ok(state),
    }
}

/// A response has its response part.
pub open spec fn whole_reply(frame: share::FrameView) -> bool {
    match frame.v1 {
        Some(v1) => v1.frame_type == Some(share::RESPONSE) ==> v1.connection_response is Some,
        None => true,
    }
}

/// The buffers after a frame, and the Quick Share frame that it completes, or why
/// the frame is refused.
pub open spec fn collected(bufs: Map<i64, BufView>, frame: conn::OfflineFrameView) -> (
    Map<i64, BufView>,
    std::result::Result<Option<share::FrameView>, ErrorView>,
) {
    if kind_of_frame(frame) != Some(conn::PAYLOAD_TRANSFER) {
        (bufs, Ok(None))
    } else {
        let (next, payload) = pushed(bufs, payload_of(frame));
        match payload {
            Err(error) => (next, Err(error)),
            Ok(None) => (next, Ok(None)),
            Ok(Some(bytes)) => match merged_with::<share::Frame>(share::Frame::blank(), bytes) {
                Some(reply) if is_control(reply) => (next, Ok(Some(reply))),
                _ => (next, Ok(None)),
            },
        }
    }
}

/// The file after a chunk of it was read, the frame that carries the chunk, and
/// whether the file is at its end.
pub open spec fn chunk_step(file: OutgoingView, data: Seq<u8>) -> std::result::Result<
    (OutgoingView, Option<conn::OfflineFrameView>, bool),
    ErrorView,
> {
    if file.total == 0 && file.offset == 0 {
        Ok(
            (
                file,
                Some(
                    conn::file_chunk_frame(file.payload_id, 0, 0, Seq::empty(), true, file.name),
                ),
                true,
            ),
        )
    } else if data.len() == 0 {
        if file.offset == file.total {
            Ok((file, None, true))
        } else {
            Err(
                ErrorView::Protocol(
                    file.name + " ended before "@ + decimal_text(file.total as nat) + " bytes"@,
                ),
            )
        }
    } else {
        let last = file.offset + data.len() >= file.total;
        Ok(
            (
                OutgoingView { offset: capped_sum(file.offset, data.len()), ..file },
                Some(
                    conn::file_chunk_frame(
                        file.payload_id,
                        wire_to_i64(file.total),
                        wire_to_i64(file.offset),
                        data,
                        last,
                        file.name,
                    ),
                ),
                last,
            ),
        )
    }
}

/// The sum of the lengths of the files.
pub open spec fn total_length(files: Seq<OutgoingView>) -> nat
    decreases files.len(),
{
    if files.len() == 0 {
        0
    } else {
        total_length(files.drop_last()) + files.last().total as nat
    }
}

proof fn lemma_total_length_grows(files: Seq<OutgoingView>, len: int)
    requires
        0 <= len <= files.len(),
    ensures
        total_length(files.take(len)) <= total_length(files),
    decreases files.len(),
{
    if len < files.len() {
        lemma_total_length_grows(files.drop_last(), len);
        assert(files.drop_last().take(len) =~= files.take(len));
    } else {
        assert(files.take(len) =~= files);
    }
}

/// A sender before its first frame.
pub open spec fn fresh_outbound(files: Seq<OutgoingView>) -> OutboundView {
    OutboundView {
        sent_key: false,
        sent_result: false,
        got_key: false,
        got_result: false,
        sent_intro: false,
        accepted: false,
        index: 0,
        files,
        bufs: Map::empty(),
    }
}

impl Outbound {
    pub fn new(files: Vec<Outgoing>) -> (session: Self)
        ensures
            session@ == fresh_outbound(seq_view(files@)),
    {
        let session = Outbound {
            sent_key: false,
            sent_result: false,
            got_key: false,
            got_result: false,
            sent_intro: false,
            accepted: false,
            index: 0,
            files,
            bufs: HashMap::new(),
        };
        assert(session@.bufs =~= Map::empty());
        session
    }

    /// What to do when nothing comes in.
    pub fn next(&self) -> (next: Next)
        ensures
            next == next_of(self@),
    {
        if !self.sent_key && self.got_key {
            Next::SendKey
        } else if self.sent_key && self.got_key && !self.sent_result {
            Next::SendResult
        } else if self.sent_result && self.got_result && !self.sent_intro {
            Next::SendIntroduction
        } else if self.accepted && self.index < self.files.len() {
            Next::SendChunk
        } else if self.accepted {
            Next::Disconnect
        } else {
            Next::Wait
        }
    }

    /// Notes that keys were presented.
    pub fn key_sent(&mut self)
        ensures
            final(self)@ == (OutboundView { sent_key: true, ..old(self)@ }),
    {
        self.sent_key = true;
    }

    /// Notes that the peer's keys were answered.
    pub fn result_sent(&mut self)
        ensures
            final(self)@ == (OutboundView { sent_result: true, ..old(self)@ }),
    {
        self.sent_result = true;
    }

    /// Notes that the files were announced.
    pub fn introduction_sent(&mut self)
        ensures
            final(self)@ == (OutboundView { sent_intro: true, ..old(self)@ }),
    {
        self.sent_intro = true;
    }

    /// Takes a decrypted frame. A Quick Share frame that it completes is handed
    /// out, for [`Outbound::on_reply`].
    pub fn on_frame(&mut self, frame: conn::OfflineFrame) -> (reply: Result<Option<share::Frame>>)
        requires
            whole_frame(frame@),
        ensures
            final(self)@ == (OutboundView {
                bufs: collected(old(self)@.bufs, frame@).0,
                ..old(self)@
            }),
            match collected(old(self)@.bufs, frame@).1 {
                Ok(expected) => reply is Ok && opt_view(reply->Ok_0) == expected,
                Err(error) => reply is Err && reply->Err_0@ == error,
            },
    {
        let v1 = match frame.v1 {
            Some(v1) => v1,
            None => return Ok(None),
        };
        let is_payload = match v1.frame_type {
            Some(kind) => kind == conn::PAYLOAD_TRANSFER,
            None => false,
        };
        if !is_payload {
            return Ok(None);
        }
        let transfer = match v1.payload_transfer {
            Some(transfer) => transfer,
            None => return Ok(None),
        };
        match push_payload(&mut self.bufs, transfer)? {
            Some(bytes) => match share::Frame::decode(bytes.as_slice()) {
                Ok(reply) => if reply.is_control() {
                    Ok(Some(reply))
                } else {
                    Ok(None)
                },
                Err(_) => Ok(None),
            },
            None => Ok(None),
        }
    }

    /// Takes a Quick Share frame.
    pub fn on_reply(&mut self, frame: share::Frame) -> (taken: Result<()>)
        requires
            whole_reply(frame@),
        ensures
            match reply_step(old(self)@, frame@) {
                Ok(next) => taken is Ok && final(self)@ == next,
                Err(error) => {
                    &&& taken is Err
                    &&& taken->Err_0@ == error
                    &&& final(self)@ == old(self)@
                },
            },
    {
        let v1 = match frame.v1 {
            Some(v1) => v1,
            None => return Ok(()),
        };
        let kind = match v1.frame_type {
            Some(kind) => kind,
            None => return Ok(()),
        };
        if kind == share::PAIRED_KEY_ENCRYPTION {
            self.got_key = true;
        } else if kind == share::PAIRED_KEY_RESULT {
            self.got_result = true;
        } else if kind == share::RESPONSE {
            let status: i32 = match v1.connection_response {
                Some(response) => match response.status {
                    Some(status) => status,
                    None => 0,
                },
                None => 0,
            };
            if status != share::ACCEPT {
                let mut text = "receiver status ".to_owned();
                text.append(signed(status).as_str());
                return Err(Error::Rejected(text));
            }
            self.accepted = true;
        } else if kind == share::CANCEL {
            return Err(Error::Rejected("cancelled".to_owned()));
        }
        Ok(())
    }

    /// Takes what was read of the file at hand, and gives the frame that carries
    /// it.
    pub fn on_chunk(&mut self, data: &[u8]) -> (frame: Result<Option<conn::OfflineFrame>>)
        requires
            old(self)@.index < old(self)@.files.len(),
        ensures
            match chunk_step(old(self)@.files[old(self)@.index as int], data@) {
                Ok((file, expected, done)) => {
                    &&& frame is Ok
                    &&& opt_view(frame->Ok_0) == expected
                    &&& final(self)@ == (OutboundView {
                        files: old(self)@.files.update(old(self)@.index as int, file),
                        index: if done {
                            old(self)@.index + 1
                        } else {
                            old(self)@.index
                        },
                        ..old(self)@
                    })
                },
                Err(error) => {
                    &&& frame is Err
                    &&& frame->Err_0@ == error
                    &&& final(self)@ == old(self)@
                },
            },
    {
        let index: usize = self.index;
        let _count: usize = self.files.len();
        let ghost held = self.files@;
        assert(self@.files[index as int] == self.files@[index as int]@);
        if self.files[index].total == 0 && self.files[index].offset == 0 {
            let nothing: [u8; 0] = [];
            assert(nothing@ =~= Seq::empty());
            let frame = conn::file_chunk(
                self.files[index].payload_id,
                0,
                0,
                &nothing,
                true,
                self.files[index].name.as_str(),
            );
            self.index = index + 1;
            assert(self@.files =~= old(self)@.files.update(index as int, self.files@[index as int]@));
            return Ok(Some(frame));
        }
        if data.len() == 0 {
            if self.files[index].offset != self.files[index].total {
                let mut text = self.files[index].name.clone();
                text.append(" ended before ");
                text.append(decimal(self.files[index].total).as_str());
                text.append(" bytes");
                return Err(Error::Protocol(text));
            }
            self.index = index + 1;
            assert(self@.files =~= old(self)@.files.update(index as int, self.files@[index as int]@));
            return Ok(None);
        }
        let file = &self.files[index];
        let reached: u64 = file.offset.saturating_add(data.len() as u64);
        let last = reached >= file.total;
        let frame = conn::file_chunk(
            file.payload_id,
            from_wire(file.total),
            from_wire(file.offset),
            data,
            last,
            file.name.as_str(),
        );
        self.files[index].offset = reached;
        if last {
            self.index = index + 1;
        }
        assert(self@.files =~= old(self)@.files.update(
            index as int,
            OutgoingView { offset: reached, ..held[index as int]@ },
        ));
        Ok(Some(frame))
    }

    /// How many bytes the files hold.
    pub fn total_bytes(&self) -> (total: u64)
        requires
            total_length(self@.files) <= u64::MAX,
        ensures
            total == total_length(self@.files),
    {
        let mut total: u64 = 0;
        for i in 0..self.files.len()
            invariant
                self@.files.len() == self.files@.len(),
                total == total_length(self@.files.take(i as int)),
                total_length(self@.files) <= u64::MAX,
        {
            proof {
                assert(self@.files.take(i + 1).drop_last() =~= self@.files.take(i as int));
                lemma_total_length_grows(self@.files, i + 1);
            }
            total = total + self.files[i].total;
        }
        assert(self@.files.take(self@.files.len() as int) =~= self@.files);
        total
    }
}

/// What a sender announces is what a receiver expects: the same name, length
/// and type under the same number.
pub proof fn announced_file_is_expected(files: Seq<OutgoingView>, i: int)
    requires
        0 <= i < files.len(),
        files[i].total <= i64::MAX,
    ensures
        id_or_zero(announced(files)[i].payload_id) == files[i].payload_id,
        introduced_file(announced(files)[i]) == (InFileView {
            name: files[i].name,
            size: files[i].total,
            mime: files[i].mime,
            kind: mime_kind(files[i].mime),
            text: false,
            written: 0,
            opened: false,
            done: false,
        }),
{
}

/// A receiver that has accepted a file takes the sender's next chunk of it,
/// writes exactly the bytes of the chunk, and has the file in place after the
/// last one.
pub proof fn chunk_is_taken(state: InboundView, file: OutgoingView, data: Seq<u8>)
    requires
        state.accepted,
        state.files.contains_key(file.payload_id),
        state.files[file.payload_id].size == file.total,
        state.files[file.payload_id].written == file.offset,
        !state.files[file.payload_id].done,
        safe_name(state.files[file.payload_id].name) is Some,
        file.total <= i64::MAX,
        data.len() > 0,
        file.offset + data.len() <= file.total,
    ensures
        chunk_step(file, data) matches Ok((next, Some(frame), last)) && {
            let (after, step) = frame_step(state, frame);
            let received = after.files[file.payload_id];
            &&& !(step.outcome is Fail)
            &&& step.actions.contains(ActionView::Write { id: file.payload_id, body: data })
            &&& written_to(step.actions, file.payload_id) == data
            &&& after.accepted
            &&& after.files.contains_key(file.payload_id)
            &&& received.name == state.files[file.payload_id].name
            &&& received.written == next.offset
            &&& received.size == file.total
            &&& received.done == last
            &&& last ==> step.actions.contains(ActionView::Commit { id: file.payload_id })
            &&& last <==> next.offset == file.total
        },
{
    let (next, frame, last) = chunk_step(file, data)->Ok_0;
    let (after, step) = frame_step(state, frame->0);
    let id = file.payload_id;
    let before = chunk_actions(state, id, state.files[id], data);
    assert(before.last() == ActionView::Write { id, body: data });
    assert(step.actions[before.len() - 1] == ActionView::Write { id, body: data });
    assert(written_to(before.drop_last(), id) =~= Seq::empty()) by {
        if before.len() > 1 {
            assert(before.drop_last().drop_last() =~= Seq::empty());
        }
        reveal_with_fuel(written_to, 2);
    }
    assert(written_to(before, id) =~= data);
    if last {
        assert(step.actions[before.len() as int] == ActionView::Commit { id });
        assert(step.actions.drop_last().drop_last() =~= before);
        reveal_with_fuel(written_to, 3);
    } else {
        assert(step.actions =~= before);
    }
}

/// An empty file is sent as one last chunk, and is in place after it.
pub proof fn empty_file_is_taken(state: InboundView, file: OutgoingView, data: Seq<u8>)
    requires
        state.accepted,
        state.files.contains_key(file.payload_id),
        state.files[file.payload_id].size == 0,
        state.files[file.payload_id].written == 0,
        safe_name(state.files[file.payload_id].name) is Some,
        file.total == 0,
        file.offset == 0,
    ensures
        chunk_step(file, data) matches Ok((next, Some(frame), true)) && {
            let (after, step) = frame_step(state, frame);
            &&& !(step.outcome is Fail)
            &&& after.files[file.payload_id].done
            &&& step.actions.contains(ActionView::Commit { id: file.payload_id })
        },
{
    let (next, frame, last) = chunk_step(file, data)->Ok_0;
    let (after, step) = frame_step(state, frame->0);
    let id = file.payload_id;
    let before = chunk_actions(state, id, state.files[id], Seq::empty());
    assert(step.actions[before.len() as int] == ActionView::Commit { id });
}

/// The packet carries bytes of the payload with the given number: it is neither
/// an acknowledgement nor part of a file.
pub open spec fn bears(packet: conn::PayloadTransferFrameView, id: i64) -> bool {
    &&& packet.packet_type != Some(conn::PACKET_ACK)
    &&& header_of(packet).payload_type != Some(conn::FILE)
    &&& id_of(packet) == id
}

/// The buffers after the first `count` packets.
pub open spec fn after_pushes(
    bufs: Map<i64, BufView>,
    packets: Seq<conn::PayloadTransferFrameView>,
    count: nat,
) -> Map<i64, BufView>
    decreases count,
{
    if count == 0 {
        bufs
    } else {
        pushed(after_pushes(bufs, packets, (count - 1) as nat), packets[count - 1]).0
    }
}

/// The bytes of the payload in the first `count` packets.
pub open spec fn carried(
    packets: Seq<conn::PayloadTransferFrameView>,
    count: nat,
    id: i64,
) -> Seq<u8>
    decreases count,
{
    if count == 0 {
        Seq::empty()
    } else if bears(packets[count - 1], id) {
        carried(packets, (count - 1) as nat, id) + body_of(packets[count - 1])
    } else {
        carried(packets, (count - 1) as nat, id)
    }
}

/// The packets hold the data as consecutive chunks of one payload, each with its
/// true offset and the length of the whole, of which the last packet alone is
/// marked as the last. Between them any other packets may stand.
pub open spec fn cut_into(
    packets: Seq<conn::PayloadTransferFrameView>,
    id: i64,
    data: Seq<u8>,
) -> bool {
    &&& packets.len() > 0
    &&& bears(packets.last(), id)
    &&& carried(packets, packets.len(), id) == data
    &&& forall|k: int|
        0 <= k < packets.len() && bears(#[trigger] packets[k], id) ==> {
            &&& header_of(packets[k]).total_size == Some(data.len() as i64)
            &&& offset_of(packets[k]) == carried(packets, k as nat, id).len()
            &&& is_last(packets[k]) <==> k == packets.len() - 1
        }
}

proof fn lemma_carried_grows(packets: Seq<conn::PayloadTransferFrameView>, count: nat, id: i64)
    requires
        count <= packets.len(),
    ensures
        carried(packets, count, id).len() <= carried(packets, packets.len(), id).len(),
    decreases packets.len() - count,
{
    if count < packets.len() {
        lemma_carried_grows(packets, count + 1, id);
    }
}

proof fn lemma_gathering(
    bufs: Map<i64, BufView>,
    packets: Seq<conn::PayloadTransferFrameView>,
    id: i64,
    data: Seq<u8>,
    count: nat,
)
    requires
        !bufs.contains_key(id),
        data.len() <= MAX_FRAME,
        cut_into(packets, id, data),
        count < packets.len(),
    ensures
        ({
            let now = after_pushes(bufs, packets, count);
            let so_far = carried(packets, count, id);
            if now.contains_key(id) {
                now[id] == (BufView { total: Some(data.len() as i64), buf: so_far })
            } else {
                so_far == Seq::<u8>::empty()
            }
        }),
    decreases count,
{
    if count > 0 {
        let last = (count - 1) as nat;
        lemma_gathering(bufs, packets, id, data, last);
        lemma_carried_grows(packets, count, id);
        let packet = packets[last as int];
        if bears(packet, id) {
            assert(!is_last(packet));
            assert(carried(packets, last, id) + body_of(packet) =~= carried(packets, count, id));
        }
    }
}

/// A payload is collected however it is cut into chunks, and whatever other
/// packets come between them: every chunk but the last hands out nothing, and
/// the last one hands out the data.
pub proof fn cut_payload_is_collected(
    bufs: Map<i64, BufView>,
    packets: Seq<conn::PayloadTransferFrameView>,
    id: i64,
    data: Seq<u8>,
)
    requires
        !bufs.contains_key(id),
        data.len() <= MAX_FRAME,
        cut_into(packets, id, data),
    ensures
        forall|k: int|
            0 <= k < packets.len() && bears(#[trigger] packets[k], id) ==> pushed(
                after_pushes(bufs, packets, k as nat),
                packets[k],
            ).1 == Ok::<Option<Seq<u8>>, ErrorView>(
                if k == packets.len() - 1 {
                    Some(data)
                } else {
                    None
                },
            ),
{
    assert forall|k: int| 0 <= k < packets.len() && bears(#[trigger] packets[k], id) implies pushed(
        after_pushes(bufs, packets, k as nat),
        packets[k],
    ).1 == Ok::<Option<Seq<u8>>, ErrorView>(
        if k == packets.len() - 1 {
            Some(data)
        } else {
            None
        },
    ) by {
        lemma_gathering(bufs, packets, id, data, k as nat);
        lemma_carried_grows(packets, (k + 1) as nat, id);
        assert(carried(packets, k as nat, id) + body_of(packets[k]) =~= carried(
            packets,
            (k + 1) as nat,
            id,
        ));
    }
}

/// Acknowledgements and parts of files hand out nothing and change no buffer.
pub proof fn strays_change_nothing(
    bufs: Map<i64, BufView>,
    packet: conn::PayloadTransferFrameView,
)
    requires
        packet.packet_type == Some(conn::PACKET_ACK) || header_of(packet).payload_type == Some(
            conn::FILE,
        ),
    ensures
        pushed(bufs, packet) == (bufs, Ok::<Option<Seq<u8>>, ErrorView>(None)),
{
}

/// A chunk that does not begin where the bytes of its payload end is refused.
pub proof fn gaps_are_refused(
    bufs: Map<i64, BufView>,
    packet: conn::PayloadTransferFrameView,
    id: i64,
)
    requires
        bears(packet, id),
        offset_of(packet) != if bufs.contains_key(id) {
            bufs[id].buf.len() as int
        } else {
            0
        },
    ensures
        pushed(bufs, packet).1 is Err,
        pushed(bufs, packet).1->Err_0 is Protocol,
{
}

/// A payload of bytes is collected from its two frames.
pub proof fn payload_is_collected(bufs: Map<i64, BufView>, id: i64, data: Seq<u8>)
    requires
        !bufs.contains_key(id),
        data.len() <= MAX_FRAME,
    ensures
        ({
            let frames = conn::bytes_payload_frames(id, data);
            let next = pushed(bufs, payload_of(frames[0]));
            &&& next.1 == Ok::<Option<Seq<u8>>, ErrorView>(None)
            &&& pushed(next.0, payload_of(frames[1])).1 == Ok::<Option<Seq<u8>>, ErrorView>(
                Some(data),
            )
        }),
{
    let frames = conn::bytes_payload_frames(id, data);
    let next = pushed(bufs, payload_of(frames[0])).0;
    assert(Seq::<u8>::empty() + data =~= data);
    assert(data + Seq::<u8>::empty() =~= data);
    assert(next[id].buf == data);
}

/// A control frame that was sent as a payload of bytes is what the other side
/// reads, once both frames of the payload have come.
pub proof fn control_frame_is_read(bufs: Map<i64, BufView>, id: i64, frame: share::FrameView)
    requires
        !bufs.contains_key(id),
        is_control(frame),
        message_bytes::<share::Frame>(frame).len() <= MAX_FRAME,
        merged_with::<share::Frame>(
            share::Frame::blank(),
            message_bytes::<share::Frame>(frame),
        ) == Some(frame),
    ensures
        ({
            let frames = conn::bytes_payload_frames(id, message_bytes::<share::Frame>(frame));
            let next = collected(bufs, frames[0]);
            &&& next.1 == Ok::<Option<share::FrameView>, ErrorView>(None)
            &&& collected(next.0, frames[1]).1 == Ok::<Option<share::FrameView>, ErrorView>(
                Some(frame),
            )
        }),
{
    payload_is_collected(bufs, id, message_bytes::<share::Frame>(frame));
}

/// What is written to the file of a payload, in its order.
pub open spec fn written_to(actions: Seq<ActionView>, id: i64) -> Seq<u8>
    decreases actions.len(),
{
    if actions.len() == 0 {
        Seq::empty()
    } else {
        match actions.last() {
            ActionView::Write { id: at, body } if at == id => written_to(actions.drop_last(), id)
                + body,
            _ => written_to(actions.drop_last(), id),
        }
    }
}

/// Chunks in a row.
pub open spec fn put_together(chunks: Seq<Seq<u8>>) -> Seq<u8>
    decreases chunks.len(),
{
    if chunks.len() == 0 {
        Seq::empty()
    } else {
        chunks[0] + put_together(chunks.skip(1))
    }
}

/// The receiver, and all that it has done, after a sender has read a file in the
/// given chunks and sent them; `None` where either side failed.
pub open spec fn delivered(state: InboundView, file: OutgoingView, chunks: Seq<Seq<u8>>) -> Option<
    (InboundView, Seq<ActionView>),
>
    decreases chunks.len(),
{
    if chunks.len() == 0 {
        Some((state, Seq::empty()))
    } else {
        match chunk_step(file, chunks[0]) {
            Ok((next, Some(frame), _)) => {
                let (after, step) = frame_step(state, frame);
                if step.outcome is Fail {
                    None
                } else {
                    match delivered(after, next, chunks.skip(1)) {
                        Some((end, actions)) => Some((end, step.actions + actions)),
                        None => None,
                    }
                }
            },
            _ => None,
        }
    }
}

proof fn lemma_written_concat(a: Seq<ActionView>, b: Seq<ActionView>, id: i64)
    ensures
        written_to(a + b, id) == written_to(a, id) + written_to(b, id),
    decreases b.len(),
{
    if b.len() == 0 {
        assert(a + b =~= a);
        assert(written_to(a, id) + written_to(b, id) =~= written_to(a, id));
    } else {
        lemma_written_concat(a, b.drop_last(), id);
        assert((a + b).drop_last() =~= a + b.drop_last());
        assert(written_to(a + b, id) =~= written_to(a, id) + written_to(b, id));
    }
}

/// A file that was accepted arrives whole, however it is cut into chunks: the
/// bytes that are written to it are the bytes that were read, in their order,
/// and it is in place after the last one.
pub proof fn file_arrives_whole(state: InboundView, file: OutgoingView, chunks: Seq<Seq<u8>>)
    requires
        state.accepted,
        state.files.contains_key(file.payload_id),
        state.files[file.payload_id].size == file.total,
        state.files[file.payload_id].written == file.offset,
        !state.files[file.payload_id].done,
        safe_name(state.files[file.payload_id].name) is Some,
        file.total <= i64::MAX,
        chunks.len() > 0,
        forall|i: int| 0 <= i < chunks.len() ==> (#[trigger] chunks[i]).len() > 0,
        file.offset + put_together(chunks).len() == file.total,
    ensures
        delivered(state, file, chunks) matches Some((end, actions)) && {
            &&& written_to(actions, file.payload_id) == put_together(chunks)
            &&& actions.contains(ActionView::Commit { id: file.payload_id })
            &&& end.files[file.payload_id].done
        },
    decreases chunks.len(),
{
    let id = file.payload_id;
    let data = chunks[0];
    let rest = chunks.skip(1);
    chunk_is_taken(state, file, data);
    let (next, frame, last) = chunk_step(file, data)->Ok_0;
    let (after, step) = frame_step(state, frame->0);
    if rest.len() == 0 {
        assert(put_together(rest) =~= Seq::empty());
        assert(put_together(chunks) =~= data);
        assert(delivered(after, next, rest) == Some((after, Seq::<ActionView>::empty())));
        assert(step.actions + Seq::<ActionView>::empty() =~= step.actions);
    } else {
        assert forall|i: int| 0 <= i < rest.len() implies (#[trigger] rest[i]).len() > 0 by {
            assert(rest[i] == chunks[i + 1]);
        }
        assert(put_together(rest).len() >= rest[0].len());
        file_arrives_whole(after, next, rest);
        let (end, actions) = delivered(after, next, rest)->0;
        lemma_written_concat(step.actions, actions, id);
        let at = choose|i: int| 0 <= i < actions.len() && actions[i] == (ActionView::Commit { id });
        assert((step.actions + actions)[step.actions.len() + at] == ActionView::Commit { id });
    }
}

/// The bytes of a frame.
pub open spec fn frame_bytes(frame: conn::OfflineFrameView) -> Seq<u8> {
    message_bytes::<conn::OfflineFrame>(frame)
}

/// Seals a frame. A receiver under the same keys that has taken as many messages
/// as were sealed before opens it as the frame.
pub fn seal_frame(secure: &mut SecureChannel, frame: &conn::OfflineFrame) -> (sealed: Result<Vec<u8>>)
    requires
        old(secure).wf(),
    ensures
        final(secure).wf(),
        old(secure)@.encode_seq == i32::MAX ==> {
            &&& sealed is Err
            &&& sealed->Err_0@ == crypto_error("sequence overflow"@)
            &&& final(secure)@ == old(secure)@
        },
        old(secure)@.encode_seq < i32::MAX ==> {
            &&& sealed is Ok
            &&& final(secure)@ == (ChannelView {
                encode_seq: (old(secure)@.encode_seq + 1) as i32,
                ..old(secure)@
            })
            &&& opened_frame(old(secure)@.encode, old(secure)@.encode_seq, sealed->Ok_0@) == Ok::<
                conn::OfflineFrameView,
                ErrorView,
            >(frame@)
        },
{
    let bytes = frame.encode_to_vec();
    secure.encrypt(bytes.as_slice())
}

/// The frame that a receiver opens a message as, when it has taken `last`
/// messages before.
pub open spec fn opened_frame(keys: DirectionView, last: i32, bytes: Seq<u8>) -> std::result::Result<
    conn::OfflineFrameView,
    ErrorView,
> {
    match received(keys, last, bytes).0 {
        Err(error) => Err(error),
        Ok(plain) => match merged_with::<conn::OfflineFrame>(conn::OfflineFrame::blank(), plain) {
            Some(frame) => Ok(frame),
            None => Err(ErrorView::Protocol("malformed message"@)),
        },
    }
}

/// Opens the next message.
pub fn open_frame(secure: &mut SecureChannel, body: &[u8]) -> (frame: Result<conn::OfflineFrame>)
    requires
        old(secure).wf(),
    ensures
        final(secure).wf(),
        outcome(frame) == opened_frame(old(secure)@.decode, old(secure)@.decode_seq, body@),
        final(secure)@ == (ChannelView {
            decode_seq: received(old(secure)@.decode, old(secure)@.decode_seq, body@).1,
            ..old(secure)@
        }),
{
    let plain = secure.decrypt(body)?;
    decode_frame(plain.as_slice())
}

/// Seals a Quick Share frame as a payload of bytes with the given number: two
/// messages, of which the second marks the end.
pub fn seal_payload(secure: &mut SecureChannel, id: i64, frame: &share::Frame) -> (sealed: Result<
    Vec<Vec<u8>>,
>)
    requires
        old(secure).wf(),
    ensures
        final(secure).wf(),
        message_bytes::<share::Frame>(frame@).len() > i64::MAX ==> {
            &&& sealed is Err
            &&& sealed->Err_0@ == ErrorView::TooLarge
            &&& final(secure)@ == old(secure)@
        },
        message_bytes::<share::Frame>(frame@).len() <= i64::MAX && old(secure)@.encode_seq >= i32::MAX
            - 1 ==> {
            &&& sealed is Err
            &&& sealed->Err_0@ == crypto_error("sequence overflow"@)
            &&& final(secure)@ == (ChannelView { encode_seq: i32::MAX, ..old(secure)@ })
        },
        message_bytes::<share::Frame>(frame@).len() <= i64::MAX && old(secure)@.encode_seq < i32::MAX
            - 1 ==> {
            let frames = conn::bytes_payload_frames(id, message_bytes::<share::Frame>(frame@));
            let keys = old(secure)@.encode;
            let last = old(secure)@.encode_seq;
            &&& merged_with::<share::Frame>(
                share::Frame::blank(),
                message_bytes::<share::Frame>(frame@),
            ) == Some(frame@)
            &&& sealed is Ok
            &&& sealed->Ok_0@.len() == 2
            &&& opened_frame(keys, last, sealed->Ok_0@[0]@) == Ok::<
                conn::OfflineFrameView,
                ErrorView,
            >(frames[0])
            &&& opened_frame(keys, (last + 1) as i32, sealed->Ok_0@[1]@) == Ok::<
                conn::OfflineFrameView,
                ErrorView,
            >(frames[1])
            &&& final(secure)@ == (ChannelView { encode_seq: (last + 2) as i32, ..old(secure)@ })
        },
{
    let payload = frame.encode_to_vec();
    if payload.len() as u64 > i64::MAX as u64 {
        return Err(Error::TooLarge);
    }
    let frames = conn::bytes_payload(id, payload.as_slice());
    assert(seq_view(frames@)[0] == frames@[0]@);
    assert(seq_view(frames@)[1] == frames@[1]@);
    let one = seal_frame(secure, &frames[0])?;
    let two = seal_frame(secure, &frames[1])?;
    Ok(vec![one, two])
}

} // verus!
