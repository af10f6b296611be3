//! What a Quick Share session promises, frame by frame, in terms of the fields
//! of the frames that go over the wire.

use crate::error::ErrorView;
use crate::mime::{kinds_of_types, mime_kind, sniffed, subdir_name, MediaKind};
use crate::quickshare::proto::{merged_with, Schema};
use crate::quickshare::secure::{received, DirectionView};
use crate::quickshare::session::{
    announced, chunk_step, collected, decision_step, files_in_order, files_objection, frame_step,
    fresh_inbound, fresh_outbound, id_of_bytes, insert_all, introduced, introduction_frame,
    introduction_step, next_of, opened_frame, paired_encryption_frame, paired_result_frame,
    payload_step, reply_step, share_step, shown, total_length, ActionView, BufView, DestView,
    InFileView, InboundView, Next, OutboundView, OutcomeView, OutgoingView,
};
use crate::quickshare::wire::{conn, share};
use crate::sanitize::{dots_are_refused, safe_name};
use crate::text::{decimal_text, signed_text};
use vstd::prelude::*;

verus! {

/// A frame that carries a part of a payload.
pub open spec fn packet(
    id: i64,
    kind: i32,
    total: i64,
    offset: i64,
    flags: i32,
    body: Seq<u8>,
    name: Option<Seq<char>>,
) -> conn::OfflineFrameView {
    conn::OfflineFrameView {
        version: Some(1),
        v1: Some(
            conn::V1FrameView {
                frame_type: Some(3),
                connection_request: None,
                connection_response: None,
                payload_transfer: Some(
                    conn::PayloadTransferFrameView {
                        packet_type: Some(1),
                        payload_header: Some(
                            conn::PayloadHeaderView {
                                id: Some(id),
                                payload_type: Some(kind),
                                total_size: Some(total),
                                file_name: name,
                            },
                        ),
                        payload_chunk: Some(
                            conn::PayloadChunkView {
                                flags: Some(flags),
                                offset: Some(offset),
                                body: Some(body),
                            },
                        ),
                    },
                ),
                keep_alive: None,
                disconnection: None,
            },
        ),
    }
}

/// A frame that says that a payload of a file has arrived.
pub open spec fn receipt(id: i64, total: i64) -> conn::OfflineFrameView {
    conn::OfflineFrameView {
        version: Some(1),
        v1: Some(
            conn::V1FrameView {
                frame_type: Some(3),
                connection_request: None,
                connection_response: None,
                payload_transfer: Some(
                    conn::PayloadTransferFrameView {
                        packet_type: Some(3),
                        payload_header: Some(
                            conn::PayloadHeaderView {
                                id: Some(id),
                                payload_type: Some(2),
                                total_size: Some(total),
                                file_name: None,
                            },
                        ),
                        payload_chunk: None,
                    },
                ),
                keep_alive: None,
                disconnection: None,
            },
        ),
    }
}

/// A frame without any part but its kind.
pub open spec fn bare(kind: i32) -> conn::V1FrameView {
    conn::V1FrameView {
        frame_type: Some(kind),
        connection_request: None,
        connection_response: None,
        payload_transfer: None,
        keep_alive: None,
        disconnection: None,
    }
}

/// A Quick Share frame without any part but its kind.
pub open spec fn plain(kind: i32) -> share::V1FrameView {
    share::V1FrameView {
        frame_type: Some(kind),
        introduction: None,
        connection_response: None,
        paired_key_encryption: None,
        paired_key_result: None,
    }
}

pub open spec fn shared(v1: share::V1FrameView) -> share::FrameView {
    share::FrameView { version: Some(1), v1: Some(v1) }
}

/// The answer to an introduction: 1 for yes, 2 for no, 3 where a file is too
/// large.
pub open spec fn answer(status: i32) -> share::FrameView {
    shared(
        share::V1FrameView {
            connection_response: Some(share::ConnectionResponseFrameView { status: Some(status) }),
            ..plain(2)
        },
    )
}

/// The frames that a connection is made of: a payload of bytes goes out in one
/// piece that an empty last piece follows; a piece of a file tells its place, the
/// length and name of the file, and whether it is the last.
pub proof fn frames_on_the_wire(
    id: i64,
    data: Seq<u8>,
    total: i64,
    offset: i64,
    last: bool,
    name: Seq<char>,
)
    requires
        data.len() <= i64::MAX,
    ensures
        conn::bytes_payload_frames(id, data) == seq![
            packet(id, 1, data.len() as i64, 0, 0, data, None),
            packet(id, 1, data.len() as i64, data.len() as i64, 1, Seq::empty(), None),
        ],
        conn::file_chunk_frame(id, total, offset, data, true, name) == packet(
            id,
            2,
            total,
            offset,
            1,
            data,
            Some(name),
        ),
        conn::file_chunk_frame(id, total, offset, data, false, name) == packet(
            id,
            2,
            total,
            offset,
            0,
            data,
            Some(name),
        ),
        conn::payload_ack_frame(id, 2, total) == receipt(id, total),
        conn::connection_response_frame() == (conn::OfflineFrameView {
            version: Some(1),
            v1: Some(
                conn::V1FrameView {
                    connection_response: Some(
                        conn::ConnectionResponseFrameView { status: Some(0), response: Some(1) },
                    ),
                    ..bare(2)
                },
            ),
        }),
        conn::keep_alive_frame() == (conn::OfflineFrameView {
            version: Some(1),
            v1: Some(
                conn::V1FrameView { keep_alive: Some(conn::KeepAliveFrameView {  }), ..bare(5) },
            ),
        }),
        conn::disconnect_frame() == (conn::OfflineFrameView {
            version: Some(1),
            v1: Some(
                conn::V1FrameView {
                    disconnection: Some(conn::DisconnectionFrameView {  }),
                    ..bare(6)
                },
            ),
        }),
{
    assert(conn::bytes_payload_frames(id, data) =~= seq![
        packet(id, 1, data.len() as i64, 0, 0, data, None),
        packet(id, 1, data.len() as i64, data.len() as i64, 1, Seq::empty(), None),
    ]);
}

/// The Quick Share frames of either side.
pub proof fn frames_of_quick_share(
    signed_data: Seq<u8>,
    hash: Seq<u8>,
    files: Seq<OutgoingView>,
    i: int,
)
    requires
        0 <= i < files.len(),
        forall|j: int| 0 <= j < files.len() ==> (#[trigger] files[j]).total <= i64::MAX,
    ensures
        paired_encryption_frame(signed_data, hash) == shared(
            share::V1FrameView {
                paired_key_encryption: Some(
                    share::PairedKeyEncryptionFrameView {
                        signed_data: Some(signed_data),
                        secret_id_hash: Some(hash),
                    },
                ),
                ..plain(3)
            },
        ),
        paired_result_frame() == shared(
            share::V1FrameView {
                paired_key_result: Some(share::PairedKeyResultFrameView { status: Some(3) }),
                ..plain(4)
            },
        ),
        introduction_frame(files) == shared(
            share::V1FrameView {
                introduction: Some(
                    share::IntroductionFrameView {
                        file_metadata: announced(files),
                        text_metadata: Seq::empty(),
                    },
                ),
                ..plain(1)
            },
        ),
        announced(files).len() == files.len(),
        announced(files)[i].name == Some(files[i].name),
        announced(files)[i].size == Some(files[i].total as i64),
        announced(files)[i].mime_type == Some(files[i].mime),
        announced(files)[i].payload_id == Some(files[i].payload_id),
        announced(files)[i].id == Some(files[i].payload_id),
        announced(files)[i].file_type == Some(
            match files[i].kind {
                MediaKind::Photo => 1i32,
                MediaKind::Video => 2,
                MediaKind::Audio => 4,
                MediaKind::Other => 5,
            },
        ),
{
}

/// All files that were introduced are in place.
pub open spec fn every_file_is_done(files: Map<i64, InFileView>) -> bool {
    forall|id: i64| files.contains_key(id) ==> (#[trigger] files[id]).done
}

/// The Quick Share frames that steer a session: introductions, responses, keys
/// and their results, and cancellation.
pub open spec fn steers(bytes: Seq<u8>) -> bool {
    merged_with::<share::Frame>(share::Frame::blank(), bytes) matches Some(frame) && frame.v1
        matches Some(v1) && v1.frame_type matches Some(kind) && (kind == 1 || kind == 2 || kind
        == 3 || kind == 4 || kind == 6)
}

/// Where the file or text of a payload is kept: under its own name, and in the
/// folder of its kind where media are sorted.
pub open spec fn kept_at(dest: DestView, state: InboundView, file: InFileView) -> bool {
    &&& Some(dest.name) == safe_name(file.name)
    &&& !state.sort_media ==> dest.folder is None
    &&& state.sort_media ==> dest.folder == subdir_name(file.kind)
}

/// What has come of a payload of bytes.
pub open spec fn come_so_far(state: InboundView, id: i64) -> Seq<u8> {
    if state.bufs.contains_key(id) {
        state.bufs[id].buf
    } else {
        Seq::empty()
    }
}

/// A part of a payload of bytes that is not its last leads to nothing yet and is
/// kept behind what has come; no other payload and no file is touched.
pub proof fn parts_are_put_by(
    state: InboundView,
    id: i64,
    kind: i32,
    total: i64,
    flags: i32,
    body: Seq<u8>,
)
    requires
        kind != 2,
        flags as int % 2 == 0,
        come_so_far(state, id).len() + body.len() <= 8 * 1024 * 1024,
    ensures
        ({
            let at = come_so_far(state, id).len() as i64;
            let (after, step) = frame_step(state, packet(id, kind, total, at, flags, body, None));
            &&& step.actions.len() == 0
            &&& step.outcome is Continue
            &&& come_so_far(after, id) == come_so_far(state, id) + body
            &&& after.bufs.remove(id) == state.bufs.remove(id)
            &&& after == (InboundView { bufs: after.bufs, ..state })
        }),
{
    let at = come_so_far(state, id).len() as i64;
    let (after, step) = frame_step(state, packet(id, kind, total, at, flags, body, None));
    assert(after.bufs.remove(id) =~= state.bufs.remove(id));
}

/// A text that was accepted arrives whole: its last part leads to one action, which
/// keeps all that has come of it under its name, and the text is done.
pub proof fn text_arrives_whole(
    state: InboundView,
    id: i64,
    kind: i32,
    total: i64,
    flags: i32,
    body: Seq<u8>,
)
    requires
        state.accepted,
        state.files.contains_key(id),
        state.files[id].text,
        safe_name(state.files[id].name) is Some,
        kind != 2,
        flags as int % 2 == 1,
        state.bufs.contains_key(id) && state.bufs[id].total is Some ==> state.bufs[id].total->0
            == total,
        total == come_so_far(state, id).len() + body.len(),
        total <= 8 * 1024 * 1024,
        !steers(come_so_far(state, id) + body),
    ensures
        ({
            let at = come_so_far(state, id).len() as i64;
            let (after, step) = frame_step(state, packet(id, kind, total, at, flags, body, None));
            &&& step.actions.len() == 1
            &&& step.actions[0] matches ActionView::Store { id: to, dest, body: kept } && to == id
                && kept == come_so_far(state, id) + body && kept_at(dest, state, state.files[id])
            &&& after.files == state.files.insert(id, (InFileView { done: true, ..state.files[id] }))
            &&& state.bytes + total <= u64::MAX ==> after.bytes == state.bytes + total
            &&& come_so_far(after, id).len() == 0
            &&& step.outcome is Finish <==> every_file_is_done(after.files)
            &&& !(step.outcome is Finish) ==> step.outcome is Continue
        }),
{
    let at = come_so_far(state, id).len() as i64;
    let (after, step) = frame_step(state, packet(id, kind, total, at, flags, body, None));
    assert(after.files.contains_key(id));
}

/// A text that a sender hands over as a payload of bytes is kept whole by a
/// receiver that has accepted it.
pub proof fn text_in_two_frames_is_kept(state: InboundView, id: i64, bytes: Seq<u8>)
    requires
        state.accepted,
        state.files.contains_key(id),
        state.files[id].text,
        safe_name(state.files[id].name) is Some,
        !state.bufs.contains_key(id),
        bytes.len() <= 8 * 1024 * 1024,
        !steers(bytes),
    ensures
        ({
            let frames = conn::bytes_payload_frames(id, bytes);
            let (between, first) = frame_step(state, frames[0]);
            let (after, second) = frame_step(between, frames[1]);
            &&& first.actions.len() == 0 && first.outcome is Continue
            &&& second.actions.len() == 1
            &&& second.actions[0] matches ActionView::Store { id: to, dest, body } && to == id
                && body == bytes && kept_at(dest, state, state.files[id])
            &&& after.files[id].done
        }),
{
    frames_on_the_wire(id, bytes, 0, 0, true, Seq::empty());
    let frames = conn::bytes_payload_frames(id, bytes);
    let (between, first) = frame_step(state, frames[0]);
    assert(Seq::<u8>::empty() + bytes =~= bytes);
    assert(bytes + Seq::<u8>::empty() =~= bytes);
    parts_are_put_by(state, id, 1, bytes.len() as i64, 0, bytes);
    assert(come_so_far(between, id) =~= bytes);
    text_arrives_whole(between, id, 1, bytes.len() as i64, 1, Seq::empty());
}

/// Nothing is kept of a payload of bytes that is no text which was introduced and
/// accepted, nor of a text whose name cannot be kept.
pub proof fn other_bytes_are_dropped(state: InboundView, id: i64, bytes: Seq<u8>)
    requires
        !steers(bytes),
        !state.accepted || !state.files.contains_key(id) || !state.files[id].text || safe_name(
            state.files[id].name,
        ) is None,
    ensures
        payload_step(state, id, bytes).0 == state,
        payload_step(state, id, bytes).1.actions.len() == 0,
        !state.accepted || !state.files.contains_key(id) || !state.files[id].text
            ==> payload_step(state, id, bytes).1.outcome is Continue,
        state.accepted && state.files.contains_key(id) && state.files[id].text
            ==> payload_step(state, id, bytes).1.outcome == OutcomeView::Fail(
            ErrorView::UnsafeName,
        ),
{
}

/// A payload of bytes that is not as long as it said it would be, or longer than
/// eight mebibytes, ends the session and leads to nothing else.
pub proof fn wrong_lengths_are_refused(
    state: InboundView,
    id: i64,
    total: i64,
    flags: i32,
    body: Seq<u8>,
)
    requires
        !state.bufs.contains_key(id),
        flags as int % 2 == 1,
        total != body.len() || body.len() > 8 * 1024 * 1024,
    ensures
        frame_step(state, packet(id, 1, total, 0, flags, body, None)).1.actions.len() == 0,
        frame_step(state, packet(id, 1, total, 0, flags, body, None)).1.outcome is Fail,
        body.len() > 8 * 1024 * 1024 ==> frame_step(
            state,
            packet(id, 1, total, 0, flags, body, None),
        ).1.outcome == OutcomeView::Fail(ErrorView::TooLarge),
{
    assert(Seq::<u8>::empty() + body =~= body);
}

/// What a part of a file that was accepted leads to, where it begins at the end
/// of what has come and does not go beyond the file's length: the file is opened
/// with its first part, and exactly the part's bytes are added to it.
pub proof fn file_part_is_written(
    state: InboundView,
    id: i64,
    total: i64,
    flags: i32,
    body: Seq<u8>,
    name: Option<Seq<char>>,
)
    requires
        state.accepted,
        state.files.contains_key(id),
        safe_name(state.files[id].name) is Some,
        state.files[id].written + body.len() <= state.files[id].size <= i64::MAX,
        flags as int % 2 == 0 || state.files[id].written + body.len() == state.files[id].size,
        !state.files[id].done,
    ensures
        ({
            let file = state.files[id];
            let at = file.written as i64;
            let (after, step) = frame_step(state, packet(id, 2, total, at, flags, body, name));
            let opening: int = if file.opened {
                0
            } else {
                1
            };
            let writing: int = if body.len() == 0 {
                0
            } else {
                1
            };
            let end = flags as int % 2 == 1;
            &&& step.actions.len() == opening + writing + if end {
                2int
            } else {
                0
            }
            &&& !file.opened ==> (step.actions[0] matches ActionView::Open { id: to, dest } && to
                == id && kept_at(dest, state, file))
            &&& body.len() > 0 ==> step.actions[opening] == (ActionView::Write { id, body })
            &&& end ==> step.actions[opening + writing] == (ActionView::Commit { id })
            &&& end ==> step.actions[opening + writing + 1] == ActionView::Send(
                receipt(id, file.size as i64),
            )
            &&& after.files.remove(id) == state.files.remove(id)
            &&& after.files.contains_key(id)
            &&& after.files[id] == (InFileView {
                written: (file.written + body.len()) as u64,
                opened: true,
                done: end,
                ..file
            })
            &&& end && state.bytes + file.size <= u64::MAX ==> after.bytes == state.bytes
                + file.size
            &&& !end ==> after.bytes == state.bytes
            &&& step.outcome is Finish <==> every_file_is_done(after.files)
            &&& !(step.outcome is Finish) ==> step.outcome is Continue
        }),
{
    let file = state.files[id];
    let at = file.written as i64;
    let (after, step) = frame_step(state, packet(id, 2, total, at, flags, body, name));
    assert(after.files.remove(id) =~= state.files.remove(id));
    assert(after.files.contains_key(id));
}

/// A part of a file ends the session and adds nothing to any file where nothing
/// was accepted, no such file was introduced, the part does not begin at the end
/// of what has come, or it goes beyond the file's length.
pub proof fn file_part_is_refused(
    state: InboundView,
    id: i64,
    total: i64,
    at: i64,
    flags: i32,
    body: Seq<u8>,
    name: Option<Seq<char>>,
)
    requires
        ({
            ||| !state.accepted
            ||| !state.files.contains_key(id)
            ||| at >= 0 && at != state.files[id].written
            ||| at < 0 && state.files[id].written < u64::MAX
            ||| 0 < state.files[id].size < state.files[id].written + body.len() && body.len() > 0
            ||| !state.files[id].opened && safe_name(state.files[id].name) is None
        }),
    ensures
        frame_step(state, packet(id, 2, total, at, flags, body, name)).0 == state,
        frame_step(state, packet(id, 2, total, at, flags, body, name)).1.actions.len() == 0,
        frame_step(state, packet(id, 2, total, at, flags, body, name)).1.outcome is Fail,
{
}

/// A file whose last part comes too early is not put in place: the session ends and
/// says how much of it is there.
pub proof fn short_file_is_not_kept(
    state: InboundView,
    id: i64,
    total: i64,
    flags: i32,
    body: Seq<u8>,
    name: Option<Seq<char>>,
)
    requires
        state.accepted,
        state.files.contains_key(id),
        safe_name(state.files[id].name) is Some,
        state.files[id].written + body.len() < state.files[id].size <= i64::MAX,
        flags as int % 2 == 1,
    ensures
        ({
            let file = state.files[id];
            let (after, step) = frame_step(
                state,
                packet(id, 2, total, file.written as i64, flags, body, name),
            );
            &&& after.files[id].done == file.done
            &&& after.bytes == state.bytes
            &&& step.outcome == OutcomeView::Fail(
                ErrorView::Protocol(
                    file.name + " is incomplete ("@ + decimal_text(
                        (file.written + body.len()) as nat,
                    ) + " of "@ + decimal_text(file.size as nat) + " bytes)"@,
                ),
            )
            &&& forall|i: int|
                0 <= i < step.actions.len() ==> !((#[trigger] step.actions[i]) is Commit)
        }),
{
}

/// A good-bye ends the session well; frames that carry no payload, and
/// acknowledgements, change nothing.
pub proof fn frames_without_payload(
    state: InboundView,
    frame: conn::OfflineFrameView,
    v1: conn::V1FrameView,
)
    requires
        frame.v1 == Some(v1),
    ensures
        v1.frame_type == Some(6i32) ==> frame_step(state, frame).0 == state && frame_step(
            state,
            frame,
        ).1.actions.len() == 0 && frame_step(state, frame).1.outcome is Finish,
        v1.frame_type is None || (v1.frame_type->0 != 6 && v1.frame_type->0 != 3) ==> frame_step(
            state,
            frame,
        ).0 == state && frame_step(state, frame).1.actions.len() == 0 && frame_step(
            state,
            frame,
        ).1.outcome is Continue,
        v1.frame_type == Some(3i32) && v1.payload_transfer is Some
            && v1.payload_transfer->0.packet_type == Some(3i32) ==> frame_step(state, frame).0
            == state && frame_step(state, frame).1.actions.len() == 0 && frame_step(
            state,
            frame,
        ).1.outcome is Continue,
{
}

/// The answers to an introduction, and what they do to the session.
pub proof fn decisions_are_answered(state: InboundView)
    ensures
        decision_step(state, true).0 == (InboundView { waiting: false, accepted: true, ..state }),
        decision_step(state, true).1.actions == seq![ActionView::Share(answer(1))],
        decision_step(state, true).1.outcome is Continue,
        decision_step(state, false).0 == (InboundView { waiting: false, accepted: false, ..state }),
        decision_step(state, false).1.actions == seq![ActionView::Share(answer(2))],
        decision_step(state, false).1.outcome is Finish,
{
}

/// Keys are answered once, and with the word that they are not known; a
/// cancellation ends the session; other frames change nothing.
pub proof fn steering_frames(state: InboundView, v1: share::V1FrameView)
    ensures
        v1.frame_type == Some(3i32) ==> {
            let (after, step) = share_step(state, shared(v1));
            &&& after == (InboundView { got_key: true, sent_result: true, ..state })
            &&& step.outcome is Continue
            &&& state.sent_result ==> step.actions.len() == 0
            &&& !state.sent_result ==> step.actions == seq![
                ActionView::Share(
                    shared(
                        share::V1FrameView {
                            paired_key_result: Some(
                                share::PairedKeyResultFrameView { status: Some(3) },
                            ),
                            ..plain(4)
                        },
                    ),
                ),
            ]
        },
        v1.frame_type == Some(6i32) ==> {
            let (after, step) = share_step(state, shared(v1));
            after == state && step.actions.len() == 0 && step.outcome == OutcomeView::Fail(
                ErrorView::Rejected("cancelled"@),
            )
        },
        v1.frame_type == Some(1i32) && v1.introduction is Some ==> share_step(state, shared(v1))
            == introduction_step(state, v1.introduction->0),
        v1.frame_type is None || (v1.frame_type->0 != 1 && v1.frame_type->0 != 3
            && v1.frame_type->0 != 6) ==> {
            let (after, step) = share_step(state, shared(v1));
            after == state && step.actions.len() == 0 && step.outcome is Continue
        },
{
}

/// A file that may be asked about: its name can be kept and its length is told
/// and within the limit.
pub open spec fn may_be_asked(file: share::FileMetadataView, limit: u64) -> bool {
    &&& file.name is Some && safe_name(file.name->0) is Some
    &&& file.size is Some && 0 <= file.size->0 <= limit
}

proof fn lemma_plain_text()
    ensures
        mime_kind("text/plain"@) == MediaKind::Other,
{
    reveal_strlit("text/plain");
    let mime = "text/plain"@;
    kinds_of_types(mime);
    assert(mime.take(6)[0] == 't');
    assert(seq!['i', 'm', 'a', 'g', 'e', '/'][0] == 'i');
    assert(seq!['v', 'i', 'd', 'e', 'o', '/'][0] == 'v');
    assert(seq!['a', 'u', 'd', 'i', 'o', '/'][0] == 'a');
}

proof fn lemma_fitting(files: Seq<share::FileMetadataView>, limit: u64)
    requires
        forall|i: int| 0 <= i < files.len() ==> may_be_asked(#[trigger] files[i], limit),
    ensures
        files_objection(files, limit) is None,
        files_in_order(files, limit) == files.len(),
    decreases files.len(),
{
    if files.len() > 0 {
        assert(may_be_asked(files[0], limit));
        assert forall|i: int| 0 <= i < files.skip(1).len() implies may_be_asked(
            #[trigger] files.skip(1)[i],
            limit,
        ) by {
            assert(files.skip(1)[i] == files[i + 1]);
        }
        lemma_fitting(files.skip(1), limit);
    }
}

proof fn lemma_inserted(files: Map<i64, InFileView>, entries: Seq<(i64, InFileView)>, at: int)
    requires
        0 <= at < entries.len(),
        forall|j: int| at < j < entries.len() ==> (#[trigger] entries[j]).0 != entries[at].0,
    ensures
        insert_all(files, entries).contains_key(entries[at].0),
        insert_all(files, entries)[entries[at].0] == entries[at].1,
    decreases entries.len(),
{
    if at < entries.len() - 1 {
        lemma_inserted(files, entries.drop_last(), at);
    }
}

proof fn lemma_not_inserted(files: Map<i64, InFileView>, entries: Seq<(i64, InFileView)>, id: i64)
    requires
        forall|j: int| 0 <= j < entries.len() ==> (#[trigger] entries[j]).0 != id,
    ensures
        insert_all(files, entries).contains_key(id) == files.contains_key(id),
        files.contains_key(id) ==> insert_all(files, entries)[id] == files[id],
    decreases entries.len(),
{
    if entries.len() > 0 {
        assert(entries.last().0 != id);
        assert forall|j: int| 0 <= j < entries.drop_last().len() implies (
        #[trigger] entries.drop_last()[j]).0 != id by {
            assert(entries.drop_last()[j] == entries[j]);
        }
        lemma_not_inserted(files, entries.drop_last(), id);
    }
}

/// An introduction of files and texts that fit is put before the person, however
/// many there are: with the peer, the code that both sides show, and the name and
/// length of each file in their order.
pub proof fn fitting_introduction_is_asked(state: InboundView, intro: share::IntroductionFrameView)
    requires
        intro.file_metadata.len() + intro.text_metadata.len() > 0,
        forall|i: int|
            0 <= i < intro.file_metadata.len() ==> may_be_asked(
                #[trigger] intro.file_metadata[i],
                state.max_file_bytes,
            ),
    ensures
        ({
            let (after, step) = introduction_step(state, intro);
            let files = intro.file_metadata;
            let texts = intro.text_metadata;
            &&& step.outcome is Continue
            &&& after == (InboundView { waiting: true, files: after.files, ..state })
            &&& step.actions.len() == 1
            &&& step.actions[0] matches ActionView::Ask(offer) && {
                &&& offer.protocol == "quickshare"@
                &&& offer.peer == state.peer
                &&& offer.pin == Some(state.pin)
                &&& offer.files.len() == files.len() + texts.len()
                &&& forall|i: int|
                    0 <= i < files.len() ==> {
                        let told = #[trigger] offer.files[i];
                        &&& Some(told.name) == files[i].name
                        &&& told.bytes == files[i].size->0
                        &&& files[i].mime_type is Some ==> told.mime == files[i].mime_type->0
                        &&& files[i].mime_type is None ==> told.mime == sniffed(
                            Seq::empty(),
                            told.name,
                        ).1
                        &&& told.kind == mime_kind(told.mime)
                    }
                &&& forall|i: int|
                    files.len() <= i < files.len() + texts.len() ==> {
                        let told = #[trigger] offer.files[i];
                        let text = texts[i - files.len()];
                        &&& told.mime == "text/plain"@
                        &&& told.kind == MediaKind::Other
                        &&& text.size is Some && text.size->0 >= 0 ==> told.bytes == text.size->0
                        &&& text.text_title is None ==> told.name == "shared-text.txt"@
                        &&& text.text_title matches Some(title) ==> {
                            &&& safe_name(title) is None ==> told.name == "shared-text.txt"@
                            &&& safe_name(title) is Some ==> told.name == title || told.name
                                == title + ".txt"@
                            &&& safe_name(title) is Some ==> told.name.len() >= 4
                                && told.name.skip(told.name.len() - 4) == ".txt"@
                            &&& safe_name(title) is Some && title.len() >= 4 && title.skip(
                                title.len() - 4,
                            ) == ".txt"@ ==> told.name == title
                        }
                    }
            }
        }),
{
    lemma_fitting(intro.file_metadata, state.max_file_bytes);
    let (after, step) = introduction_step(state, intro);
    let entries = introduced(intro);
    let files = intro.file_metadata;
    let texts = intro.text_metadata;
    assert(entries.len() == files.len() + texts.len());
    let offer = step.actions[0]->Ask_0;
    assert(offer.files == shown(entries));
    lemma_plain_text();
    reveal_strlit(".txt");
    assert forall|i: int| 0 <= i < files.len() implies ({
        let told = #[trigger] offer.files[i];
        &&& Some(told.name) == files[i].name
        &&& told.bytes == files[i].size->0
    }) by {
        assert(may_be_asked(files[i], state.max_file_bytes));
    }
    assert forall|i: int| files.len() <= i < files.len() + texts.len() implies ({
        let told = #[trigger] offer.files[i];
        let text = texts[i - files.len()];
        text.text_title is Some && safe_name(text.text_title->0) is Some ==> told.name.len() >= 4
            && told.name.skip(told.name.len() - 4) == ".txt"@
    }) by {
        let text = texts[i - files.len()];
        if text.text_title is Some {
            let title = text.text_title->0;
            assert((title + ".txt"@).skip((title + ".txt"@).len() - 4) =~= ".txt"@);
        }
    }
}

/// Where no number is used twice, an introduction leaves each file and text under
/// its number with nothing of it received, and what stood under other numbers
/// untouched.
pub proof fn introduced_files_are_expected(
    state: InboundView,
    intro: share::IntroductionFrameView,
    i: int,
    other: i64,
)
    requires
        forall|j: int|
            0 <= j < intro.file_metadata.len() ==> may_be_asked(
                #[trigger] intro.file_metadata[j],
                state.max_file_bytes,
            ) && intro.file_metadata[j].payload_id is Some && intro.file_metadata[j].payload_id
                != Some(other),
        forall|j: int|
            0 <= j < intro.text_metadata.len() ==> (#[trigger] intro.text_metadata[j]).payload_id
                is Some && intro.text_metadata[j].payload_id != Some(other),
        0 <= i < intro.file_metadata.len() + intro.text_metadata.len(),
        forall|j: int|
            0 <= j < intro.file_metadata.len() && j != i ==> (
            #[trigger] intro.file_metadata[j]).payload_id != number_of(intro, i),
        forall|j: int|
            0 <= j < intro.text_metadata.len() && j + intro.file_metadata.len() != i ==> (
            #[trigger] intro.text_metadata[j]).payload_id != number_of(intro, i),
    ensures
        ({
            let (after, step) = introduction_step(state, intro);
            let id = number_of(intro, i)->0;
            let file = after.files[id];
            &&& after.files.contains_key(id)
            &&& step.actions[0] matches ActionView::Ask(offer) && file.name == offer.files[i].name
                && file.size == offer.files[i].bytes && file.mime == offer.files[i].mime
                && file.kind == offer.files[i].kind
            &&& file.text <==> i >= intro.file_metadata.len()
            &&& file.written == 0 && !file.opened && !file.done
            &&& after.files.contains_key(other) == state.files.contains_key(other)
            &&& state.files.contains_key(other) ==> after.files[other] == state.files[other]
        }),
{
    lemma_fitting(intro.file_metadata, state.max_file_bytes);
    let entries = introduced(intro);
    let files = intro.file_metadata;
    let texts = intro.text_metadata;
    lemma_plain_text();
    assert forall|j: int| 0 <= j < entries.len() && j != i implies (#[trigger] entries[j]).0
        != entries[i].0 by {
        if j < files.len() {
            assert(files[j].payload_id != number_of(intro, i));
        } else {
            assert(texts[j - files.len()].payload_id != number_of(intro, i));
        }
        if i < files.len() {
            assert(files[i].payload_id is Some);
        } else {
            assert(texts[i - files.len()].payload_id is Some);
        }
    }
    assert forall|j: int| 0 <= j < entries.len() implies (#[trigger] entries[j]).0 != other by {
        if j < files.len() {
            assert(files[j].payload_id != Some(other));
        } else {
            assert(texts[j - files.len()].payload_id != Some(other));
        }
    }
    lemma_inserted(state.files, entries, i);
    lemma_not_inserted(state.files, entries, other);
    if i < files.len() {
        assert(files[i].payload_id is Some);
    } else {
        assert(texts[i - files.len()].payload_id is Some);
    }
}

/// The number of the file or text at a place of an introduction, files first.
pub open spec fn number_of(intro: share::IntroductionFrameView, i: int) -> Option<i64> {
    if i < intro.file_metadata.len() {
        intro.file_metadata[i].payload_id
    } else {
        intro.text_metadata[i - intro.file_metadata.len()].payload_id
    }
}

proof fn lemma_first_objection(files: Seq<share::FileMetadataView>, limit: u64, i: int)
    requires
        0 <= i < files.len(),
        forall|j: int| 0 <= j < i ==> may_be_asked(#[trigger] files[j], limit),
    ensures
        files[i].name is Some && safe_name(files[i].name->0) is None ==> files_objection(
            files,
            limit,
        ) == Some(ErrorView::UnsafeName),
        files[i].name is Some && safe_name(files[i].name->0) is Some && files[i].size is Some && (
        files[i].size->0 < 0 || files[i].size->0 > limit) && limit < u64::MAX ==> files_objection(
            files,
            limit,
        ) == Some(ErrorView::TooLarge),
    decreases files.len(),
{
    if i > 0 {
        assert(may_be_asked(files[0], limit));
        assert forall|j: int| 0 <= j < i - 1 implies may_be_asked(
            #[trigger] files.skip(1)[j],
            limit,
        ) by {
            assert(files.skip(1)[j] == files[j + 1]);
        }
        lemma_first_objection(files.skip(1), limit, i - 1);
    }
}

/// The first file that cannot be taken decides how the session ends: one that is
/// too large, or whose length makes no sense, is answered; one with a name that
/// cannot be kept is not.
pub proof fn first_unfit_file_decides(
    state: InboundView,
    intro: share::IntroductionFrameView,
    i: int,
)
    requires
        0 <= i < intro.file_metadata.len(),
        forall|j: int|
            0 <= j < i ==> may_be_asked(#[trigger] intro.file_metadata[j], state.max_file_bytes),
        state.max_file_bytes < u64::MAX,
    ensures
        ({
            let (after, step) = introduction_step(state, intro);
            let file = intro.file_metadata[i];
            &&& file.name is Some && safe_name(file.name->0) is None ==> step.actions.len() == 0
                && step.outcome == OutcomeView::Fail(ErrorView::UnsafeName)
            &&& file.name is Some && safe_name(file.name->0) is Some && file.size is Some && (
            file.size->0 < 0 || file.size->0 > state.max_file_bytes) ==> step.actions == seq![
                ActionView::Share(answer(3)),
            ] && step.outcome == OutcomeView::Fail(ErrorView::TooLarge)
        }),
{
    lemma_first_objection(intro.file_metadata, state.max_file_bytes, i);
}

/// An introduction of nothing ends the session.
pub proof fn empty_introduction_fails(state: InboundView, intro: share::IntroductionFrameView)
    requires
        intro.file_metadata.len() == 0,
        intro.text_metadata.len() == 0,
    ensures
        introduction_step(state, intro).0 == state,
        introduction_step(state, intro).1.actions.len() == 0,
        introduction_step(state, intro).1.outcome is Fail,
{
}

/// Each thing that a sender does has its time: it presents its keys once the peer
/// has presented its own, answers the peer's after that, announces its files once
/// both sides have answered, sends them once they are accepted, and says good-bye
/// after the last.
pub proof fn sender_takes_turns(state: OutboundView)
    ensures
        next_of(state) == Next::SendKey <==> state.got_key && !state.sent_key,
        next_of(state) == Next::SendResult <==> state.got_key && state.sent_key
            && !state.sent_result,
        next_of(state) == Next::SendIntroduction ==> state.sent_result && state.got_result
            && !state.sent_intro,
        next_of(state) == Next::SendChunk ==> state.accepted && state.index < state.files.len(),
        next_of(state) == Next::Disconnect ==> state.accepted && state.index >= state.files.len(),
        state.sent_key && state.sent_result && state.got_result && !state.sent_intro ==> next_of(
            state,
        ) == Next::SendIntroduction,
        state.sent_key && state.sent_result && state.sent_intro && state.accepted && state.index
            < state.files.len() ==> next_of(state) == Next::SendChunk,
        state.sent_key && state.sent_result && state.sent_intro && state.accepted && state.index
            >= state.files.len() ==> next_of(state) == Next::Disconnect,
        !state.got_key && !state.sent_result && !state.accepted ==> next_of(state) == Next::Wait,
        state.sent_key && state.sent_result && !state.got_result && !state.accepted ==> next_of(
            state,
        ) == Next::Wait,
        state.sent_key && state.sent_result && state.sent_intro && !state.accepted ==> next_of(
            state,
        ) == Next::Wait,
        next_of(fresh_outbound(state.files)) == Next::Wait,
        fresh_outbound(state.files).files == state.files,
        fresh_outbound(state.files).index == 0,
{
}

/// A sender's files are accepted by a response with the status 1 alone; any other
/// status, and a cancellation, is a refusal.
pub proof fn sender_reads_answers(state: OutboundView, v1: share::V1FrameView)
    ensures
        v1.frame_type == Some(3i32) ==> reply_step(state, shared(v1)) == Ok::<
            OutboundView,
            ErrorView,
        >(OutboundView { got_key: true, ..state }),
        v1.frame_type == Some(4i32) ==> reply_step(state, shared(v1)) == Ok::<
            OutboundView,
            ErrorView,
        >(OutboundView { got_result: true, ..state }),
        v1.frame_type == Some(6i32) ==> reply_step(state, shared(v1)) == Err::<
            OutboundView,
            ErrorView,
        >(ErrorView::Rejected("cancelled"@)),
        v1.frame_type is None || v1.frame_type->0 <= 1 || v1.frame_type->0 == 5
            || v1.frame_type->0 > 6 ==> reply_step(state, shared(v1)) == Ok::<
            OutboundView,
            ErrorView,
        >(state),
        reply_step(state, answer(1)) == Ok::<OutboundView, ErrorView>(
            OutboundView { accepted: true, ..state },
        ),
        forall|status: i32|
            status != 1 ==> #[trigger] reply_step(state, answer(status)) == Err::<
                OutboundView,
                ErrorView,
            >(ErrorView::Rejected("receiver status "@ + signed_text(status as int))),
{
}

/// A chunk that was read goes out in a frame that tells its place and the length
/// of its file, and is the last exactly where it reaches that length.
pub proof fn chunks_tell_their_place(file: OutgoingView, data: Seq<u8>)
    requires
        file.total <= i64::MAX,
        file.offset + data.len() <= file.total,
    ensures
        data.len() > 0 ==> (chunk_step(file, data) matches Ok((next, Some(frame), last)) && {
            &&& last <==> file.offset + data.len() == file.total
            &&& next == (OutgoingView { offset: (file.offset + data.len()) as u64, ..file })
            &&& frame == packet(
                file.payload_id,
                2,
                file.total as i64,
                file.offset as i64,
                if last {
                    1
                } else {
                    0
                },
                data,
                Some(file.name),
            )
        }),
        data.len() == 0 && file.offset == file.total && file.total > 0 ==> chunk_step(file, data)
            == Ok::<(OutgoingView, Option<conn::OfflineFrameView>, bool), ErrorView>(
            (file, None, true),
        ),
        data.len() == 0 && file.offset < file.total ==> chunk_step(file, data) == Err::<
            (OutgoingView, Option<conn::OfflineFrameView>, bool),
            ErrorView,
        >(
            ErrorView::Protocol(
                file.name + " ended before "@ + decimal_text(file.total as nat) + " bytes"@,
            ),
        ),
        file.total == 0 ==> chunk_step(file, data) == Ok::<
            (OutgoingView, Option<conn::OfflineFrameView>, bool),
            ErrorView,
        >((file, Some(packet(file.payload_id, 2, 0, 0, 1, Seq::empty(), Some(file.name))), true)),
{
}

/// The length of what is sent grows by the length of each file.
pub proof fn lengths_are_summed(files: Seq<OutgoingView>, file: OutgoingView)
    ensures
        total_length(Seq::empty()) == 0,
        total_length(files.push(file)) == total_length(files) + file.total,
{
    assert(files.push(file).drop_last() =~= files);
}

/// The number of a payload is positive and made of the low 63 bits of what was
/// drawn.
pub proof fn numbers_are_positive(low: u64)
    ensures
        id_of_bytes(low) > 0,
        0 < low < 0x8000_0000_0000_0000 ==> id_of_bytes(low) == low,
        0x8000_0000_0000_0000 < low ==> id_of_bytes(low) == low - 0x8000_0000_0000_0000,
{
}

/// A session begins with nothing introduced, accepted or received.
pub proof fn sessions_begin_empty(
    peer: Seq<char>,
    pin: Seq<char>,
    sort_media: bool,
    max_file_bytes: u64,
    id: i64,
)
    ensures
        ({
            let state = fresh_inbound(peer, pin, sort_media, max_file_bytes);
            &&& state.peer == peer && state.pin == pin
            &&& state.sort_media == sort_media && state.max_file_bytes == max_file_bytes
            &&& !state.accepted && !state.waiting && !state.sent_result && !state.got_key
            &&& state.bytes == 0
            &&& !state.files.contains_key(id) && !state.bufs.contains_key(id)
        }),
{
}

/// Parts of a file that was introduced without a length are written as they come,
/// but such a file is put in place only where nothing came.
pub proof fn files_without_a_length_stay_partial(
    state: InboundView,
    id: i64,
    total: i64,
    flags: i32,
    body: Seq<u8>,
    name: Option<Seq<char>>,
)
    requires
        state.accepted,
        state.files.contains_key(id),
        safe_name(state.files[id].name) is Some,
        state.files[id].size == 0,
        state.files[id].written + body.len() <= i64::MAX,
        body.len() > 0,
    ensures
        ({
            let at = state.files[id].written as i64;
            let (after, step) = frame_step(state, packet(id, 2, total, at, flags, body, name));
            &&& step.actions.last() == (ActionView::Write { id, body })
            &&& after.files[id].written == state.files[id].written + body.len()
            &&& flags as int % 2 == 1 <==> step.outcome is Fail
            &&& flags as int % 2 == 1 ==> after.files[id].done == state.files[id].done
        }),
{
}

/// Where more was received than can be counted, the count stays at its largest.
pub proof fn counts_do_not_wrap(state: InboundView, id: i64, bytes: Seq<u8>)
    requires
        state.accepted,
        state.files.contains_key(id),
        state.files[id].text,
        safe_name(state.files[id].name) is Some,
        !steers(bytes),
    ensures
        state.bytes + bytes.len() <= u64::MAX ==> payload_step(state, id, bytes).0.bytes
            == state.bytes + bytes.len(),
        state.bytes + bytes.len() > u64::MAX ==> payload_step(state, id, bytes).0.bytes == u64::MAX,
{
}

/// A file that has grown since it was announced ends with the chunk that reaches
/// the announced length.
pub proof fn grown_files_end_in_time(file: OutgoingView, data: Seq<u8>)
    requires
        0 < file.total <= i64::MAX,
        file.offset + data.len() > file.total,
        data.len() > 0,
    ensures
        chunk_step(file, data) matches Ok((_, Some(_), last)) && last,
{
}

/// A sender hears control frames alone: what is no payload, an acknowledgement, or a
/// payload that is no control frame is passed over.
pub proof fn senders_hear_control_frames(
    bufs: Map<i64, BufView>,
    frame: conn::OfflineFrameView,
    v1: conn::V1FrameView,
)
    requires
        frame.v1 == Some(v1),
    ensures
        v1.frame_type != Some(3i32) ==> collected(bufs, frame) == (
            bufs,
            Ok::<Option<share::FrameView>, ErrorView>(None),
        ),
        v1.frame_type == Some(3i32) && v1.payload_transfer is Some
            && v1.payload_transfer->0.packet_type == Some(3i32) ==> collected(bufs, frame) == (
            bufs,
            Ok::<Option<share::FrameView>, ErrorView>(None),
        ),
        collected(bufs, frame).1 matches Ok(Some(reply)) ==> (reply.v1 matches Some(inner)
            && inner.frame_type matches Some(kind) && (kind == 1 || kind == 2 || kind == 3 || kind
            == 4 || kind == 6)),
{
}

/// A frame of a secure channel is what the opened message holds.
pub proof fn frames_are_what_messages_hold(
    keys: DirectionView,
    last: i32,
    bytes: Seq<u8>,
    plain: Seq<u8>,
    frame: conn::OfflineFrameView,
)
    ensures
        received(keys, last, bytes).0 == Ok::<Seq<u8>, ErrorView>(plain) && merged_with::<
            conn::OfflineFrame,
        >(conn::OfflineFrame::blank(), plain) == Some(frame) ==> opened_frame(keys, last, bytes)
            == Ok::<conn::OfflineFrameView, ErrorView>(frame),
        received(keys, last, bytes).0 is Err ==> opened_frame(keys, last, bytes) is Err,
        received(keys, last, bytes).0 == Ok::<Seq<u8>, ErrorView>(plain) && merged_with::<
            conn::OfflineFrame,
        >(conn::OfflineFrame::blank(), plain) is None ==> opened_frame(keys, last, bytes) is Err,
{
}

/// What an introduction leaves out: without a length a file counts as empty, and so
/// does a text with none or with one below zero; without a number either stands
/// under zero; a file without a name cannot be kept.
pub proof fn left_out_fields_have_defaults(
    file: share::FileMetadataView,
    text: share::TextMetadataView,
    intro: share::IntroductionFrameView,
    state: InboundView,
)
    requires
        intro.file_metadata == seq![file],
        intro.text_metadata == seq![text],
        state.max_file_bytes < u64::MAX,
    ensures
        file.name is None ==> introduction_step(state, intro).1.outcome is Fail,
        file.name is Some && safe_name(file.name->0) is Some && file.size is None ==> {
            let (after, step) = introduction_step(state, intro);
            &&& step.outcome is Continue
            &&& step.actions[0] matches ActionView::Ask(offer) && offer.files[0].bytes == 0 && (
            text.size is None || text.size->0 < 0 ==> offer.files[1].bytes == 0)
            &&& text.payload_id is None ==> after.files.contains_key(0) && after.files[0].text
            &&& file.payload_id is None && text.payload_id is Some && text.payload_id->0 != 0
                ==> after.files.contains_key(0) && !after.files[0].text
        },
{
    assert(intro.file_metadata[0] == file);
    assert(intro.text_metadata[0] == text);
    assert(intro.file_metadata.skip(1) =~= Seq::empty());
    dots_are_refused(Seq::empty(), Seq::empty());
    assert(Seq::<char>::empty() + Seq::<char>::empty() =~= Seq::<char>::empty());
    reveal_with_fuel(files_objection, 2);
    if file.name is Some && safe_name(file.name->0) is Some && file.size is None {
        let entries = introduced(intro);
        assert(entries.len() == 2);
        assert(entries[1].1.text && !entries[0].1.text);
        lemma_inserted(state.files, entries, 1);
        if entries[0].0 != entries[1].0 {
            lemma_inserted(state.files, entries, 0);
        }
    }
}

} // verus!
