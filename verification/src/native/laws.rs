//! What a transfer between two computers promises, message by message.

use crate::bytes::{le, le_value, lemma_le_len, orders_of_bytes};
use crate::error::ErrorView;
use crate::mime::mime_kind;
use crate::native::codec::{
    body_bytes, file_bytes, files_bytes, frame_bytes, unwritable, ControlView, FileOfferView,
    HelloView, OfferView,
};
use crate::native::session::{
    admitted, answer_objection, completion_objection, control_body_len, files_objection,
    greeting_objection, offer_of, offered, offered_bytes, receiver_step, sender_hello, ActionView,
    Decision, EventView, LocalFileView, PhaseView, ReceiverView,
};
use crate::sanitize::safe_name;
use vstd::prelude::*;
use vstd::utf8::*;

verus! {

/// The file can be put before a person: its name can be kept, and it alone is
/// within the limit.
pub open spec fn fits_in(file: FileOfferView, limit: u64) -> bool {
    safe_name(file.name) is Some && file.size <= limit
}

/// What an offer leads to.
pub open spec fn on_offer(receiver: ReceiverView, peer: Seq<char>, offer: OfferView) -> (
    PhaseView,
    ActionView,
) {
    receiver_step(
        receiver,
        PhaseView::Offer { peer },
        EventView::Message(ControlView::Offer(offer)),
    )
}

proof fn lemma_all_fit(files: Seq<FileOfferView>, limit: u64)
    requires
        forall|i: int| 0 <= i < files.len() ==> fits_in(#[trigger] files[i], limit),
    ensures
        files_objection(files, limit) is None,
    decreases files.len(),
{
    if files.len() > 0 {
        assert(fits_in(files[0], limit));
        assert forall|i: int| 0 <= i < files.skip(1).len() implies fits_in(
            #[trigger] files.skip(1)[i],
            limit,
        ) by {
            assert(files.skip(1)[i] == files[i + 1]);
        }
        lemma_all_fit(files.skip(1), limit);
    }
}

/// An offer with the right pin, or any where none is asked for, whose files can
/// each be kept and are each within the limit is put before the person, whatever
/// they come to together: with the peer, and with the name, length and type of
/// each file in their order.
pub proof fn fitting_offers_are_put_to_the_person(
    receiver: ReceiverView,
    peer: Seq<char>,
    offer: OfferView,
)
    requires
        receiver.pin is None || receiver.pin == Some(offer.pin),
        offer.files.len() > 0,
        forall|i: int|
            0 <= i < offer.files.len() ==> safe_name((#[trigger] offer.files[i]).name) is Some
                && offer.files[i].size <= receiver.max_file_bytes,
    ensures
        ({
            let (next, action) = on_offer(receiver, peer, offer);
            &&& next == (PhaseView::Decision { peer, offer })
            &&& action matches ActionView::Ask(ask) && {
                &&& ask.protocol == "crossdrop"@
                &&& ask.peer == peer
                &&& ask.pin == receiver.pin
                &&& ask.files.len() == offer.files.len()
                &&& forall|i: int|
                    0 <= i < offer.files.len() ==> {
                        let told = #[trigger] ask.files[i];
                        &&& told.name == offer.files[i].name
                        &&& told.bytes == offer.files[i].size
                        &&& told.mime == offer.files[i].mime
                        &&& told.kind == mime_kind(offer.files[i].mime)
                    }
            }
        }),
{
    assert forall|i: int| 0 <= i < offer.files.len() implies fits_in(
        #[trigger] offer.files[i],
        receiver.max_file_bytes,
    ) by {}
    lemma_all_fit(offer.files, receiver.max_file_bytes);
}

proof fn lemma_first_unfit(files: Seq<FileOfferView>, limit: u64, i: int)
    requires
        0 <= i < files.len(),
        forall|j: int| 0 <= j < i ==> fits_in(#[trigger] files[j], limit),
    ensures
        safe_name(files[i].name) is None ==> files_objection(files, limit) == Some(
            ErrorView::UnsafeName,
        ),
        safe_name(files[i].name) is Some && files[i].size > limit ==> files_objection(files, limit)
            == Some(ErrorView::TooLarge),
    decreases files.len(),
{
    if i > 0 {
        assert(fits_in(files[0], limit));
        assert forall|j: int| 0 <= j < i - 1 implies fits_in(#[trigger] files.skip(1)[j], limit) by {
            assert(files.skip(1)[j] == files[j + 1]);
        }
        lemma_first_unfit(files.skip(1), limit, i - 1);
    }
}

/// An offer that is not put before the person ends the session: the peer is told
/// that the pin is wrong or that a file is too large; a name that cannot be kept,
/// and an offer of nothing, is not answered. Of several files the first one that
/// cannot be taken decides.
pub proof fn other_offers_end_the_session(
    receiver: ReceiverView,
    peer: Seq<char>,
    offer: OfferView,
    i: int,
)
    ensures
        receiver.pin is Some && receiver.pin != Some(offer.pin) ==> on_offer(receiver, peer, offer)
            == (
            PhaseView::Over,
            ActionView::Refuse {
                reply: ControlView::Reject {
                    transfer_id: offer.transfer_id,
                    reason: "wrong pin"@,
                },
                error: ErrorView::Pin,
            },
        ),
        receiver.pin is None || receiver.pin == Some(offer.pin) ==> {
            let (next, action) = on_offer(receiver, peer, offer);
            let first = 0 <= i < offer.files.len() && forall|j: int|
                0 <= j < i ==> fits_in(#[trigger] offer.files[j], receiver.max_file_bytes);
            &&& offer.files.len() == 0 ==> next is Over && action == ActionView::Fail(
                ErrorView::Protocol("empty offer"@),
            )
            &&& first && safe_name(offer.files[i].name) is None ==> next is Over && action
                == ActionView::Fail(ErrorView::UnsafeName)
            &&& first && safe_name(offer.files[i].name) is Some && offer.files[i].size
                > receiver.max_file_bytes ==> next is Over && action == (ActionView::Refuse {
                reply: ControlView::Reject {
                    transfer_id: offer.transfer_id,
                    reason: "file is too large"@,
                },
                error: ErrorView::TooLarge,
            })
        },
{
    if 0 <= i < offer.files.len() && forall|j: int|
        0 <= j < i ==> fits_in(#[trigger] offer.files[j], receiver.max_file_bytes) {
        lemma_first_unfit(offer.files, receiver.max_file_bytes, i);
    }
}

/// A session opens with the eight bytes `WHOOSH01` and nothing else.
pub proof fn magic_opens_a_session(receiver: ReceiverView, magic: Seq<u8>)
    ensures
        magic == seq![87u8, 72, 79, 79, 83, 72, 48, 49] ==> receiver_step(
            receiver,
            PhaseView::Magic,
            EventView::Magic(magic),
        ) == (PhaseView::Hello, ActionView::Read),
        magic != seq![87u8, 72, 79, 79, 83, 72, 48, 49] ==> receiver_step(
            receiver,
            PhaseView::Magic,
            EventView::Magic(magic),
        ) == (
            PhaseView::Over,
            ActionView::Fail(ErrorView::Protocol("not a crossdrop peer"@)),
        ),
{
    assert(crate::native::codec::MAGIC@ =~= seq![87u8, 72, 79, 79, 83, 72, 48, 49]);
}

/// A greeting is answered with the receiver's own, which says whether a pin is
/// asked for; what the peer calls itself is what the person is told.
pub proof fn greetings_are_answered(receiver: ReceiverView, hello: HelloView)
    ensures
        receiver_step(
            receiver,
            PhaseView::Hello,
            EventView::Message(ControlView::Hello(hello)),
        ) == (
            PhaseView::Offer { peer: hello.name },
            ActionView::Reply(
                ControlView::Hello(
                    HelloView {
                        name: receiver.name,
                        device_id: receiver.device_id,
                        pin_required: receiver.pin is Some,
                    },
                ),
            ),
        ),
{
}

/// A message out of turn ends the session.
pub proof fn messages_out_of_turn_fail(
    receiver: ReceiverView,
    peer: Seq<char>,
    message: ControlView,
)
    ensures
        !(message is Hello) ==> receiver_step(
            receiver,
            PhaseView::Hello,
            EventView::Message(message),
        ) == (PhaseView::Over, ActionView::Fail(ErrorView::Protocol("expected hello"@))),
        !(message is Offer) ==> receiver_step(
            receiver,
            PhaseView::Offer { peer },
            EventView::Message(message),
        ) == (PhaseView::Over, ActionView::Fail(ErrorView::Protocol("expected offer"@))),
        receiver_step(receiver, PhaseView::Over, EventView::Message(message)).0 is Over,
        receiver_step(receiver, PhaseView::Over, EventView::Message(message)).1 is Fail,
{
}

/// A yes is answered with the number of the transfer, and files are taken from
/// then on; a no, or no answer in time, is told with its reason.
pub proof fn decisions_are_told(
    receiver: ReceiverView,
    peer: Seq<char>,
    offer: OfferView,
)
    ensures
        ({
            let asked = PhaseView::Decision { peer, offer };
            let id = offer.transfer_id;
            &&& receiver_step(receiver, asked, EventView::Decided(Decision::Accepted)) == (
                PhaseView::Files { peer, offer, received: 0, bytes: 0 },
                ActionView::TakeFiles(ControlView::Accept { transfer_id: id }),
            )
            &&& receiver_step(receiver, asked, EventView::Decided(Decision::Declined)) == (
                PhaseView::Over,
                ActionView::Refuse {
                    reply: ControlView::Reject { transfer_id: id, reason: "declined"@ },
                    error: ErrorView::Rejected("declined"@),
                },
            )
            &&& receiver_step(receiver, asked, EventView::Decided(Decision::TimedOut)) == (
                PhaseView::Over,
                ActionView::Refuse {
                    reply: ControlView::Reject { transfer_id: id, reason: "timed out"@ },
                    error: ErrorView::Rejected("timed out"@),
                },
            )
        }),
{
}

/// The sum of some lengths.
pub open spec fn sum_of(sizes: Seq<u64>) -> nat
    decreases sizes.len(),
{
    if sizes.len() == 0 {
        0
    } else {
        sum_of(sizes.drop_last()) + sizes.last() as nat
    }
}

/// The phase, and the last action, after files of these lengths came one after
/// another.
pub open spec fn after_files(
    receiver: ReceiverView,
    start: (PhaseView, ActionView),
    sizes: Seq<u64>,
) -> (PhaseView, ActionView)
    decreases sizes.len(),
{
    if sizes.len() == 0 {
        start
    } else {
        receiver_step(
            receiver,
            after_files(receiver, start, sizes.drop_last()).0,
            EventView::FileStored(sizes.last()),
        )
    }
}

/// A transfer is complete with the last of its files and not before; the peer is
/// told so, and as many bytes are reported as the files came to.
pub proof fn last_file_completes(
    receiver: ReceiverView,
    peer: Seq<char>,
    offer: OfferView,
    sizes: Seq<u64>,
)
    requires
        0 < sizes.len() <= offer.files.len(),
    ensures
        ({
            let accepted = receiver_step(
                receiver,
                PhaseView::Decision { peer, offer },
                EventView::Decided(Decision::Accepted),
            );
            let (phase, action) = after_files(receiver, accepted, sizes);
            &&& sizes.len() < offer.files.len() ==> action is AwaitFile && phase
                == (PhaseView::Files { peer, offer, received: sizes.len(), bytes: sum_of(sizes) })
            &&& sizes.len() == offer.files.len() ==> phase is Over && action
                == (ActionView::Complete {
                reply: ControlView::Done { transfer_id: offer.transfer_id },
                peer,
                bytes: sum_of(sizes),
            })
        }),
    decreases sizes.len(),
{
    let accepted = receiver_step(
        receiver,
        PhaseView::Decision { peer, offer },
        EventView::Decided(Decision::Accepted),
    );
    if sizes.len() > 1 {
        last_file_completes(receiver, peer, offer, sizes.drop_last());
    } else {
        assert(after_files(receiver, accepted, sizes.drop_last()) == accepted);
        assert(sum_of(sizes.drop_last()) == 0);
    }
}

proof fn lemma_offered(files: Seq<FileOfferView>, id: u32)
    ensures
        offered(files, id) is None <==> forall|i: int|
            0 <= i < files.len() ==> (#[trigger] files[i]).id != id,
        offered(files, id) matches Some(file) ==> file.id == id && files.contains(file),
    decreases files.len(),
{
    if files.len() > 0 {
        let front = files.drop_last();
        lemma_offered(front, id);
        assert(files[files.len() - 1] == files.last());
        assert forall|i: int| 0 <= i < front.len() implies #[trigger] front[i] == files[i] by {}
        if files.last().id != id {
            if offered(front, id) is Some {
                let at = choose|i: int| 0 <= i < front.len() && front[i] == offered(front, id)->0;
                assert(files[at] == front[at]);
            } else {
                assert forall|i: int| 0 <= i < files.len() implies (#[trigger] files[i]).id
                    != id by {
                    if i < front.len() {
                        assert(front[i].id != id);
                    }
                }
            }
        }
    }
}

/// A stream is taken for a file of the offer with the number and the length that
/// the stream begins with, and for no other.
pub proof fn streams_belong_to_offers(files: Seq<FileOfferView>, limit: u64, header: Seq<u8>)
    requires
        header.len() == 12,
    ensures
        admitted(files, limit, header) matches Ok(file) ==> {
            &&& files.contains(file)
            &&& file.id == le_value(header.subrange(0, 4)) as u32
            &&& file.size == le_value(header.subrange(4, 12)) as u64
            &&& file.size <= limit
            &&& safe_name(file.name) is Some
        },
        (forall|i: int|
            0 <= i < files.len() ==> (#[trigger] files[i]).id != le_value(header.subrange(0, 4)) as u32)
            ==> admitted(files, limit, header) == Err::<FileOfferView, ErrorView>(
            ErrorView::Protocol("unknown file id"@),
        ),
{
    assert(header.take(4) =~= header.subrange(0, 4));
    assert(header.skip(4) =~= header.subrange(4, 12));
    lemma_offered(files, le_value(header.subrange(0, 4)) as u32);
}

/// A stream whose number was offered once is taken if its length is the offered
/// one, within the limit, and the name can be kept.
pub proof fn offered_streams_are_taken(
    files: Seq<FileOfferView>,
    limit: u64,
    header: Seq<u8>,
    at: int,
)
    requires
        header.len() == 12,
        0 <= at < files.len(),
        files[at].id == le_value(header.subrange(0, 4)) as u32,
        forall|i: int| 0 <= i < files.len() && i != at ==> (#[trigger] files[i]).id != files[at].id,
    ensures
        files[at].size == le_value(header.subrange(4, 12)) as u64 && fits_in(files[at], limit)
            ==> admitted(files, limit, header) == Ok::<FileOfferView, ErrorView>(files[at]),
        files[at].size != le_value(header.subrange(4, 12)) as u64 || files[at].size > limit
            ==> admitted(files, limit, header) == Err::<FileOfferView, ErrorView>(
            ErrorView::Protocol("file size does not match the offer"@),
        ),
{
    assert(header.take(4) =~= header.subrange(0, 4));
    assert(header.skip(4) =~= header.subrange(4, 12));
    lemma_offered(files, files[at].id);
    assert(files[at].id == files[at].id);
    let found = offered(files, files[at].id)->0;
    let i = choose|i: int| 0 <= i < files.len() && files[i] == found;
    assert(files[i].id == files[at].id);
}

/// A sender greets without asking for a pin, and goes on after any greeting that
/// asks for none, or where a pin is at hand.
pub proof fn senders_need_a_pin_where_asked(
    name: Seq<char>,
    device_id: Seq<u8>,
    hello: HelloView,
    pin: Option<Seq<char>>,
    other: ControlView,
)
    ensures
        sender_hello(name, device_id) == ControlView::Hello(
            HelloView { name, device_id, pin_required: false },
        ),
        !hello.pin_required ==> greeting_objection(ControlView::Hello(hello), pin) is None,
        pin is Some && pin->0.len() > 0 ==> greeting_objection(ControlView::Hello(hello), pin)
            is None,
        hello.pin_required && (pin is None || pin->0.len() == 0) ==> greeting_objection(
            ControlView::Hello(hello),
            pin,
        ) == Some(ErrorView::Pin),
        !(other is Hello) ==> greeting_objection(other, pin) is Some,
{
}

/// A sender's offer lists its files in their order under the numbers 0, 1, 2 and
/// so on, with the pin that it was given.
pub proof fn offers_list_files_in_order(
    transfer_id: Seq<u8>,
    pin: Option<Seq<char>>,
    files: Seq<LocalFileView>,
    i: int,
)
    requires
        0 <= i < files.len() <= u32::MAX,
    ensures
        ({
            let offer = offer_of(transfer_id, pin, files);
            &&& offer.transfer_id == transfer_id
            &&& pin is Some ==> offer.pin == pin->0
            &&& pin is None ==> offer.pin.len() == 0
            &&& offer.files.len() == files.len()
            &&& offer.files[i].id == i
            &&& offer.files[i].name == files[i].name
            &&& offer.files[i].size == files[i].size
            &&& offer.files[i].mime == files[i].mime
        }),
{
}

/// The bytes of an offer are those of its files together.
pub proof fn offered_bytes_are_summed(files: Seq<FileOfferView>, file: FileOfferView)
    ensures
        offered_bytes(Seq::empty()) == 0,
        offered_bytes(files) + file.size <= u64::MAX ==> offered_bytes(files.push(file))
            == offered_bytes(files) + file.size,
        offered_bytes(files) + file.size > u64::MAX ==> offered_bytes(files.push(file)) == u64::MAX,
{
    assert(files.push(file).drop_last() =~= files);
}

/// A sender goes on after an acceptance of its own transfer alone, ends well
/// after the completion of its own transfer alone, and tells the reason of a
/// rejection.
pub proof fn senders_take_their_own_answers(mine: Seq<u8>, theirs: Seq<u8>, reason: Seq<char>)
    ensures
        answer_objection(ControlView::Accept { transfer_id: mine }, mine) is None,
        completion_objection(ControlView::Done { transfer_id: mine }, mine) is None,
        theirs != mine ==> answer_objection(ControlView::Accept { transfer_id: theirs }, mine)
            is Some,
        theirs != mine ==> completion_objection(ControlView::Done { transfer_id: theirs }, mine)
            is Some,
        answer_objection(ControlView::Done { transfer_id: mine }, mine) is Some,
        completion_objection(ControlView::Accept { transfer_id: mine }, mine) is Some,
        answer_objection(ControlView::Reject { transfer_id: theirs, reason }, mine) == Some(
            ErrorView::Rejected(reason),
        ),
        completion_objection(ControlView::Reject { transfer_id: theirs, reason }, mine) == Some(
            ErrorView::Rejected(reason),
        ),
{
}

/// The body of a message is at least a byte and at most a mebibyte long.
pub proof fn bodies_are_short(a: u8, b: u8, c: u8, d: u8)
    ensures
        ({
            let len = a + 0x100 * b + 0x1_0000 * c + 0x100_0000 * d;
            &&& 0 < len <= 0x10_0000 ==> control_body_len(seq![a, b, c, d]) == Some(len as nat)
            &&& len == 0 || len > 0x10_0000 ==> control_body_len(seq![a, b, c, d]) is None
        }),
{
    orders_of_bytes(0, a, b, c, d);
}

/// A number in two bytes, the lower one first.
pub open spec fn in_two(value: nat) -> Seq<u8> {
    seq![(value % 256) as u8, (value / 256 % 256) as u8]
}

/// A number in four bytes, the lowest one first.
pub open spec fn in_four(value: nat) -> Seq<u8> {
    seq![
        (value % 256) as u8,
        (value / 0x100 % 256) as u8,
        (value / 0x1_0000 % 256) as u8,
        (value / 0x100_0000 % 256) as u8,
    ]
}

/// How messages are written: behind their length, a number for the kind of the
/// message and its fields in their order, each text behind its length.
pub proof fn messages_are_written(
    hello: HelloView,
    offer: OfferView,
    id: Seq<u8>,
    reason: Seq<char>,
)
    ensures
        body_bytes(ControlView::Hello(hello)) == seq![1u8] + (in_two(encode_utf8(hello.name).len())
            + encode_utf8(hello.name)) + hello.device_id + seq![
            if hello.pin_required {
                1u8
            } else {
                0
            },
        ],
        body_bytes(ControlView::Offer(offer)) == seq![2u8] + offer.transfer_id + (in_two(
            encode_utf8(offer.pin).len(),
        ) + encode_utf8(offer.pin)) + in_four(offer.files.len()) + files_bytes(offer.files),
        body_bytes(ControlView::Accept { transfer_id: id }) == seq![3u8] + id,
        body_bytes(ControlView::Reject { transfer_id: id, reason }) == seq![4u8] + id + (in_two(
            encode_utf8(reason).len(),
        ) + encode_utf8(reason)),
        body_bytes(ControlView::Done { transfer_id: id }) == seq![5u8] + id,
        frame_bytes(ControlView::Offer(offer)) == in_four(
            body_bytes(ControlView::Offer(offer)).len(),
        ) + body_bytes(ControlView::Offer(offer)),
        frame_bytes(ControlView::Hello(hello)) == in_four(
            body_bytes(ControlView::Hello(hello)).len(),
        ) + body_bytes(ControlView::Hello(hello)),
        frame_bytes(ControlView::Accept { transfer_id: id }) == in_four(1 + id.len()) + seq![3u8]
            + id,
        frame_bytes(ControlView::Done { transfer_id: id }) == in_four(1 + id.len()) + seq![5u8]
            + id,
{
    orders_of_bytes(encode_utf8(hello.name).len(), 0, 0, 0, 0);
    orders_of_bytes(encode_utf8(offer.pin).len(), 0, 0, 0, 0);
    orders_of_bytes(encode_utf8(reason).len(), 0, 0, 0, 0);
    orders_of_bytes(offer.files.len(), 0, 0, 0, 0);
    orders_of_bytes(body_bytes(ControlView::Offer(offer)).len(), 0, 0, 0, 0);
    orders_of_bytes(body_bytes(ControlView::Hello(hello)).len(), 0, 0, 0, 0);
    orders_of_bytes(1 + id.len(), 0, 0, 0, 0);
    assert(frame_bytes(ControlView::Accept { transfer_id: id }) =~= in_four(1 + id.len()) + seq![
        3u8,
    ] + id);
    assert(frame_bytes(ControlView::Done { transfer_id: id }) =~= in_four(1 + id.len()) + seq![5u8]
        + id);
}

/// A file of an offer is written as its number, its length, its name and its
/// type; the files follow one another.
pub proof fn files_are_written(files: Seq<FileOfferView>, file: FileOfferView)
    ensures
        file_bytes(file) == in_four(file.id as nat) + le(file.size as nat, 8) + (in_two(
            encode_utf8(file.name).len(),
        ) + encode_utf8(file.name)) + (in_two(encode_utf8(file.mime).len()) + encode_utf8(
            file.mime,
        )),
        le(file.size as nat, 8).len() == 8,
        files_bytes(Seq::empty()).len() == 0,
        files_bytes(seq![file] + files) == file_bytes(file) + files_bytes(files),
{
    orders_of_bytes(file.id as nat, 0, 0, 0, 0);
    orders_of_bytes(encode_utf8(file.name).len(), 0, 0, 0, 0);
    orders_of_bytes(encode_utf8(file.mime).len(), 0, 0, 0, 0);
    lemma_le_len(file.size as nat, 8);
    assert((seq![file] + files).skip(1) =~= files);
}

/// What is too long to be written: a name of more than 1024 bytes, a type of more
/// than 128, a reason of more than 512, a pin of more than 16, and an offer of
/// more than 4096 files.
pub proof fn fields_have_limits(hello: HelloView, offer: OfferView, id: Seq<u8>, reason: Seq<char>)
    ensures
        unwritable(ControlView::Hello(hello)) is None <==> encode_utf8(hello.name).len() <= 1024,
        unwritable(ControlView::Offer(offer)) is None <==> encode_utf8(offer.pin).len() <= 16
            && offer.files.len() <= 4096 && forall|i: int|
            0 <= i < offer.files.len() ==> encode_utf8((#[trigger] offer.files[i]).name).len()
                <= 1024 && encode_utf8(offer.files[i].mime).len() <= 128,
        unwritable(ControlView::Reject { transfer_id: id, reason }) is None <==> encode_utf8(
            reason,
        ).len() <= 512,
        unwritable(ControlView::Accept { transfer_id: id }) is None,
        unwritable(ControlView::Done { transfer_id: id }) is None,
{
    if forall|i: int|
        0 <= i < offer.files.len() ==> encode_utf8((#[trigger] offer.files[i]).name).len() <= 1024
            && encode_utf8(offer.files[i].mime).len() <= 128 {
        assert(forall|i: int|
            0 <= i < offer.files.len() ==> crate::native::codec::file_fits(
                #[trigger] offer.files[i],
            ));
    }
    if forall|i: int|
        0 <= i < offer.files.len() ==> crate::native::codec::file_fits(#[trigger] offer.files[i]) {
        assert forall|i: int| 0 <= i < offer.files.len() implies encode_utf8(
            (#[trigger] offer.files[i]).name,
        ).len() <= 1024 && encode_utf8(offer.files[i].mime).len() <= 128 by {
            assert(crate::native::codec::file_fits(offer.files[i]));
        }
    }
}

} // verus!
