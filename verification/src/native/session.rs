//! The two sides of a transfer: what each sends, expects and refuses.

use crate::approve::{IncomingFile, IncomingFileView, TransferOffer, TransferOfferView};
use crate::bytes::{get_le, le, le_value, lemma_le, lemma_le_value_bound, lemma_pow256, same_bytes};
use crate::crypto::{blake3_of, FileDigest};
use crate::error::{Error, ErrorView, Result};
use crate::mime::{kind_of_mime, mime_kind, subdir_name};
use crate::native::codec::{
    decode, file_header, read_frame, Control, ControlView, FileOffer, FileOfferView, Hello, HelloView, Offer,
    OfferView, MAGIC,
};
use crate::paths::{destination, Destination};
use crate::sanitize::{safe_file_name, safe_name};
use crate::text::{opt_view, seq_view};
use vstd::prelude::*;
use vstd::slice::slice_to_vec;
use vstd::utf8::*;

verus! {

/// How much is read at once.
pub const BUF: usize = 1024 * 1024;

/// How long a person may take to decide, in seconds.
pub const DECISION_TIMEOUT_SECS: u64 = 120;

/// The longest body of a control message that is read.
pub const MAX_CONTROL: usize = 1024 * 1024;

/// The length of the body that follows a length prefix.
pub open spec fn control_body_len(prefix: Seq<u8>) -> Option<nat> {
    let len = le_value(prefix);
    if len == 0 || len > MAX_CONTROL {
        None
    } else {
        Some(len)
    }
}

/// How many bytes of body follow a length prefix.
pub fn control_len(prefix: &[u8; 4]) -> (len: Result<usize>)
    ensures
        match control_body_len(prefix@) {
            Some(expected) => len is Ok && len->Ok_0 == expected,
            None => len is Err && len->Err_0@ == ErrorView::Protocol("invalid control frame"@),
        },
{
    let len: u64 = get_le(prefix);
    if len == 0 || len > MAX_CONTROL as u64 {
        return Err(Error::protocol("invalid control frame"));
    }
    Ok(len as usize)
}

/// Reads the message of a length prefix and the body that belongs to it.
pub fn control_message(prefix: &[u8; 4], body: &[u8]) -> (message: Result<Control>)
    requires
        control_body_len(prefix@) == Some(body@.len()),
    ensures
        match read_frame(prefix@ + body@) {
            Ok((expected, _)) => message is Ok && message->Ok_0@ == expected,
            Err(error) => message is Err && message->Err_0@ == error,
        },
{
    let mut framed = slice_to_vec(prefix);
    framed.extend_from_slice(body);
    assert(framed@ =~= prefix@ + body@);
    assert(framed@.take(4) =~= prefix@);
    let (message, used) = decode(framed.as_slice())?;
    if used != framed.len() {
        return Err(Error::protocol("trailing control bytes"));
    }
    Ok(message)
}

/// Compares two texts in a time that depends on their lengths alone.
pub fn constant_eq(left: &str, right: &str) -> (same: bool)
    ensures
        same == (left@ == right@),
{
    let a = left.as_bytes();
    let b = right.as_bytes();
    proof {
        encode_utf8_decode_utf8(left@);
        encode_utf8_decode_utf8(right@);
    }
    if a.len() != b.len() {
        return false;
    }
    let mut diff: u8 = 0;
    for i in 0..a.len()
        invariant
            a@.len() == b@.len(),
            diff == 0 <==> forall|j: int| 0 <= j < i ==> a@[j] == b@[j],
    {
        let x = a[i];
        let y = b[i];
        assert((diff | (x ^ y)) == 0 <==> diff == 0 && x == y) by (bit_vector);
        diff = diff | (x ^ y);
    }
    assert(diff == 0 <==> a@ =~= b@);
    diff == 0
}

/// What a receiver is told by the person in front of it.
#[derive(Debug, Clone, Copy, PartialEq, Eq, Structural)]
pub enum Decision {
    Accepted,
    Declined,
    TimedOut,
}

/// How far a receiver has come.
#[derive(Debug)]
pub enum Phase {
    /// Waits for the magic.
    Magic,
    /// Waits for the peer's greeting.
    Hello,
    /// Waits for an offer.
    Offer { peer: String },
    /// Waits for a decision.
    Decision { peer: String, offer: Offer },
    /// Takes files.
    Files { peer: String, offer: Offer, received: usize, bytes: u64 },
    /// Has nothing left to do.
    Over,
}

pub ghost enum PhaseView {
    Magic,
    Hello,
    Offer { peer: Seq<char> },
    Decision { peer: Seq<char>, offer: OfferView },
    Files { peer: Seq<char>, offer: OfferView, received: nat, bytes: nat },
    Over,
}

impl View for Phase {
    type V = PhaseView;

    open spec fn view(&self) -> PhaseView {
        match *self {
            Phase::Magic => PhaseView::Magic,
            Phase::Hello => PhaseView::Hello,
            Phase::Offer { peer } => PhaseView::Offer { peer: peer@ },
            Phase::Decision { peer, offer } => PhaseView::Decision { peer: peer@, offer: offer@ },
            Phase::Files { peer, offer, received, bytes } => PhaseView::Files {
                peer: peer@,
                offer: offer@,
                received: received as nat,
                bytes: bytes as nat,
            },
            Phase::Over => PhaseView::Over,
        }
    }
}

/// What a receiver does next.
#[derive(Debug)]
pub enum Action {
    /// Read a control message.
    Read,
    /// Write a message, then read one.
    Reply(Control),
    /// Ask the person.
    Ask(TransferOffer),
    /// Write a message, then take the streams of files.
    TakeFiles(Control),
    /// Go on taking files.
    AwaitFile,
    /// Write a message; the transfer is complete.
    Complete { reply: Control, peer: String, bytes: u64 },
    /// Write a message, then fail.
    Refuse { reply: Control, error: Error },
    /// Fail.
    Fail(Error),
}

pub ghost enum ActionView {
    Read,
    Reply(ControlView),
    Ask(TransferOfferView),
    TakeFiles(ControlView),
    AwaitFile,
    Complete { reply: ControlView, peer: Seq<char>, bytes: nat },
    Refuse { reply: ControlView, error: ErrorView },
    Fail(ErrorView),
}

impl View for Action {
    type V = ActionView;

    open spec fn view(&self) -> ActionView {
        match *self {
            Action::Read => ActionView::Read,
            Action::Reply(reply) => ActionView::Reply(reply@),
            Action::Ask(offer) => ActionView::Ask(offer@),
            Action::TakeFiles(reply) => ActionView::TakeFiles(reply@),
            Action::AwaitFile => ActionView::AwaitFile,
            Action::Complete { reply, peer, bytes } => ActionView::Complete {
                reply: reply@,
                peer: peer@,
                bytes: bytes as nat,
            },
            Action::Refuse { reply, error } => ActionView::Refuse { reply: reply@, error: error@ },
            Action::Fail(error) => ActionView::Fail(error@),
        }
    }
}

/// What a receiver says of itself and accepts.
#[derive(Debug)]
pub struct Receiver {
    pub name: String,
    pub device_id: [u8; 16],
    pub pin: Option<String>,
    pub max_file_bytes: u64,
}

pub ghost struct ReceiverView {
    pub name: Seq<char>,
    pub device_id: Seq<u8>,
    pub pin: Option<Seq<char>>,
    pub max_file_bytes: u64,
}

impl View for Receiver {
    type V = ReceiverView;

    open spec fn view(&self) -> ReceiverView {
        ReceiverView {
            name: self.name@,
            device_id: self.device_id@,
            pin: opt_view(self.pin),
            max_file_bytes: self.max_file_bytes,
        }
    }
}

/// Something that happened to a receiver.
#[derive(Debug)]
pub enum Event {
    /// The first eight bytes came.
    Magic([u8; 8]),
    /// A control message came.
    Message(Control),
    /// The person decided, or did not in time.
    Decided(Decision),
    /// A file of this size is in place.
    FileStored(u64),
}

pub ghost enum EventView {
    Magic(Seq<u8>),
    Message(ControlView),
    Decided(Decision),
    FileStored(u64),
}

impl View for Event {
    type V = EventView;

    open spec fn view(&self) -> EventView {
        match *self {
            Event::Magic(magic) => EventView::Magic(magic@),
            Event::Message(message) => EventView::Message(message@),
            Event::Decided(decision) => EventView::Decided(decision),
            Event::FileStored(size) => EventView::FileStored(size),
        }
    }
}

/// The greeting of a receiver.
pub open spec fn receiver_hello(receiver: ReceiverView) -> ControlView {
    ControlView::Hello(
        HelloView {
            name: receiver.name,
            device_id: receiver.device_id,
            pin_required: receiver.pin is Some,
        },
    )
}

pub open spec fn incoming_file(file: FileOfferView) -> IncomingFileView {
    IncomingFileView {
        name: file.name,
        bytes: file.size,
        mime: file.mime,
        kind: mime_kind(file.mime),
    }
}

pub open spec fn incoming_files(files: Seq<FileOfferView>) -> Seq<IncomingFileView> {
    Seq::new(files.len(), |i: int| incoming_file(files[i]))
}

/// The pin is the one that is required, where one is.
pub open spec fn pin_is_right(receiver: ReceiverView, offer: OfferView) -> bool {
    receiver.pin matches Some(expected) ==> offer.pin == expected
}

/// What stands against a list of files: the first file with an unsafe name or
/// over the limit.
pub open spec fn files_objection(files: Seq<FileOfferView>, limit: u64) -> Option<ErrorView>
    decreases files.len(),
{
    if files.len() == 0 {
        None
    } else if safe_name(files[0].name) is None {
        Some(ErrorView::UnsafeName)
    } else if files[0].size > limit {
        Some(ErrorView::TooLarge)
    } else {
        files_objection(files.skip(1), limit)
    }
}

/// The offer may be put before a person.
pub open spec fn admissible(receiver: ReceiverView, offer: OfferView) -> bool {
    &&& pin_is_right(receiver, offer)
    &&& offer.files.len() > 0
    &&& files_objection(offer.files, receiver.max_file_bytes) is None
}

pub open spec fn refusal(offer: OfferView, reason: Seq<char>, error: ErrorView) -> (
    PhaseView,
    ActionView,
) {
    (
        PhaseView::Over,
        ActionView::Refuse {
            reply: ControlView::Reject { transfer_id: offer.transfer_id, reason },
            error,
        },
    )
}

pub open spec fn failure(error: ErrorView) -> (PhaseView, ActionView) {
    (PhaseView::Over, ActionView::Fail(error))
}

/// What an offer leads to.
pub open spec fn offer_step(receiver: ReceiverView, peer: Seq<char>, offer: OfferView) -> (
    PhaseView,
    ActionView,
) {
    if !pin_is_right(receiver, offer) {
        refusal(offer, "wrong pin"@, ErrorView::Pin)
    } else if offer.files.len() == 0 {
        failure(ErrorView::Protocol("empty offer"@))
    } else {
        match files_objection(offer.files, receiver.max_file_bytes) {
            Some(ErrorView::TooLarge) => refusal(
                offer,
                "file is too large"@,
                ErrorView::TooLarge,
            ),
            Some(error) => failure(error),
            None => (
                PhaseView::Decision { peer, offer },
                ActionView::Ask(
                    TransferOfferView {
                        protocol: "crossdrop"@,
                        peer,
                        pin: receiver.pin,
                        files: incoming_files(offer.files),
                    },
                ),
            ),
        }
    }
}

/// What a decision leads to.
pub open spec fn decision_step(peer: Seq<char>, offer: OfferView, decision: Decision) -> (
    PhaseView,
    ActionView,
) {
    match decision {
        Decision::Accepted => (
            PhaseView::Files { peer, offer, received: 0, bytes: 0 },
            ActionView::TakeFiles(ControlView::Accept { transfer_id: offer.transfer_id }),
        ),
        Decision::Declined => refusal(offer, "declined"@, ErrorView::Rejected("declined"@)),
        Decision::TimedOut => refusal(offer, "timed out"@, ErrorView::Rejected("timed out"@)),
    }
}

/// What a stored file leads to.
pub open spec fn stored_step(
    peer: Seq<char>,
    offer: OfferView,
    received: nat,
    bytes: nat,
    size: u64,
) -> (PhaseView, ActionView) {
    if received + 1 == offer.files.len() {
        (
            PhaseView::Over,
            ActionView::Complete {
                reply: ControlView::Done { transfer_id: offer.transfer_id },
                peer,
                bytes: bytes + size as nat,
            },
        )
    } else {
        (
            PhaseView::Files { peer, offer, received: received + 1, bytes: bytes + size as nat },
            ActionView::AwaitFile,
        )
    }
}

/// What an event leads to.
pub open spec fn receiver_step(receiver: ReceiverView, phase: PhaseView, event: EventView) -> (
    PhaseView,
    ActionView,
) {
    match (phase, event) {
        (PhaseView::Magic, EventView::Magic(magic)) => if magic == MAGIC@ {
            (PhaseView::Hello, ActionView::Read)
        } else {
            failure(ErrorView::Protocol("not a crossdrop peer"@))
        },
        (PhaseView::Hello, EventView::Message(ControlView::Hello(hello))) => (
            PhaseView::Offer { peer: hello.name },
            ActionView::Reply(receiver_hello(receiver)),
        ),
        (PhaseView::Hello, _) => failure(ErrorView::Protocol("expected hello"@)),
        (PhaseView::Offer { peer }, EventView::Message(ControlView::Offer(offer))) => offer_step(
            receiver,
            peer,
            offer,
        ),
        (PhaseView::Offer { .. }, _) => failure(ErrorView::Protocol("expected offer"@)),
        (PhaseView::Decision { peer, offer }, EventView::Decided(decision)) => decision_step(
            peer,
            offer,
            decision,
        ),
        (
            PhaseView::Files { peer, offer, received, bytes },
            EventView::FileStored(size),
        ) => stored_step(peer, offer, received, bytes, size),
        _ => failure(ErrorView::Protocol("unexpected event"@)),
    }
}

/// A phase that a receiver can be in: what waits for a decision or is being
/// taken is an admissible offer, and files are still to come.
pub open spec fn reachable(receiver: ReceiverView, phase: PhaseView) -> bool {
    match phase {
        PhaseView::Decision { offer, .. } => admissible(receiver, offer),
        PhaseView::Files { offer, received, .. } => admissible(receiver, offer) && received
            < offer.files.len(),
        _ => true,
    }
}

/// The count of bytes stays within its range.
pub open spec fn count_fits(phase: PhaseView, event: EventView) -> bool {
    match (phase, event) {
        (PhaseView::Files { bytes, .. }, EventView::FileStored(size)) => bytes + size <= u64::MAX,
        _ => true,
    }
}

fn failed(error: Error) -> (next: (Phase, Action))
    ensures
        (next.0@, next.1@) == failure(error@),
{
    (Phase::Over, Action::Fail(error))
}

fn refused(offer: Offer, reason: &str, error: Error) -> (next: (Phase, Action))
    ensures
        (next.0@, next.1@) == refusal(offer@, reason@, error@),
{
    (
        Phase::Over,
        Action::Refuse {
            reply: Control::Reject { transfer_id: offer.transfer_id, reason: reason.to_owned() },
            error,
        },
    )
}

impl Receiver {
    /// What the event leads to in the given phase.
    pub fn step(&self, phase: Phase, event: Event) -> (next: (Phase, Action))
        requires
            reachable(self@, phase@),
            count_fits(phase@, event@),
        ensures
            (next.0@, next.1@) == receiver_step(self@, phase@, event@),
            reachable(self@, next.0@),
    {
        match (phase, event) {
            (Phase::Magic, Event::Magic(magic)) => if same_bytes(&magic, &MAGIC) {
                (Phase::Hello, Action::Read)
            } else {
                failed(Error::protocol("not a crossdrop peer"))
            },
            (Phase::Hello, Event::Message(Control::Hello(hello))) => {
                let reply = Hello {
                    name: self.name.clone(),
                    device_id: self.device_id,
                    pin_required: self.pin.is_some(),
                };
                (Phase::Offer { peer: hello.name }, Action::Reply(Control::Hello(reply)))
            },
            (Phase::Hello, _) => failed(Error::protocol("expected hello")),
            (Phase::Offer { peer }, Event::Message(Control::Offer(offer))) => self.judge(
                peer,
                offer,
            ),
            (Phase::Offer { .. }, _) => failed(Error::protocol("expected offer")),
            (Phase::Decision { peer, offer }, Event::Decided(decision)) => match decision {
                Decision::Accepted => {
                    let transfer_id = offer.transfer_id;
                    (
                        Phase::Files { peer, offer, received: 0, bytes: 0 },
                        Action::TakeFiles(Control::Accept { transfer_id }),
                    )
                },
                Decision::Declined => refused(
                    offer,
                    "declined",
                    Error::Rejected("declined".to_owned()),
                ),
                Decision::TimedOut => refused(
                    offer,
                    "timed out",
                    Error::Rejected("timed out".to_owned()),
                ),
            },
            (Phase::Files { peer, offer, received, bytes }, Event::FileStored(size)) => {
                let expected: usize = offer.files.len();
                let bytes: u64 = bytes + size;
                let received: usize = received + 1;
                if received == expected {
                    let reply = Control::Done { transfer_id: offer.transfer_id };
                    (Phase::Over, Action::Complete { reply, peer, bytes })
                } else {
                    (Phase::Files { peer, offer, received, bytes }, Action::AwaitFile)
                }
            },
            _ => failed(Error::protocol("unexpected event")),
        }
    }

    fn judge(&self, peer: String, offer: Offer) -> (next: (Phase, Action))
        ensures
            (next.0@, next.1@) == offer_step(self@, peer@, offer@),
    {
        if let Some(expected) = &self.pin {
            if !constant_eq(expected.as_str(), offer.pin.as_str()) {
                return refused(offer, "wrong pin", Error::Pin);
            }
        }
        if offer.files.len() == 0 {
            return failed(Error::protocol("empty offer"));
        }
        let mut incoming: Vec<IncomingFile> = Vec::new();
        let ghost files = offer@.files;
        assert(files.skip(0) =~= files);
        for i in 0..offer.files.len()
            invariant
                files == offer@.files,
                files.len() == offer.files@.len() > 0,
                pin_is_right(self@, offer@),
                files_objection(files, self.max_file_bytes) == files_objection(
                    files.skip(i as int),
                    self.max_file_bytes,
                ),
                seq_view(incoming@) == incoming_files(files).take(i as int),
        {
            let file = &offer.files[i];
            let ghost held = incoming@;
            assert(files.skip(i as int)[0] == file@);
            assert(files.skip(i as int).skip(1) =~= files.skip(i + 1));
            if safe_file_name(file.name.as_str()).is_err() {
                return failed(Error::UnsafeName);
            }
            if file.size > self.max_file_bytes {
                return refused(offer, "file is too large", Error::TooLarge);
            }
            let next = IncomingFile {
                name: file.name.clone(),
                bytes: file.size,
                mime: file.mime.clone(),
                kind: kind_of_mime(file.mime.as_str()),
            };
            incoming.push(next);
            assert(seq_view(incoming@) =~= seq_view(held).push(next@));
        }
        let ask = TransferOffer {
            protocol: "crossdrop",
            peer: peer.clone(),
            pin: self.pin.clone(),
            files: incoming,
        };
        assert(ask@.files =~= incoming_files(files));
        (Phase::Decision { peer, offer }, Action::Ask(ask))
    }
}

/// Files are taken only after a person has accepted an offer that has the right
/// pin, holds files, and has none that is over the limit or unsafe to name.
pub proof fn files_need_approval(
    receiver: ReceiverView,
    phase: PhaseView,
    event: EventView,
    next: PhaseView,
)
    requires
        reachable(receiver, phase),
        receiver_step(receiver, phase, event).0 == next,
        next is Files,
        !(phase is Files),
    ensures
        event == EventView::Decided(Decision::Accepted),
        phase is Decision,
        admissible(receiver, phase->Decision_offer),
        next->Files_offer == phase->Decision_offer,
{
}

/// Each file of an admissible offer has a name that can be kept and a size
/// within the limit.
pub proof fn admissible_files_are_safe(receiver: ReceiverView, offer: OfferView, i: int)
    requires
        admissible(receiver, offer),
        0 <= i < offer.files.len(),
    ensures
        safe_name(offer.files[i].name) is Some,
        offer.files[i].size <= receiver.max_file_bytes,
{
    lemma_no_objection(offer.files, receiver.max_file_bytes, i);
}

proof fn lemma_no_objection(files: Seq<FileOfferView>, limit: u64, i: int)
    requires
        files_objection(files, limit) is None,
        0 <= i < files.len(),
    ensures
        safe_name(files[i].name) is Some,
        files[i].size <= limit,
    decreases files.len(),
{
    if i > 0 {
        lemma_no_objection(files.skip(1), limit, i - 1);
    }
}

/// An offer with a wrong pin, and one that a person does not accept, is answered
/// with a rejection, and nothing of it is taken.
pub proof fn refused_offers_are_rejected(
    receiver: ReceiverView,
    peer: Seq<char>,
    offer: OfferView,
    decision: Decision,
)
    ensures
        !pin_is_right(receiver, offer) ==> {
            let (next, action) = receiver_step(
                receiver,
                PhaseView::Offer { peer },
                EventView::Message(ControlView::Offer(offer)),
            );
            &&& next is Over
            &&& action is Refuse
            &&& action->Refuse_reply == (ControlView::Reject {
                transfer_id: offer.transfer_id,
                reason: "wrong pin"@,
            })
        },
        decision != Decision::Accepted ==> {
            let (next, action) = receiver_step(
                receiver,
                PhaseView::Decision { peer, offer },
                EventView::Decided(decision),
            );
            &&& next is Over
            &&& action is Refuse
            &&& action->Refuse_reply is Reject
            &&& action->Refuse_reply->Reject_transfer_id == offer.transfer_id
        },
{
}

/// The last file of the list that has the id.
pub open spec fn offered(files: Seq<FileOfferView>, id: u32) -> Option<FileOfferView>
    decreases files.len(),
{
    if files.len() == 0 {
        None
    } else if files.last().id == id {
        Some(files.last())
    } else {
        offered(files.drop_last(), id)
    }
}

pub open spec fn header_id(header: Seq<u8>) -> u32 {
    le_value(header.take(4)) as u32
}

pub open spec fn header_size(header: Seq<u8>) -> u64 {
    le_value(header.skip(4)) as u64
}

/// Where the file of a stream goes, or why it is refused.
pub open spec fn admitted(files: Seq<FileOfferView>, limit: u64, header: Seq<u8>) -> std::result::Result<
    FileOfferView,
    ErrorView,
> {
    match offered(files, header_id(header)) {
        None => Err(ErrorView::Protocol("unknown file id"@)),
        Some(file) => if file.size != header_size(header) || file.size > limit {
            Err(ErrorView::Protocol("file size does not match the offer"@))
        } else if safe_name(file.name) is None {
            Err(ErrorView::UnsafeName)
        } else {
            Ok(file)
        },
    }
}

/// What a receiver takes.
#[derive(Debug, Clone, PartialEq, Eq)]
pub struct ReceiveOptions {
    pub sort_media: bool,
    pub max_file_bytes: u64,
}

impl ReceiveOptions {
    pub fn auto() -> (options: Self)
        ensures
            !options.sort_media,
            options.max_file_bytes == 32 * 1024 * 1024 * 1024,
    {
        ReceiveOptions { sort_media: false, max_file_bytes: 32 * 1024 * 1024 * 1024 }
    }
}

/// A file that is being taken: where it goes, what is still to come, and the
/// digest of what came.
pub struct Incoming {
    pub name: String,
    pub dest: Destination,
    pub size: u64,
    pub left: u64,
    pub digest: FileDigest,
}

impl Incoming {
    /// The bytes that came so far.
    pub open spec fn data(&self) -> Seq<u8> {
        self.digest.data()
    }

    /// How many bytes are still to come.
    pub open spec fn left(&self) -> nat {
        self.left as nat
    }

    pub open spec fn wf(&self) -> bool {
        self.data().len() + self.left() == self.size
    }

    /// Reads the header of a file's stream and finds the offer that it belongs
    /// to.
    pub fn open(
        header: &[u8; 12],
        files: &Vec<FileOffer>,
        options: &ReceiveOptions,
    ) -> (incoming: Result<Incoming>)
        ensures
            match admitted(seq_view(files@), options.max_file_bytes, header@) {
                Err(error) => incoming is Err && incoming->Err_0@ == error,
                Ok(file) => {
                    &&& incoming is Ok
                    &&& incoming->Ok_0.wf()
                    &&& incoming->Ok_0.data() == Seq::<u8>::empty()
                    &&& incoming->Ok_0.size == file.size
                    &&& incoming->Ok_0.name@ == file.name
                    &&& incoming->Ok_0.dest.name@ == safe_name(file.name)->0
                    &&& opt_view(incoming->Ok_0.dest.folder) == if options.sort_media {
                        subdir_name(mime_kind(file.mime))
                    } else {
                        None
                    }
                },
            },
    {
        proof {
            lemma_pow256();
            lemma_le_value_bound(header@.take(4));
            lemma_le_value_bound(header@.skip(4));
        }
        let (id_bytes, size_bytes) = header.as_slice().split_at(4);
        assert(id_bytes@ =~= header@.take(4));
        assert(size_bytes@ =~= header@.skip(4));
        let id: u32 = get_le(id_bytes) as u32;
        let size: u64 = get_le(size_bytes);
        let ghost views = seq_view(files@);
        let mut i: usize = files.len();
        assert(views.take(i as int) =~= views);
        while i > 0 && files[i - 1].id != id
            invariant
                i <= files@.len(),
                views == seq_view(files@),
                offered(views, id) == offered(views.take(i as int), id),
            decreases i,
        {
            assert(views.take(i as int).drop_last() =~= views.take(i - 1));
            i = i - 1;
        }
        if i == 0 {
            return Err(Error::protocol("unknown file id"));
        }
        let file = &files[i - 1];
        assert(views.take(i as int).last() == file@);
        if file.size != size || size > options.max_file_bytes {
            return Err(Error::protocol("file size does not match the offer"));
        }
        let kind = kind_of_mime(file.mime.as_str());
        let dest = destination(file.name.as_str(), kind, options.sort_media)?;
        Ok(Incoming { name: file.name.clone(), dest, size, left: size, digest: FileDigest::new() })
    }

    /// How much is read next into a buffer of `room` bytes.
    pub fn want(&self, room: usize) -> (len: usize)
        ensures
            len == if room <= self.left() {
                room as nat
            } else {
                self.left()
            },
    {
        if room as u64 <= self.left {
            room
        } else {
            self.left as usize
        }
    }

    /// Whether all bytes have come.
    pub fn is_full(&self) -> (full: bool)
        ensures
            full == (self.left() == 0),
    {
        self.left == 0
    }

    /// Takes what was read; nothing read before the end means that the peer is
    /// gone.
    pub fn absorb(&mut self, chunk: &[u8]) -> (taken: Result<()>)
        requires
            old(self).wf(),
            old(self).left() > 0,
            chunk@.len() <= old(self).left(),
        ensures
            final(self).wf(),
            final(self).size == old(self).size,
            final(self).name == old(self).name,
            final(self).dest == old(self).dest,
            final(self).data() == old(self).data() + chunk@,
            chunk@.len() == 0 ==> taken is Err && taken->Err_0@ == ErrorView::Closed,
            chunk@.len() > 0 ==> taken is Ok,
    {
        if chunk.len() == 0 {
            assert(self.data() + chunk@ =~= self.data());
            return Err(Error::Closed);
        }
        self.digest.update(chunk);
        self.left = self.left - chunk.len() as u64;
        Ok(())
    }

    /// The file is whole if its digest is the one that was sent.
    pub fn finish(&self, expected: &[u8; 32]) -> (checked: Result<()>)
        ensures
            expected@ == blake3_of(self.data()) ==> checked is Ok,
            expected@ != blake3_of(self.data()) ==> checked is Err && checked->Err_0@
                == ErrorView::Hash(self.name@),
    {
        let actual = self.digest.finish();
        if !same_bytes(&actual, expected) {
            return Err(Error::Hash(self.name.clone()));
        }
        Ok(())
    }
}

/// A file that is being sent.
pub struct Outgoing {
    pub sent: u64,
    pub digest: FileDigest,
}

impl Outgoing {
    /// The bytes that were sent so far.
    pub open spec fn data(&self) -> Seq<u8> {
        self.digest.data()
    }

    pub open spec fn wf(&self) -> bool {
        self.sent == self.data().len()
    }

    pub fn new() -> (outgoing: Self)
        ensures
            outgoing.wf(),
            outgoing.data() == Seq::<u8>::empty(),
    {
        Outgoing { sent: 0, digest: FileDigest::new() }
    }

    /// Notes a chunk that is sent.
    pub fn absorb(&mut self, chunk: &[u8])
        requires
            old(self).wf(),
            old(self).data().len() + chunk@.len() <= u64::MAX,
        ensures
            final(self).wf(),
            final(self).data() == old(self).data() + chunk@,
    {
        self.digest.update(chunk);
        self.sent = self.sent + chunk.len() as u64;
    }

    /// The digest that ends the stream, if as much was sent as was offered.
    pub fn finish(&self, offer: &FileOffer) -> (digest: Result<[u8; 32]>)
        requires
            self.wf(),
        ensures
            self.data().len() == offer.size ==> digest is Ok && digest->Ok_0@ == blake3_of(
                self.data(),
            ),
            self.data().len() != offer.size ==> digest is Err && digest->Err_0@
                == ErrorView::Protocol(offer.name@ + " changed size while it was being sent"@),
    {
        if self.sent != offer.size {
            let mut message = offer.name.clone();
            message.append(" changed size while it was being sent");
            return Err(Error::Protocol(message));
        }
        Ok(self.digest.finish())
    }
}

/// A file that is to be sent, as it was found on disk.
#[derive(Debug, Clone, PartialEq, Eq)]
pub struct LocalFile {
    pub name: String,
    pub size: u64,
    pub mime: String,
}

pub ghost struct LocalFileView {
    pub name: Seq<char>,
    pub size: u64,
    pub mime: Seq<char>,
}

impl View for LocalFile {
    type V = LocalFileView;

    open spec fn view(&self) -> LocalFileView {
        LocalFileView { name: self.name@, size: self.size, mime: self.mime@ }
    }
}

/// The greeting of a sender.
pub open spec fn sender_hello(name: Seq<char>, device_id: Seq<u8>) -> ControlView {
    ControlView::Hello(HelloView { name, device_id, pin_required: false })
}

/// What a sender greets with.
pub fn greeting(name: &str, device_id: [u8; 16]) -> (hello: Control)
    ensures
        hello@ == sender_hello(name@, device_id@),
{
    Control::Hello(Hello { name: name.to_owned(), device_id, pin_required: false })
}

/// Why a sender stops at the receiver's greeting.
pub open spec fn greeting_objection(message: ControlView, pin: Option<Seq<char>>) -> Option<
    ErrorView,
> {
    match message {
        ControlView::Hello(hello) => if hello.pin_required && (pin is None || pin->0.len() == 0) {
            Some(ErrorView::Pin)
        } else {
            None
        },
        _ => Some(ErrorView::Protocol("expected hello"@)),
    }
}

/// Checks the receiver's greeting: a required pin must be at hand.
pub fn check_greeting(message: &Control, pin: Option<&str>) -> (checked: Result<()>)
    ensures
        match greeting_objection(message@, opt_view(pin)) {
            Some(error) => checked is Err && checked->Err_0@ == error,
            None => checked is Ok,
        },
{
    match message {
        Control::Hello(hello) => {
            let missing = match pin {
                Some(pin) => pin.is_empty(),
                None => true,
            };
            if hello.pin_required && missing {
                return Err(Error::Pin);
            }
            Ok(())
        },
        _ => Err(Error::protocol("expected hello")),
    }
}

pub open spec fn offer_files(files: Seq<LocalFileView>) -> Seq<FileOfferView> {
    Seq::new(
        files.len(),
        |i: int|
            FileOfferView {
                id: i as u32,
                size: files[i].size,
                name: files[i].name,
                mime: files[i].mime,
            },
    )
}

/// The offer of some files: they are numbered in their order.
pub open spec fn offer_of(transfer_id: Seq<u8>, pin: Option<Seq<char>>, files: Seq<LocalFileView>) -> OfferView {
    OfferView {
        transfer_id,
        pin: match pin {
            Some(pin) => pin,
            None => Seq::empty(),
        },
        files: offer_files(files),
    }
}

/// Offers files; each must have a name that a receiver can keep.
pub fn make_offer(transfer_id: [u8; 16], pin: Option<&str>, files: &Vec<LocalFile>) -> (offer: Result<
    Offer,
>)
    requires
        files@.len() <= u32::MAX,
    ensures
        files@.len() == 0 ==> offer is Err && offer->Err_0@ == ErrorView::Protocol(
            "no files to send"@,
        ),
        files@.len() > 0 ==> if forall|i: int|
            0 <= i < files@.len() ==> safe_name(#[trigger] files@[i].name@) is Some {
            offer is Ok && offer->Ok_0@ == offer_of(
                transfer_id@,
                opt_view(pin),
                seq_view(files@),
            )
        } else {
            offer is Err && offer->Err_0@ == ErrorView::UnsafeName
        },
{
    if files.len() == 0 {
        return Err(Error::protocol("no files to send"));
    }
    let mut offers: Vec<FileOffer> = Vec::new();
    let ghost views = offer_files(seq_view(files@));
    for i in 0..files.len()
        invariant
            views == offer_files(seq_view(files@)),
            0 < files@.len() <= u32::MAX,
            seq_view(offers@) == views.take(i as int),
            forall|j: int| 0 <= j < i ==> safe_name(#[trigger] files@[j].name@) is Some,
    {
        let file = &files[i];
        let ghost held = offers@;
        safe_file_name(file.name.as_str())?;
        let next = FileOffer {
            id: i as u32,
            size: file.size,
            name: file.name.clone(),
            mime: file.mime.clone(),
        };
        offers.push(next);
        assert(seq_view(offers@) =~= seq_view(held).push(next@));
        assert(views.take(i + 1) =~= views.take(i as int).push(next@));
    }
    assert(views.take(files@.len() as int) =~= views);
    let pin = match pin {
        Some(pin) => pin.to_owned(),
        None => String::new(),
    };
    Ok(Offer { transfer_id, pin, files: offers })
}

/// The sum of the sizes, or the largest number where the sum is larger.
pub open spec fn offered_bytes(files: Seq<FileOfferView>) -> nat
    decreases files.len(),
{
    if files.len() == 0 {
        0
    } else {
        let sum = offered_bytes(files.drop_last()) + files.last().size as nat;
        if sum > u64::MAX {
            u64::MAX as nat
        } else {
            sum
        }
    }
}

/// How many bytes an offer holds.
pub fn offer_bytes(offer: &Offer) -> (total: u64)
    ensures
        total == offered_bytes(offer@.files),
{
    let mut total: u64 = 0;
    for i in 0..offer.files.len()
        invariant
            offer@.files.len() == offer.files@.len(),
            total == offered_bytes(offer@.files.take(i as int)),
    {
        let ghost part = offer@.files.take(i + 1);
        assert(part.drop_last() =~= offer@.files.take(i as int));
        assert(part.last() == offer.files@[i as int]@);
        total = total.saturating_add(offer.files[i].size);
    }
    assert(offer@.files.take(offer@.files.len() as int) =~= offer@.files);
    total
}

/// Why a sender stops at the answer to its offer.
pub open spec fn answer_objection(message: ControlView, transfer_id: Seq<u8>) -> Option<ErrorView> {
    match message {
        ControlView::Reject { reason, .. } => Some(ErrorView::Rejected(reason)),
        ControlView::Accept { transfer_id: accepted } => if accepted == transfer_id {
            None
        } else {
            Some(ErrorView::Protocol("expected accept or reject"@))
        },
        _ => Some(ErrorView::Protocol("expected accept or reject"@)),
    }
}

/// Checks the answer to an offer.
pub fn check_answer(message: Control, transfer_id: &[u8; 16]) -> (checked: Result<()>)
    ensures
        match answer_objection(message@, transfer_id@) {
            Some(error) => checked is Err && checked->Err_0@ == error,
            None => checked is Ok,
        },
{
    match message {
        Control::Reject { reason, .. } => Err(Error::Rejected(reason)),
        Control::Accept { transfer_id: accepted } => if same_bytes(&accepted, transfer_id) {
            Ok(())
        } else {
            Err(Error::protocol("expected accept or reject"))
        },
        _ => Err(Error::protocol("expected accept or reject")),
    }
}

/// Why a sender does not take a message for the end of the transfer.
pub open spec fn completion_objection(message: ControlView, transfer_id: Seq<u8>) -> Option<
    ErrorView,
> {
    match message {
        ControlView::Reject { reason, .. } => Some(ErrorView::Rejected(reason)),
        ControlView::Done { transfer_id: done } => if done == transfer_id {
            None
        } else {
            Some(ErrorView::Protocol("expected completion"@))
        },
        _ => Some(ErrorView::Protocol("expected completion"@)),
    }
}

/// Checks the message that ends a transfer.
pub fn check_completion(message: Control, transfer_id: &[u8; 16]) -> (checked: Result<()>)
    ensures
        match completion_objection(message@, transfer_id@) {
            Some(error) => checked is Err && checked->Err_0@ == error,
            None => checked is Ok,
        },
{
    match message {
        Control::Reject { reason, .. } => Err(Error::Rejected(reason)),
        Control::Done { transfer_id: done } => if same_bytes(&done, transfer_id) {
            Ok(())
        } else {
            Err(Error::protocol("expected completion"))
        },
        _ => Err(Error::protocol("expected completion")),
    }
}

/// The sender understands what a receiver makes of a decision: it goes on after
/// an acceptance, and is told the reason of a rejection.
pub proof fn sender_understands_decision(peer: Seq<char>, offer: OfferView, decision: Decision)
    ensures
        match decision_step(peer, offer, decision).1 {
            ActionView::TakeFiles(reply) => decision == Decision::Accepted && answer_objection(
                reply,
                offer.transfer_id,
            ) is None,
            ActionView::Refuse { reply, .. } => decision != Decision::Accepted && answer_objection(
                reply,
                offer.transfer_id,
            ) == Some(
                ErrorView::Rejected(
                    if decision == Decision::Declined {
                        "declined"@
                    } else {
                        "timed out"@
                    },
                ),
            ),
            _ => false,
        },
{
}

/// The message with which a receiver completes a transfer ends it for the
/// sender.
pub proof fn sender_understands_completion(
    peer: Seq<char>,
    offer: OfferView,
    received: nat,
    bytes: nat,
    size: u64,
)
    requires
        received + 1 == offer.files.len(),
    ensures
        stored_step(peer, offer, received, bytes, size).1 matches ActionView::Complete { reply, .. }
            && completion_objection(reply, offer.transfer_id) is None,
{
}

/// The stream of an offered file is admitted as that file: ids are the places
/// in the offer.
pub proof fn offered_file_is_admitted(files: Seq<LocalFileView>, limit: u64, i: int)
    requires
        0 <= i < files.len() <= u32::MAX,
        files[i].size <= limit,
        safe_name(files[i].name) is Some,
    ensures
        admitted(
            offer_files(files),
            limit,
            file_header(i as u32, files[i].size),
        ) == Ok::<FileOfferView, ErrorView>(offer_files(files)[i]),
{
    let header = file_header(i as u32, files[i].size);
    lemma_pow256();
    lemma_le(i as nat, 4);
    lemma_le(files[i].size as nat, 8);
    assert(header.take(4) =~= le(i as nat, 4));
    assert(header.skip(4) =~= le(files[i].size as nat, 8));
    lemma_offered_by_place(files, offer_files(files).len() as int, i);
    assert(offer_files(files).take(offer_files(files).len() as int) =~= offer_files(files));
}

proof fn lemma_offered_by_place(files: Seq<LocalFileView>, len: int, i: int)
    requires
        0 <= i < len <= files.len() <= u32::MAX,
    ensures
        offered(offer_files(files).take(len), i as u32) == Some(offer_files(files)[i]),
    decreases len,
{
    let part = offer_files(files).take(len);
    assert(part.drop_last() =~= offer_files(files).take(len - 1));
    if i < len - 1 {
        lemma_offered_by_place(files, len - 1, i);
    }
}

/// What arrives of a transfer that is complete.
#[derive(Debug)]
pub struct ReceiveReport {
    pub peer: String,
    pub files: Vec<String>,
    pub bytes: u64,
}

/// What was sent in a transfer that is complete.
#[derive(Debug)]
pub struct SendReport {
    pub fingerprint: [u8; 32],
    pub files: usize,
    pub bytes: u64,
}

} // verus!
