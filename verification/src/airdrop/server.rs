//! What a receiver answers to the three calls, and what a sender calls.

use crate::airdrop::cpio::{
    archive_bytes, broken_stream, files_view, names_stay, pack_objection, reads_back, upload_files,
    ArchiveEntry, EntryView,
};
use crate::airdrop::http::{field_of, request_head, write_request, Request, RequestView};
use crate::airdrop::protocol::{
    ask_request, ask_response, ask_response_tree, ask_tree, asked, build_upload, describe,
    discover_request, discover_response, discover_response_tree, extract_upload, pairs_view,
    parse_ask, read_ask, Ask, AskView,
};
use crate::airdrop::property::{binary_of, tree_in, Tree};
use crate::approve::{IncomingFile, IncomingFileView, TransferOffer, TransferOfferView};
use crate::compress::gzipped;
use crate::error::{error_text, Error, ErrorView, Result};
use crate::mime::{
    folders_tell_kinds, is_gif, is_jpeg, is_mp3, is_png, signatures_decide, sniff, sniffed,
    subdir_name, MediaKind,
};
use crate::paths::{destination, Destination};
use crate::sanitize::{safe_file_name, safe_name};
use crate::text::{decimal, decimal_text, opt_view, same_text, seq_view};
use vstd::prelude::*;
use vstd::slice::slice_to_vec;
use vstd::utf8::*;

verus! {

/// How much a body may hold beyond the largest file.
pub const BODY_MARGIN: u64 = 1024 * 1024;

/// An answer.
#[derive(Debug)]
pub struct Reply {
    pub status: u16,
    pub reason: &'static str,
    pub content_type: &'static str,
    pub body: Vec<u8>,
}

pub ghost struct ReplyView {
    pub status: u16,
    pub reason: Seq<char>,
    pub content_type: Seq<char>,
    pub body: Seq<u8>,
}

impl View for Reply {
    type V = ReplyView;

    open spec fn view(&self) -> ReplyView {
        ReplyView {
            status: self.status,
            reason: self.reason@,
            content_type: self.content_type@,
            body: self.body@,
        }
    }
}

/// An answer in plain words.
pub open spec fn words(status: u16, reason: Seq<char>, text: Seq<char>) -> ReplyView {
    ReplyView { status, reason, content_type: "text/plain"@, body: encode_utf8(text) }
}

/// The answer to a call that succeeds.
pub open spec fn success(body: Seq<u8>) -> ReplyView {
    ReplyView { status: 200, reason: "OK"@, content_type: "application/octet-stream"@, body }
}

/// An answer that tells of a failure.
pub open spec fn tells(reply: ReplyView, status: u16, reason: Seq<char>, error: ErrorView) -> bool {
    &&& reply.status == status
    &&& reply.reason == reason
    &&& reply.content_type == "text/plain"@
    &&& !(error is Io) ==> reply.body == encode_utf8(error_text(error))
}

fn plain(status: u16, reason: &'static str, text: &str) -> (reply: Reply)
    ensures
        reply@ == words(status, reason@, text@),
{
    Reply { status, reason, content_type: "text/plain", body: slice_to_vec(text.as_bytes()) }
}

fn telling(status: u16, reason: &'static str, error: &Error) -> (reply: Reply)
    ensures
        tells(reply@, status, reason@, error@),
{
    plain(status, reason, error.message().as_str())
}

/// The answer to a request that cannot be read.
pub fn bad_request(error: &Error) -> (reply: Reply)
    ensures
        tells(reply@, 400, "Bad Request"@, error@),
{
    telling(400, "Bad Request", error)
}

/// Whether a connection stays open after an answer: after every one but a
/// failure, and after a refusal.
pub fn keeps_open(status: u16) -> (open: bool)
    ensures
        open == (status < 400 || status == 409),
{
    status < 400 || status == 409
}

/// A file that is to be stored.
#[derive(Debug)]
pub struct StoreFile {
    pub dest: Destination,
    pub bytes: Vec<u8>,
}

pub ghost struct StoreView {
    pub folder: Option<Seq<char>>,
    pub name: Seq<char>,
    pub bytes: Seq<u8>,
}

impl View for StoreFile {
    type V = StoreView;

    open spec fn view(&self) -> StoreView {
        StoreView {
            folder: opt_view(self.dest.folder),
            name: self.dest.name@,
            bytes: self.bytes@,
        }
    }
}

/// What a receiver does about a call.
#[derive(Debug)]
pub enum Response {
    /// Answer.
    Reply(Reply),
    /// Ask the person, then go on with [`AirdropReceiver::on_decision`].
    Ask(TransferOffer),
    /// Store files, then answer. Where all files of the upload are among them,
    /// [`AirdropReceiver::stored`] settles it.
    Store { files: Vec<StoreFile>, complete: bool, reply: Reply },
}

/// A receiver: what it says of itself, what it takes, and whether an upload is
/// accepted.
#[derive(Debug)]
pub struct AirdropReceiver {
    pub name: String,
    pub model: String,
    pub sort_media: bool,
    pub max_file_bytes: u64,
    pub accepted: bool,
}

pub ghost struct ReceiverView {
    pub name: Seq<char>,
    pub model: Seq<char>,
    pub sort_media: bool,
    pub max_file_bytes: u64,
    pub accepted: bool,
}

impl View for AirdropReceiver {
    type V = ReceiverView;

    open spec fn view(&self) -> ReceiverView {
        ReceiverView {
            name: self.name@,
            model: self.model@,
            sort_media: self.sort_media,
            max_file_bytes: self.max_file_bytes,
            accepted: self.accepted,
        }
    }
}

/// What a person is shown of an ask.
pub open spec fn offer_of(ask: AskView) -> TransferOfferView {
    TransferOfferView {
        protocol: "airdrop"@,
        peer: ask.sender_name,
        pin: None,
        files: Seq::new(
            ask.files.len(),
            |i: int|
                IncomingFileView {
                    name: ask.files[i],
                    bytes: 0,
                    mime: sniffed(Seq::empty(), ask.files[i]).1,
                    kind: sniffed(Seq::empty(), ask.files[i]).0,
                },
        ),
    }
}

/// Every file of the ask has a name that can be kept.
pub open spec fn safe_ask(ask: AskView) -> bool {
    forall|i: int| 0 <= i < ask.files.len() ==> safe_name(#[trigger] ask.files[i]) is Some
}

/// Where a file of an upload goes.
pub open spec fn place_for(receiver: ReceiverView, entry: EntryView) -> StoreView {
    StoreView {
        folder: if receiver.sort_media {
            subdir_name(sniffed(entry.bytes, entry.name).0)
        } else {
            None
        },
        name: safe_name(entry.name)->0,
        bytes: entry.bytes,
    }
}

/// The files that are stored: those before the first without a name that can be
/// kept.
pub open spec fn storable(receiver: ReceiverView, entries: Seq<EntryView>) -> Seq<StoreView>
    decreases entries.len(),
{
    if entries.len() == 0 || safe_name(entries[0].name) is None {
        Seq::empty()
    } else {
        seq![place_for(receiver, entries[0])] + storable(receiver, entries.skip(1))
    }
}

/// What an ask with the given body leads to.
pub open spec fn ask_step(response: Response, body: Seq<u8>) -> bool {
    match tree_in(body) {
        None => response matches Response::Reply(reply) && reply.status == 400 && reply.reason@
            == "Bad Request"@ && reply.content_type@ == "text/plain"@,
        Some(tree) => match read_ask(tree) {
            Err(error) => response matches Response::Reply(reply) && tells(
                reply@,
                400,
                "Bad Request"@,
                error,
            ),
            Ok(ask) => if safe_ask(ask) {
                response matches Response::Ask(offer) && offer@ == offer_of(ask)
            } else {
                response matches Response::Reply(reply) && reply@ == words(
                    400,
                    "Bad Request"@,
                    "unsafe file name"@,
                )
            },
        },
    }
}

/// The media type of an upload.
pub open spec fn upload_type(headers: Seq<(Seq<char>, Seq<char>)>) -> Seq<char> {
    match field_of(headers, "content-type"@) {
        Some(value) => value,
        None => "application/x-cpio"@,
    }
}

/// What an upload leads to, and whether an upload is accepted then.
pub open spec fn upload_step(
    receiver: ReceiverView,
    request: RequestView,
    response: Response,
    accepted: bool,
) -> bool {
    if !receiver.accepted {
        &&& accepted == receiver.accepted
        &&& response matches Response::Reply(reply)
        &&& reply@ == words(409, "Conflict"@, "upload without acceptance"@)
    } else {
        match upload_files(
            request.body,
            upload_type(request.head.headers),
            receiver.max_file_bytes,
        ) {
            None => {
                &&& !accepted
                &&& response matches Response::Reply(reply)
                &&& exists|error: ErrorView| broken_stream(error) && tells(
                    reply@,
                    400,
                    "Bad Request"@,
                    error,
                )
            },
            Some(Err(error)) => {
                &&& !accepted
                &&& response matches Response::Reply(reply)
                &&& tells(reply@, 400, "Bad Request"@, error)
            },
            Some(Ok(entries)) => {
                &&& accepted
                &&& response matches Response::Store { files, complete, reply }
                &&& seq_view(files@) == storable(receiver, entries)
                &&& complete == (files@.len() == entries.len())
                &&& complete ==> reply@ == success(Seq::empty())
                &&& !complete ==> tells(reply@, 400, "Bad Request"@, ErrorView::UnsafeName)
            },
        }
    }
}

/// What a call leads to.
pub open spec fn call_step(
    receiver: ReceiverView,
    request: RequestView,
    response: Response,
    accepted: bool,
) -> bool {
    if request.head.method != "POST"@ {
        &&& accepted == receiver.accepted
        &&& response matches Response::Reply(reply)
        &&& reply@ == words(405, "Method Not Allowed"@, "POST only"@)
    } else if request.head.path == "/Discover"@ {
        &&& accepted == receiver.accepted
        &&& response matches Response::Reply(reply)
        &&& answers(
            reply@,
            discover_response_tree(receiver.name, receiver.model),
        )
    } else if request.head.path == "/Ask"@ {
        accepted == receiver.accepted && ask_step(response, request.body)
    } else if request.head.path == "/Upload"@ {
        upload_step(receiver, request, response, accepted)
    } else {
        &&& accepted == receiver.accepted
        &&& response matches Response::Reply(reply)
        &&& reply@ == words(404, "Not Found"@, "unknown airdrop endpoint"@)
    }
}

/// The answer is the binary form of the tree, which is read back from it.
pub open spec fn answers(reply: ReplyView, tree: Tree) -> bool {
    reply == success(binary_of(tree)) && tree_in(reply.body) == Some(tree)
}

fn answer(body: Result<Vec<u8>>) -> (reply: Reply)
    ensures
        body matches Ok(bytes) ==> reply@ == success(bytes@),
        body matches Err(error) ==> tells(reply@, 500, "Server Error"@, error@),
{
    match body {
        Ok(body) => Reply {
            status: 200,
            reason: "OK",
            content_type: "application/octet-stream",
            body,
        },
        Err(error) => telling(500, "Server Error", &error),
    }
}

fn offer_from_ask(ask: &Ask) -> (offer: TransferOffer)
    ensures
        offer@ == offer_of(ask@),
{
    let mut files: Vec<IncomingFile> = Vec::new();
    let ghost expected = offer_of(ask@).files;
    for i in 0..ask.files.len()
        invariant
            expected == offer_of(ask@).files,
            expected.len() == ask.files@.len(),
            seq_view(files@) == expected.take(i as int),
    {
        let name = &ask.files[i].name;
        let ghost before = files@;
        let nothing: [u8; 0] = [];
        assert(nothing@ =~= Seq::empty());
        let (kind, mime) = sniff(&nothing, name.as_str());
        let file = IncomingFile { name: name.clone(), bytes: 0, mime: mime.to_owned(), kind };
        assert(ask@.files[i as int] == name@);
        files.push(file);
        assert(seq_view(files@) =~= seq_view(before).push(file@));
        assert(expected.take(i + 1) =~= expected.take(i as int).push(file@));
    }
    let offer = TransferOffer {
        protocol: "airdrop",
        peer: ask.sender_name.clone(),
        pin: None,
        files,
    };
    assert(offer@.files =~= expected);
    offer
}

/// What a receiver is called and what it takes.
#[derive(Debug, Clone, PartialEq, Eq)]
pub struct AirdropConfig {
    pub name: String,
    pub model: String,
    pub sort_media: bool,
    pub max_file_bytes: u64,
}

impl AirdropConfig {
    pub fn auto() -> (config: Self)
        ensures
            config.name@ == "Crossdrop"@,
            config.model@ == "Crossdrop"@,
            !config.sort_media,
            config.max_file_bytes == 32 * 1024 * 1024 * 1024,
    {
        AirdropConfig {
            name: "Crossdrop".to_owned(),
            model: "Crossdrop".to_owned(),
            sort_media: false,
            max_file_bytes: 32 * 1024 * 1024 * 1024,
        }
    }
}

impl AirdropReceiver {
    pub fn new(config: AirdropConfig) -> (receiver: Self)
        ensures
            receiver@ == (ReceiverView {
                name: config.name@,
                model: config.model@,
                sort_media: config.sort_media,
                max_file_bytes: config.max_file_bytes,
                accepted: false,
            }),
    {
        AirdropReceiver {
            name: config.name,
            model: config.model,
            sort_media: config.sort_media,
            max_file_bytes: config.max_file_bytes,
            accepted: false,
        }
    }

    /// The longest body that is read.
    pub fn body_limit(&self) -> (limit: usize)
        ensures
            limit == if self@.max_file_bytes + BODY_MARGIN > usize::MAX {
                usize::MAX as int
            } else {
                self@.max_file_bytes + BODY_MARGIN
            },
    {
        let limit: u64 = self.max_file_bytes.saturating_add(BODY_MARGIN);
        if limit > usize::MAX as u64 {
            usize::MAX
        } else {
            limit as usize
        }
    }

    /// Takes a call.
    pub fn dispatch(&mut self, request: &Request) -> (response: Response)
        ensures
            call_step(old(self)@, request@, response, final(self)@.accepted),
            final(self)@ == (ReceiverView { accepted: final(self)@.accepted, ..old(self)@ }),
    {
        if !same_text(request.method.as_str(), "POST") {
            return Response::Reply(plain(405, "Method Not Allowed", "POST only"));
        }
        let path = request.path.as_str();
        if same_text(path, "/Discover") {
            let body = discover_response(self.name.as_str(), self.model.as_str());
            Response::Reply(answer(body))
        } else if same_text(path, "/Ask") {
            self.ask(request.body.as_slice())
        } else if same_text(path, "/Upload") {
            self.upload(request)
        } else {
            Response::Reply(plain(404, "Not Found", "unknown airdrop endpoint"))
        }
    }

    fn ask(&self, body: &[u8]) -> (response: Response)
        ensures
            ask_step(response, body@),
    {
        let ask = match parse_ask(body) {
            Ok(ask) => ask,
            Err(error) => return Response::Reply(bad_request(&error)),
        };
        for i in 0..ask.files.len()
            invariant
                asked(Ok::<Ask, Error>(ask), body@),
                forall|j: int| 0 <= j < i ==> safe_name(#[trigger] ask@.files[j]) is Some,
                ask@.files.len() == ask.files@.len(),
        {
            assert(ask@.files[i as int] == ask.files@[i as int].name@);
            if safe_file_name(ask.files[i].name.as_str()).is_err() {
                assert(!safe_ask(ask@));
                return Response::Reply(plain(400, "Bad Request", "unsafe file name"));
            }
        }
        Response::Ask(offer_from_ask(&ask))
    }

    /// Takes the decision on an ask.
    pub fn on_decision(&mut self, allow: bool) -> (reply: Reply)
        ensures
            final(self)@ == (ReceiverView { accepted: allow, ..old(self)@ }),
            !allow ==> reply@ == words(409, "Conflict"@, "declined"@),
            allow ==> answers(
                reply@,
                ask_response_tree(old(self)@.name, old(self)@.model),
            ),
    {
        self.accepted = allow;
        if !allow {
            return plain(409, "Conflict", "declined");
        }
        answer(ask_response(self.name.as_str(), self.model.as_str()))
    }

    fn upload(&mut self, request: &Request) -> (response: Response)
        ensures
            upload_step(old(self)@, request@, response, final(self)@.accepted),
            final(self)@ == (ReceiverView { accepted: final(self)@.accepted, ..old(self)@ }),
    {
        if !self.accepted {
            return Response::Reply(plain(409, "Conflict", "upload without acceptance"));
        }
        let content_type = match request.headers.get("content-type") {
            Some(value) => value.clone(),
            None => "application/x-cpio".to_owned(),
        };
        let entries = match extract_upload(
            request.body.as_slice(),
            content_type.as_str(),
            self.max_file_bytes,
        ) {
            Ok(entries) => entries,
            Err(error) => {
                self.accepted = false;
                return Response::Reply(bad_request(&error));
            },
        };
        let (files, complete) = self.places(&entries);
        let reply = if complete {
            Reply {
                status: 200,
                reason: "OK",
                content_type: "application/octet-stream",
                body: Vec::new(),
            }
        } else {
            bad_request(&Error::UnsafeName)
        };
        assert(complete ==> reply@.body =~= Seq::empty());
        Response::Store { files, complete, reply }
    }

    fn places(&self, entries: &Vec<ArchiveEntry>) -> (placed: (Vec<StoreFile>, bool))
        ensures
            seq_view(placed.0@) == storable(self@, seq_view(entries@)),
            placed.1 == (placed.0@.len() == entries@.len()),
    {
        let mut files: Vec<StoreFile> = Vec::new();
        let ghost views = seq_view(entries@);
        assert(views.skip(0) =~= views);
        assert(seq_view(files@) + storable(self@, views) =~= storable(self@, views));
        for i in 0..entries.len()
            invariant
                views == seq_view(entries@),
                files@.len() == i,
                seq_view(files@) + storable(self@, views.skip(i as int)) == storable(self@, views),
        {
            let entry = &entries[i];
            let ghost before = files@;
            let ghost rest = views.skip(i as int);
            assert(rest[0] == entry@);
            assert(rest.skip(1) =~= views.skip(i + 1));
            let (kind, _) = sniff(entry.bytes.as_slice(), entry.name.as_str());
            let dest = match destination(entry.name.as_str(), kind, self.sort_media) {
                Ok(dest) => dest,
                Err(_) => {
                    assert(seq_view(files@) + Seq::empty() =~= seq_view(files@));
                    return (files, false);
                },
            };
            let file = StoreFile { dest, bytes: slice_to_vec(entry.bytes.as_slice()) };
            files.push(file);
            proof {
                assert(file@ == place_for(self@, entry@));
                assert(seq_view(files@) =~= seq_view(before).push(file@));
                assert(seq_view(before) + (seq![file@] + storable(self@, rest.skip(1)))
                    =~= seq_view(files@) + storable(self@, rest.skip(1)));
            }
        }
        assert(views.skip(views.len() as int) =~= Seq::empty());
        assert(seq_view(files@) + Seq::empty() =~= seq_view(files@));
        (files, true)
    }

    /// Notes that all files of an upload are stored.
    pub fn stored(&mut self)
        ensures
            final(self)@ == (ReceiverView { accepted: false, ..old(self)@ }),
    {
        self.accepted = false;
    }

    /// The answer where a file could not be stored.
    pub fn not_stored(&self, error: &Error) -> (reply: Reply)
        ensures
            tells(reply@, 500, "Server Error"@, error@),
    {
        telling(500, "Server Error", error)
    }
}

/// An upload that was not accepted is refused, and nothing of it is stored.
pub proof fn unaccepted_upload_is_refused(
    receiver: ReceiverView,
    request: RequestView,
    response: Response,
    accepted: bool,
)
    requires
        !receiver.accepted,
        request.head.method == "POST"@,
        request.head.path == "/Upload"@,
        call_step(receiver, request, response, accepted),
    ensures
        response matches Response::Reply(reply) && reply.status == 409,
        !accepted,
{
    reveal_strlit("/Upload");
    reveal_strlit("/Discover");
    reveal_strlit("/Ask");
    assert("/Upload"@.len() == 7);
    assert("/Discover"@.len() == 9);
    assert("/Ask"@.len() == 4);
}

/// No call accepts an upload: only a decision does.
pub proof fn calls_do_not_accept(
    receiver: ReceiverView,
    request: RequestView,
    response: Response,
    accepted: bool,
)
    requires
        call_step(receiver, request, response, accepted),
    ensures
        accepted ==> receiver.accepted,
{
}

/// What is stored has a name that can be kept and the bytes that came. It stands
/// in no folder where media are not sorted, and else in the folder of the kind
/// that its bytes and its name tell: a picture, whatever it is called, in the one
/// for photos.
pub proof fn stored_names_are_safe(receiver: ReceiverView, entries: Seq<EntryView>, i: int)
    requires
        0 <= i < storable(receiver, entries).len(),
    ensures
        i < entries.len(),
        safe_name(entries[i].name) == Some(storable(receiver, entries)[i].name),
        storable(receiver, entries)[i].bytes == entries[i].bytes,
        !receiver.sort_media ==> storable(receiver, entries)[i].folder is None,
        receiver.sort_media ==> storable(receiver, entries)[i].folder == subdir_name(
            sniffed(entries[i].bytes, entries[i].name).0,
        ),
        receiver.sort_media && (is_jpeg(entries[i].bytes) || is_png(entries[i].bytes) || is_gif(
            entries[i].bytes,
        )) ==> storable(receiver, entries)[i].folder == Some("Photos"@),
        receiver.sort_media && is_mp3(entries[i].bytes) ==> storable(receiver, entries)[i].folder == Some("Audio"@),
    decreases entries.len(),
{
    if i > 0 {
        stored_names_are_safe(receiver, entries.skip(1), i - 1);
    } else {
        signatures_decide(entries[0].bytes, entries[0].name);
        folders_tell_kinds(MediaKind::Photo, MediaKind::Audio);
    }
}

/// All files of an upload whose names can be kept are stored.
pub proof fn nameable_files_are_stored(receiver: ReceiverView, entries: Seq<EntryView>)
    requires
        forall|i: int| 0 <= i < entries.len() ==> safe_name(#[trigger] entries[i].name) is Some,
    ensures
        storable(receiver, entries).len() == entries.len(),
    decreases entries.len(),
{
    if entries.len() > 0 {
        assert(safe_name(entries[0].name) is Some);
        assert forall|i: int| 0 <= i < entries.skip(1).len() implies safe_name(
            #[trigger] entries.skip(1)[i].name,
        ) is Some by {
            assert(entries.skip(1)[i] == entries[i + 1]);
        }
        nameable_files_are_stored(receiver, entries.skip(1));
    }
}

/// Nothing is stored of a file whose name cannot be kept, nor of those after it.
pub proof fn first_unsafe_name_ends_an_upload(
    receiver: ReceiverView,
    entries: Seq<EntryView>,
    at: int,
)
    requires
        0 <= at < entries.len(),
        safe_name(entries[at].name) is None,
        forall|i: int| 0 <= i < at ==> safe_name(#[trigger] entries[i].name) is Some,
    ensures
        storable(receiver, entries).len() == at,
    decreases entries.len(),
{
    if at > 0 {
        assert(safe_name(entries[0].name) is Some);
        assert forall|i: int| 0 <= i < at - 1 implies safe_name(#[trigger] entries.skip(1)[i].name)
            is Some by {
            assert(entries.skip(1)[i] == entries[i + 1]);
        }
        first_unsafe_name_ends_an_upload(receiver, entries.skip(1), at - 1);
    }
}

/// Asks whether a receiver is there.
pub fn discover_call() -> (request: Result<Vec<u8>>)
    ensures
        request is Ok,
        request->Ok_0@ == request_bytes(
            "/Discover"@,
            "application/octet-stream"@,
            binary_of(Tree::Dict(Seq::empty())),
        ),
{
    let body = discover_request()?;
    Ok(write_request("/Discover", "application/octet-stream", body.as_slice()))
}

/// A request as it is written.
pub open spec fn request_bytes(path: Seq<char>, content_type: Seq<char>, body: Seq<u8>) -> Seq<u8> {
    encode_utf8(request_head(path, content_type, body.len())) + body
}

/// The names and media types of files.
pub open spec fn described(files: Seq<EntryView>) -> Seq<(Seq<char>, Seq<char>)> {
    Seq::new(files.len(), |i: int| (files[i].name, sniffed(files[i].bytes, files[i].name).1))
}

/// Asks to send files.
pub fn ask_call(sender_name: &str, files: &[(String, Vec<u8>)]) -> (request: Result<Vec<u8>>)
    ensures
        request is Ok,
        request->Ok_0@ == request_bytes(
            "/Ask"@,
            "application/octet-stream"@,
            binary_of(ask_tree(sender_name@, "crossdrop"@, described(files_view(files@)))),
        ),
        tree_in(binary_of(ask_tree(sender_name@, "crossdrop"@, described(files_view(files@)))))
            == Some(ask_tree(sender_name@, "crossdrop"@, described(files_view(files@)))),
{
    let mut pairs: Vec<(String, String)> = Vec::new();
    let ghost expected = described(files_view(files@));
    for i in 0..files.len()
        invariant
            expected == described(files_view(files@)),
            expected.len() == files@.len(),
            pairs_view(pairs@) == expected.take(i as int),
    {
        let (name, bytes) = &files[i];
        let ghost before = pairs@;
        let (mime, _) = describe(name.as_str(), bytes.as_slice());
        assert(files_view(files@)[i as int] == (EntryView { name: name@, bytes: bytes@ }));
        let next = (name.clone(), mime);
        pairs.push(next);
        assert(pairs_view(pairs@) =~= pairs_view(before).push((next.0@, next.1@)));
        assert(expected.take(i + 1) =~= expected.take(i as int).push((next.0@, next.1@)));
    }
    assert(pairs_view(pairs@) =~= expected);
    let body = ask_request(sender_name, "crossdrop", pairs.as_slice())?;
    Ok(write_request("/Ask", "application/octet-stream", body.as_slice()))
}

/// Goes on after an answer to an ask, unless it is a refusal.
pub fn check_ask(status: u16) -> (checked: Result<()>)
    ensures
        status == 200 ==> checked is Ok,
        status != 200 ==> checked is Err && checked->Err_0@ == ErrorView::Rejected(
            "ask status "@ + decimal_text(status as nat),
        ),
{
    if status != 200 {
        let mut text = "ask status ".to_owned();
        text.append(decimal(status as u64).as_str());
        return Err(Error::Rejected(text));
    }
    Ok(())
}

/// Sends files.
pub fn upload_call(files: &[(String, Vec<u8>)]) -> (request: Result<Vec<u8>>)
    ensures
        match pack_objection(files_view(files@)) {
            Some(error) => request is Err && request->Err_0@ == error,
            None => {
                let archive = gzipped(archive_bytes(files_view(files@)));
                &&& request is Ok
                &&& request->Ok_0@ == request_bytes("/Upload"@, "application/x-cpio"@, archive)
                &&& names_stay(files_view(files@)) ==> reads_back(archive, files_view(files@))
            },
        },
{
    let archive = build_upload(files)?;
    Ok(write_request("/Upload", "application/x-cpio", archive.as_slice()))
}

/// Ends after an answer to an upload, if it succeeded.
pub fn check_upload(status: u16) -> (checked: Result<()>)
    ensures
        status == 200 ==> checked is Ok,
        status != 200 ==> checked is Err && checked->Err_0@ == ErrorView::Protocol(
            "upload status "@ + decimal_text(status as nat),
        ),
{
    if status != 200 {
        let mut text = "upload status ".to_owned();
        text.append(decimal(status as u64).as_str());
        return Err(Error::Protocol(text));
    }
    Ok(())
}

} // verus!
