//! What a receiver answers to each call, and how requests are read.

use crate::airdrop::cpio::{upload_files, EntryView};
use crate::airdrop::exchange::lemma_first_words;
use crate::airdrop::http::{
    body_progress, chunk_run, chunk_size, digits_number, ends_head, field_of, fields_of, head_end,
    lemma_no_pair_before, line_field, lines_of, number_of, progress, read_head, request_head,
    response_head, status_number, take_line, ChunksView, HeadView, LineView, Mode, ProgressView,
    ReaderView, RequestView, Run,
};
use crate::airdrop::property::{lemma_found_key, lookup, tree_in, Tree};
use crate::airdrop::protocol::{
    ask_response_tree, ask_tree, discover_response_tree, file_names, read_ask, AskView,
};
use crate::airdrop::server::{
    call_step, first_unsafe_name_ends_an_upload, nameable_files_are_stored, storable,
    stored_names_are_safe, upload_step, ReceiverView, Response,
};
use crate::error::{error_text, ErrorView};
use crate::mime::{sniffed, subdir_name, uniform_type_name};
use crate::sanitize::safe_name;
use crate::text::{
    after_word, before_first, begins_with, decimal_text, first_parts_end_at_separators, first_word,
    holds, is_white_char, is_word, lemma_no_byte, lemma_starts_spelled, lowered, seq_view,
    starts_spelled, texts_without_separators_are_whole, trimmed, trimming_keeps_the_core,
};
use vstd::prelude::*;
use vstd::utf8::*;

verus! {

/// The response is an answer in plain words.
pub open spec fn says(response: Response, status: u16, reason: Seq<char>, text: Seq<char>) -> bool {
    response matches Response::Reply(reply) && reply.status == status && reply.reason@ == reason
        && reply.content_type@ == "text/plain"@ && reply.body@ == encode_utf8(text)
}

proof fn lemma_call_paths()
    ensures
        "/Upload"@.len() == 7,
        "/Discover"@.len() == 9,
        "/Ask"@.len() == 4,
{
    reveal_strlit("/Upload");
    reveal_strlit("/Discover");
    reveal_strlit("/Ask");
}

/// There are three calls, all of them by POST; anything else is answered with
/// what is wrong with it.
pub proof fn other_calls_are_refused(
    receiver: ReceiverView,
    request: RequestView,
    response: Response,
    accepted: bool,
)
    requires
        call_step(receiver, request, response, accepted),
    ensures
        request.head.method != "POST"@ ==> accepted == receiver.accepted && says(
            response,
            405,
            "Method Not Allowed"@,
            "POST only"@,
        ),
        request.head.method == "POST"@ && request.head.path != "/Discover"@ && request.head.path
            != "/Ask"@ && request.head.path != "/Upload"@ ==> accepted == receiver.accepted && says(
            response,
            404,
            "Not Found"@,
            "unknown airdrop endpoint"@,
        ),
        request.head.method == "POST"@ && request.head.path == "/Upload"@ && !receiver.accepted
            ==> !accepted && says(response, 409, "Conflict"@, "upload without acceptance"@),
{
    lemma_call_paths();
}

/// Discovery is answered with the name and model of the receiver, and never asks
/// anyone.
pub proof fn discovery_tells_the_name(
    receiver: ReceiverView,
    request: RequestView,
    response: Response,
    accepted: bool,
)
    requires
        call_step(receiver, request, response, accepted),
        request.head.method == "POST"@,
        request.head.path == "/Discover"@,
    ensures
        accepted == receiver.accepted,
        response matches Response::Reply(reply) && {
            &&& reply.status == 200
            &&& reply.reason@ == "OK"@
            &&& reply.content_type@ == "application/octet-stream"@
            &&& tree_in(reply.body@) matches Some(Tree::Dict(entries)) && {
                &&& lookup(entries, "ReceiverComputerName"@) == Some(Tree::Text(receiver.name))
                &&& lookup(entries, "ReceiverModelName"@) == Some(Tree::Text(receiver.model))
                &&& lookup(entries, "ReceiverMediaCapabilities"@) == Some(
                    Tree::Data(encode_utf8("{\"Version\":1}"@)),
                )
            }
        },
{
    lemma_call_paths();
    let entries = discover_response_tree(receiver.name, receiver.model)->Dict_0;
    lemma_answer_keys();
    lemma_found_key(entries, 0);
    lemma_found_key(entries, 1);
    lemma_found_key(entries, 2);
}

proof fn lemma_answer_keys()
    ensures
        "ReceiverComputerName"@.len() == 20,
        "ReceiverModelName"@.len() == 17,
        "ReceiverMediaCapabilities"@.len() == 25,
{
    reveal_strlit("ReceiverComputerName");
    reveal_strlit("ReceiverModelName");
    reveal_strlit("ReceiverMediaCapabilities");
}

/// What an ask that is accepted is answered with: the name and model of the
/// receiver.
pub proof fn answer_to_an_ask_tells_the_name(name: Seq<char>, model: Seq<char>)
    ensures
        ask_response_tree(name, model) matches Tree::Dict(entries) && {
            &&& entries.len() == 2
            &&& lookup(entries, "ReceiverComputerName"@) == Some(Tree::Text(name))
            &&& lookup(entries, "ReceiverModelName"@) == Some(Tree::Text(model))
        },
{
    let entries = ask_response_tree(name, model)->Dict_0;
    lemma_answer_keys();
    lemma_found_key(entries, 0);
    lemma_found_key(entries, 1);
}

/// An ask is put before the person with the sender's name and the name of each
/// file in their order; the type of each is told by its name, and no length or
/// pin is shown. Where a name cannot be kept, nobody is asked.
pub proof fn asks_are_put_to_the_person(
    receiver: ReceiverView,
    request: RequestView,
    response: Response,
    accepted: bool,
    ask: AskView,
)
    requires
        call_step(receiver, request, response, accepted),
        request.head.method == "POST"@,
        request.head.path == "/Ask"@,
        tree_in(request.body) is Some,
        read_ask(tree_in(request.body)->0) == Ok::<AskView, ErrorView>(ask),
    ensures
        accepted == receiver.accepted,
        (forall|i: int| 0 <= i < ask.files.len() ==> safe_name(#[trigger] ask.files[i]) is Some)
            ==> (response matches Response::Ask(offer) && {
            &&& offer@.protocol == "airdrop"@
            &&& offer@.peer == ask.sender_name
            &&& offer@.pin is None
            &&& offer@.files.len() == ask.files.len()
            &&& forall|i: int|
                0 <= i < ask.files.len() ==> {
                    let told = #[trigger] offer@.files[i];
                    &&& told.name == ask.files[i]
                    &&& told.bytes == 0
                    &&& told.mime == sniffed(Seq::empty(), ask.files[i]).1
                    &&& told.kind == sniffed(Seq::empty(), ask.files[i]).0
                }
        }),
        (exists|i: int| 0 <= i < ask.files.len() && safe_name(#[trigger] ask.files[i]) is None)
            ==> says(response, 400, "Bad Request"@, "unsafe file name"@),
{
    lemma_call_paths();
}

/// An ask that is none is answered as a bad request, and nobody is asked.
pub proof fn broken_asks_are_refused(
    receiver: ReceiverView,
    request: RequestView,
    response: Response,
    accepted: bool,
)
    requires
        call_step(receiver, request, response, accepted),
        request.head.method == "POST"@,
        request.head.path == "/Ask"@,
        tree_in(request.body) is None || read_ask(tree_in(request.body)->0) is Err,
    ensures
        accepted == receiver.accepted,
        response matches Response::Reply(reply) && reply.status == 400,
{
    lemma_call_paths();
}

proof fn lemma_names_of(items: Seq<Tree>)
    requires
        forall|i: int|
            0 <= i < items.len() ==> (#[trigger] items[i] matches Tree::Dict(entries) && lookup(
                entries,
                "FileName"@,
            ) matches Some(Tree::Text(_))),
    ensures
        file_names(items) matches Some(names) && names.len() == items.len() && forall|i: int|
            0 <= i < items.len() ==> lookup(items[i]->Dict_0, "FileName"@) == Some(
                Tree::Text(#[trigger] names[i]),
            ),
    decreases items.len(),
{
    if items.len() > 0 {
        let front = items.drop_last();
        assert forall|i: int| 0 <= i < front.len() implies (#[trigger] front[i] matches Tree::Dict(
            entries,
        ) && lookup(entries, "FileName"@) matches Some(Tree::Text(_))) by {
            assert(front[i] == items[i]);
        }
        lemma_names_of(front);
        let last = items[items.len() - 1];
        assert(last is Dict);
        let names = file_names(items)->0;
        assert forall|i: int| 0 <= i < items.len() implies lookup(items[i]->Dict_0, "FileName"@)
            == Some(Tree::Text(#[trigger] names[i])) by {
            if i < front.len() {
                assert(front[i] == items[i]);
                assert(file_names(front)->0[i] == names[i]);
            }
        }
    }
}

/// What an ask holds: the name under `FileName` of each entry under `Files`, the
/// sender under `SenderComputerName`, or else an Apple device, and its id under
/// `SenderID`.
pub proof fn asks_are_read(entries: Seq<(Seq<char>, Tree)>, items: Seq<Tree>)
    requires
        lookup(entries, "Files"@) == Some(Tree::List(items)),
        items.len() > 0,
        forall|i: int|
            0 <= i < items.len() ==> (#[trigger] items[i] matches Tree::Dict(file) && lookup(
                file,
                "FileName"@,
            ) matches Some(Tree::Text(_))),
    ensures
        read_ask(Tree::Dict(entries)) matches Ok(ask) && {
            &&& ask.files.len() == items.len()
            &&& forall|i: int|
                0 <= i < items.len() ==> lookup(items[i]->Dict_0, "FileName"@) == Some(
                    Tree::Text(#[trigger] ask.files[i]),
                )
            &&& forall|name: Seq<char>|
                lookup(entries, "SenderComputerName"@) == Some(Tree::Text(name))
                    ==> #[trigger] same(ask.sender_name, name)
            &&& lookup(entries, "SenderComputerName"@) is None ==> ask.sender_name
                == "Apple device"@
            &&& forall|id: Seq<char>|
                lookup(entries, "SenderID"@) == Some(Tree::Text(id)) ==> #[trigger] same(
                    ask.sender_id,
                    id,
                )
            &&& lookup(entries, "SenderID"@) is None ==> ask.sender_id.len() == 0
        },
{
    lemma_names_of(items);
}

pub open spec fn same(a: Seq<char>, b: Seq<char>) -> bool {
    a == b
}

proof fn lemma_nameless(items: Seq<Tree>, at: int)
    requires
        0 <= at < items.len(),
        items[at] is Dict,
        !(lookup(items[at]->Dict_0, "FileName"@) matches Some(Tree::Text(_))),
    ensures
        file_names(items) is None,
    decreases items.len(),
{
    if at < items.len() - 1 {
        assert(items.drop_last()[at] == items[at]);
        lemma_nameless(items.drop_last(), at);
    }
}

/// What is no ask: anything but a dictionary, one without files, and one with a
/// file that has no name.
pub proof fn what_is_no_ask(tree: Tree, items: Seq<Tree>, at: int)
    ensures
        !(tree is Dict) ==> read_ask(tree) is Err,
        tree is Dict && !(lookup(tree->Dict_0, "Files"@) matches Some(Tree::List(_))) ==> read_ask(
            tree,
        ) is Err,
        tree is Dict && lookup(tree->Dict_0, "Files"@) == Some(Tree::List(items)) && items.len()
            == 0 ==> read_ask(tree) is Err,
        tree is Dict && lookup(tree->Dict_0, "Files"@) == Some(Tree::List(items)) && 0 <= at
            < items.len() && items[at] is Dict && !(lookup(items[at]->Dict_0, "FileName"@) matches Some(
            Tree::Text(_),
        )) ==> read_ask(tree) is Err,
{
    if 0 <= at < items.len() && items[at] is Dict && !(lookup(items[at]->Dict_0, "FileName"@) matches Some(
        Tree::Text(_),
    )) {
        lemma_nameless(items, at);
    }
}

/// What a sender tells of itself and of each of its files.
pub proof fn asks_tell_of_files(
    sender_name: Seq<char>,
    sender_id: Seq<char>,
    files: Seq<(Seq<char>, Seq<char>)>,
    i: int,
)
    requires
        0 <= i < files.len(),
    ensures
        ask_tree(sender_name, sender_id, files) matches Tree::Dict(entries) && {
            &&& entries.len() == 6
            &&& entries[0] == ("SenderComputerName"@, Tree::Text(sender_name))
            &&& entries[1] == ("BundleID"@, Tree::Text("com.apple.finder"@))
            &&& entries[2] == ("SenderModelName"@, Tree::Text("Crossdrop"@))
            &&& entries[3] == ("SenderID"@, Tree::Text(sender_id))
            &&& entries[4] == ("ConvertMediaFormats"@, Tree::Flag(false))
            &&& entries[5].0 == "Files"@
            &&& entries[5].1 matches Tree::List(items) && items.len() == files.len()
                && (items[i] matches Tree::Dict(file) && {
                &&& file.len() == 5
                &&& file[0] == ("FileName"@, Tree::Text(files[i].0))
                &&& file[1] == (
                    "FileType"@,
                    Tree::Text(uniform_type_name(files[i].1)),
                )
                &&& file[2] == ("FileBomPath"@, Tree::Text("./"@ + files[i].0))
                &&& file[3] == ("FileIsDirectory"@, Tree::Flag(false))
                &&& file[4] == ("ConvertMediaFormats"@, Tree::Flag(false))
            })
        },
{
}

/// An accepted upload whose archive can be read is stored file by file, each with
/// the bytes that came for it, and where all names can be kept the sender is told
/// that all went well. Where one cannot, the files before it are kept and the
/// sender is told that its request was bad.
pub proof fn accepted_uploads_are_stored(
    receiver: ReceiverView,
    request: RequestView,
    response: Response,
    accepted: bool,
    entries: Seq<EntryView>,
    at: int,
)
    requires
        receiver.accepted,
        call_step(receiver, request, response, accepted),
        request.head.method == "POST"@,
        request.head.path == "/Upload"@,
        field_of(request.head.headers, "content-type"@) is Some,
        upload_files(
            request.body,
            field_of(request.head.headers, "content-type"@)->0,
            receiver.max_file_bytes,
        ) == Some(Ok::<Seq<EntryView>, ErrorView>(entries)),
    ensures
        response matches Response::Store { files, complete, reply } && {
            &&& accepted
            &&& (forall|i: int|
                0 <= i < entries.len() ==> safe_name(#[trigger] entries[i].name) is Some) ==> {
                &&& complete
                &&& files@.len() == entries.len()
                &&& reply.status == 200
                &&& reply.body@.len() == 0
            }
            &&& forall|i: int|
                0 <= i < files@.len() ==> {
                    let file = #[trigger] seq_view(files@)[i];
                    &&& file.bytes == entries[i].bytes
                    &&& Some(file.name) == safe_name(entries[i].name)
                    &&& !receiver.sort_media ==> file.folder is None
                    &&& receiver.sort_media ==> file.folder == subdir_name(
                        sniffed(entries[i].bytes, entries[i].name).0,
                    )
                }
            &&& 0 <= at < entries.len() && safe_name(entries[at].name) is None && (forall|i: int|
                0 <= i < at ==> safe_name(#[trigger] entries[i].name) is Some) ==> {
                &&& !complete
                &&& files@.len() == at
                &&& reply.status == 400
            }
        },
{
    lemma_call_paths();
    assert(upload_step(receiver, request, response, accepted));
    let files = response->Store_files;
    assert(seq_view(files@) == storable(receiver, entries));
    if forall|i: int| 0 <= i < entries.len() ==> safe_name(#[trigger] entries[i].name) is Some {
        nameable_files_are_stored(receiver, entries);
    }
    if 0 <= at < entries.len() && safe_name(entries[at].name) is None && forall|i: int|
        0 <= i < at ==> safe_name(#[trigger] entries[i].name) is Some {
        first_unsafe_name_ends_an_upload(receiver, entries, at);
    }
    assert forall|i: int| 0 <= i < files@.len() implies ({
        let file = #[trigger] seq_view(files@)[i];
        &&& file.bytes == entries[i].bytes
        &&& Some(file.name) == safe_name(entries[i].name)
        &&& !receiver.sort_media ==> file.folder is None
        &&& receiver.sort_media ==> file.folder == subdir_name(
            sniffed(entries[i].bytes, entries[i].name).0,
        )
    }) by {
        stored_names_are_safe(receiver, entries, i);
    }
}

/// An accepted upload that cannot be read is answered as a bad request, and is no
/// longer accepted.
pub proof fn broken_uploads_are_refused(
    receiver: ReceiverView,
    request: RequestView,
    response: Response,
    accepted: bool,
)
    requires
        receiver.accepted,
        call_step(receiver, request, response, accepted),
        request.head.method == "POST"@,
        request.head.path == "/Upload"@,
        field_of(request.head.headers, "content-type"@) is Some,
        !(upload_files(
            request.body,
            field_of(request.head.headers, "content-type"@)->0,
            receiver.max_file_bytes,
        ) matches Some(Ok(_))),
    ensures
        !accepted,
        response matches Response::Reply(reply) && reply.status == 400,
{
    lemma_call_paths();
}

/// The value of a hexadecimal digit in either case.
pub open spec fn worth(c: char) -> int {
    if '0' <= c <= '9' {
        c as int - '0' as int
    } else if 'a' <= c <= 'f' {
        c as int - 'a' as int + 10
    } else {
        c as int - 'A' as int + 10
    }
}

pub open spec fn is_hex(c: char) -> bool {
    '0' <= c <= '9' || 'a' <= c <= 'f' || 'A' <= c <= 'F'
}

/// Numbers are read digit by digit, the highest first, and nothing but digits
/// makes a number.
pub proof fn numbers_are_read(digits: Seq<char>, c: char)
    ensures
        digits_number(Seq::empty(), true) == Some(0nat),
        digits_number(Seq::empty(), false) == Some(0nat),
        digits_number(digits, true) is Some && is_hex(c) ==> digits_number(digits.push(c), true)
            == Some((16 * digits_number(digits, true)->0 + worth(c)) as nat),
        digits_number(digits, false) is Some && '0' <= c <= '9' ==> digits_number(
            digits.push(c),
            false,
        ) == Some((10 * digits_number(digits, false)->0 + (c as int - '0' as int)) as nat),
        !is_hex(c) || digits_number(digits, true) is None ==> digits_number(digits.push(c), true)
            is None,
        !('0' <= c <= '9') || digits_number(digits, false) is None ==> digits_number(
            digits.push(c),
            false,
        ) is None,
{
    assert(digits.push(c).drop_last() =~= digits);
}

/// A field of a line is its name in lower case before the first colon, and its
/// value after it, both without the spaces around them. A line without a colon
/// is no field.
pub proof fn fields_are_read(name: Seq<char>, value: Seq<char>, line: Seq<char>)
    requires
        forall|i: int| 0 <= i < name.len() ==> #[trigger] name[i] != ':',
        forall|i: int| 0 <= i < line.len() ==> #[trigger] line[i] != ':',
    ensures
        line_field(name + seq![':'] + value) == Some((lowered(trimmed(name)), trimmed(value))),
        line_field(line) is None,
{
    let all = name + seq![':'] + value;
    first_parts_end_at_separators(name, value, ':');
    texts_without_separators_are_whole(line, ':');
    assert(all.skip(name.len() as int + 1) =~= value);
}

/// The last field of a name counts.
pub proof fn last_field_counts(headers: Seq<(Seq<char>, Seq<char>)>, at: int, name: Seq<char>)
    ensures
        0 <= at < headers.len() && headers[at].0 == name && (forall|i: int|
            at < i < headers.len() ==> (#[trigger] headers[i]).0 != name) ==> field_of(
            headers,
            name,
        ) == Some(headers[at].1),
        (forall|i: int| 0 <= i < headers.len() ==> (#[trigger] headers[i]).0 != name)
            ==> field_of(headers, name) is None,
    decreases headers.len(),
{
    if headers.len() > 0 {
        let front = headers.drop_last();
        last_field_counts(front, at, name);
        assert(headers[headers.len() - 1] == headers.last());
        if forall|i: int| 0 <= i < headers.len() ==> (#[trigger] headers[i]).0 != name {
            assert forall|i: int| 0 <= i < front.len() implies (#[trigger] front[i]).0 != name by {
                assert(front[i] == headers[i]);
            }
        }
        if 0 <= at < front.len() && (forall|i: int|
            at < i < headers.len() ==> (#[trigger] headers[i]).0 != name) {
            assert forall|i: int| at < i < front.len() implies (#[trigger] front[i]).0 != name by {
                assert(front[i] == headers[i]);
            }
        }
    }
}

/// The body of a request is as long as its `content-length` says. It is complete
/// when that much has come, and what comes after it is not part of it.
pub proof fn bodies_have_their_length(
    head: HeadView,
    pending: Seq<u8>,
    digits: Seq<char>,
    length: nat,
    max: nat,
)
    requires
        field_of(head.headers, "transfer-encoding"@) is None,
        field_of(head.headers, "content-length"@) == Some(digits),
        digits.len() > 0,
        digits[0] != '+',
        digits_number(digits, false) == Some(length),
        length <= usize::MAX,
    ensures
        length > max ==> body_progress(head, pending, max) == ProgressView::Bad(
            ErrorView::TooLarge,
        ),
        length <= max && pending.len() >= length ==> body_progress(head, pending, max)
            == ProgressView::Done(RequestView { head, body: pending.take(length as int) }),
        length <= max && pending.len() < length ==> body_progress(head, pending, max)
            == ProgressView::More(ReaderView::Sized { head, body: pending, length }),
        length <= max && pending.len() < length ==> forall|more: Seq<u8>|
            pending.len() + more.len() == length ==> #[trigger] progress(
                ReaderView::Sized { head, body: pending, length },
                more,
                max,
            ) == (false, ProgressView::Done(RequestView { head, body: pending + more })),
{
    if length <= max && pending.len() < length {
        assert forall|more: Seq<u8>| pending.len() + more.len() == length implies #[trigger] progress(
            ReaderView::Sized { head, body: pending, length },
            more,
            max,
        ) == (false, ProgressView::Done(RequestView { head, body: pending + more })) by {
            assert((pending + more).take(length as int) =~= pending + more);
        }
    }
}

/// A length that is no number is refused, and without a length the body is what
/// came with the headers.
pub proof fn lengths_are_numbers(head: HeadView, pending: Seq<u8>, max: nat)
    requires
        field_of(head.headers, "transfer-encoding"@) is None,
    ensures
        field_of(head.headers, "content-length"@) is None ==> body_progress(head, pending, max)
            == ProgressView::Done(RequestView { head, body: pending }),
        field_of(head.headers, "content-length"@) is Some && field_of(
            head.headers,
            "content-length"@,
        )->0.len() == 0 ==> body_progress(head, pending, max) is Bad,
        field_of(head.headers, "content-length"@) matches Some(value) ==> value.len() > 0
            && value[0] != '+' && digits_number(value, false) is None ==> body_progress(
            head,
            pending,
            max,
        ) is Bad,
{
}

/// A line of digits, alone or before a semicolon, is the length of a chunk.
proof fn lemma_size_line(digits: Seq<char>)
    requires
        digits.len() > 0,
        forall|i: int| 0 <= i < digits.len() ==> is_hex(#[trigger] digits[i]),
    ensures
        chunk_size(digits) == number_of(digits, true, usize::MAX as nat),
        is_ascii_chars(digits),
{
    assert forall|i: int| 0 <= i < digits.len() implies #[trigger] digits[i] != ';' by {
        assert(is_hex(digits[i]));
    }
    texts_without_separators_are_whole(digits, ';');
    assert(is_hex(digits[0]));
    assert(is_hex(digits.last()));
    trimming_keeps_the_core(Seq::empty(), digits, Seq::empty());
    assert(Seq::<char>::empty() + digits + Seq::<char>::empty() =~= digits);
    assert forall|i: int| 0 <= i < digits.len() implies (#[trigger] digits[i] as nat) < 128 by {
        assert(is_hex(digits[i]));
    }
}

/// A chunk as it is sent: its length in hexadecimal on a line of its own, and its
/// bytes with a line end after them.
pub open spec fn chunk_sent(digits: Seq<char>, data: Seq<u8>) -> Seq<u8> {
    encode_utf8(digits) + seq![13u8, 10u8] + data + seq![13u8, 10u8]
}

proof fn lemma_line_taken(digits: Seq<char>, rest: Seq<u8>)
    requires
        digits.len() < 0xFFF0,
        is_ascii_chars(digits),
        forall|i: int| 0 <= i < digits.len() ==> #[trigger] digits[i] != '\r',
    ensures
        take_line(encode_utf8(digits) + (seq![13u8, 10u8] + rest))
            == LineView::Line(digits, rest),
{
    let line = encode_utf8(digits);
    let all = line + (seq![13u8, 10u8] + rest);
    is_ascii_chars_encode_utf8(digits);
    encode_utf8_decode_utf8(digits);
    encode_utf8_valid_utf8(digits);
    lemma_no_byte(digits, 13);
    assert forall|i: int| 0 <= i < line.len() implies !(#[trigger] all[i] == 13u8 && all[i + 1]
        == 10u8) by {
        assert(all[i] == line[i]);
    }
    assert(all[line.len() as int] == 13u8 && all[line.len() as int + 1] == 10u8);
    lemma_no_pair_before(all, 13u8, 10u8, line.len() as int);
    assert(all.take(line.len() as int) =~= line);
    assert(all.skip(line.len() as int + 2) =~= rest);
}

/// A chunk is added to the body, whatever follows it, and the reader goes on with
/// what follows; one that would make the body longer than allowed is refused.
pub proof fn chunks_are_put_together(
    digits: Seq<char>,
    data: Seq<u8>,
    output: Seq<u8>,
    rest: Seq<u8>,
    max: nat,
)
    requires
        0 < digits.len() < 0xFFF0,
        forall|i: int| 0 <= i < digits.len() ==> is_hex(#[trigger] digits[i]),
        digits_number(digits, true) == Some(data.len()),
        0 < data.len() <= usize::MAX,
    ensures
        output.len() + data.len() <= max ==> chunk_run(
            ChunksView { mode: Mode::Size, incoming: chunk_sent(digits, data) + rest, output },
            max,
        ) == chunk_run(ChunksView { mode: Mode::Size, incoming: rest, output: output + data }, max),
        output.len() + data.len() > max ==> chunk_run(
            ChunksView { mode: Mode::Size, incoming: chunk_sent(digits, data) + rest, output },
            max,
        ) == Run::Bad(ErrorView::TooLarge),
{
    lemma_size_line(digits);
    assert(is_hex(digits[0]));
    assert forall|i: int| 0 <= i < digits.len() implies #[trigger] digits[i] != '\r' by {
        assert(is_hex(digits[i]));
    }
    let after = data + (seq![13u8, 10u8] + rest);
    let start = ChunksView { mode: Mode::Size, incoming: chunk_sent(digits, data) + rest, output };
    assert(start.incoming =~= encode_utf8(digits) + (seq![13u8, 10u8] + after));
    lemma_line_taken(digits, after);
    if output.len() + data.len() <= max {
        let held = ChunksView { mode: Mode::Data(data.len() as usize), incoming: after, output };
        assert(chunk_run(start, max) == chunk_run(held, max));
        assert(after.take(data.len() as int) =~= data);
        let tail = seq![13u8, 10u8] + rest;
        assert(after.skip(data.len() as int) =~= tail);
        let ended = ChunksView { mode: Mode::Crlf, incoming: tail, output: output + data };
        assert(chunk_run(held, max) == chunk_run(ended, max));
        let none = Seq::<char>::empty();
        assert(encode_utf8(none) =~= Seq::empty());
        assert(encode_utf8(none) + (seq![13u8, 10u8] + rest) =~= tail);
        lemma_line_taken(none, rest);
    }
}

/// A body in chunks ends with a chunk of length zero and an empty line.
pub proof fn last_chunk_ends_the_body(output: Seq<u8>, rest: Seq<u8>, max: nat)
    ensures
        chunk_run(
            ChunksView {
                mode: Mode::Size,
                incoming: seq![48u8, 13, 10, 13, 10] + rest,
                output,
            },
            max,
        ) == Run::Done(output),
{
    let digits = seq!['0'];
    let after = seq![13u8, 10u8] + rest;
    let all = seq![48u8, 13, 10, 13, 10] + rest;
    lemma_size_line(digits);
    is_ascii_chars_encode_utf8(digits);
    assert(encode_utf8(digits) =~= seq![48u8]);
    assert(digits.drop_last() =~= Seq::empty());
    assert(digits_number(digits, true) == Some(0nat)) by {
        numbers_are_read(Seq::empty(), '0');
        assert(Seq::<char>::empty().push('0') =~= digits);
    }
    assert(all =~= encode_utf8(digits) + (seq![13u8, 10u8] + after));
    lemma_line_taken(digits, after);
    let none = Seq::<char>::empty();
    assert(encode_utf8(none) =~= Seq::empty());
    assert(encode_utf8(none) + (seq![13u8, 10u8] + rest) =~= after);
    lemma_line_taken(none, rest);
    let trailer = ChunksView { mode: Mode::Trailer, incoming: after, output };
    assert(chunk_run(trailer, max) == Run::Done(output));
}

/// The status of an answer is the number in the second place of its first line,
/// and zero where there is no number.
pub proof fn statuses_are_numbers(response: RequestView)
    requires
        response.head.path.len() > 0,
        response.head.path[0] != '+',
    ensures
        digits_number(response.head.path, false) matches Some(status) ==> status <= u16::MAX
            ==> status_number(response) == status,
        digits_number(response.head.path, false) is None ==> status_number(response) == 0,
{
}

/// The text holds the word somewhere, in lower or upper case.
pub open spec fn mentions(text: Seq<char>, word: Seq<char>) -> bool {
    exists|i: int| 0 <= i <= text.len() && starts_spelled(#[trigger] text.skip(i), word)
}

pub proof fn lemma_mentions(text: Seq<char>, word: Seq<char>)
    requires
        forall|i: int| 0 <= i < word.len() ==> !('A' <= #[trigger] word[i] <= 'Z'),
    ensures
        holds(lowered(text), word) == mentions(text, word),
{
    if holds(lowered(text), word) {
        let i = choose|i: int|
            0 <= i && i + word.len() <= text.len() && #[trigger] lowered(text).skip(i).take(
                word.len() as int,
            ) == word;
        lemma_starts_spelled(text.skip(i), word);
        assert(lowered(text).skip(i) =~= lowered(text.skip(i)));
    }
    if mentions(text, word) {
        let i = choose|i: int| 0 <= i <= text.len() && starts_spelled(#[trigger] text.skip(i), word);
        lemma_starts_spelled(text.skip(i), word);
        assert(lowered(text).skip(i) =~= lowered(text.skip(i)));
        assert(lowered(text).skip(i).take(word.len() as int) == word);
    }
}

/// A sender that says that it waits for word to go on, in either case, is told to.
/// Headers that do not end within 64 kibibytes are refused.
pub proof fn senders_that_wait_are_told(
    buf: Seq<u8>,
    data: Seq<u8>,
    max: nat,
    end: int,
    head: HeadView,
)
    ensures
        ({
            let all = buf + data;
            let read = progress(ReaderView::Head { buf }, data, max);
            &&& head_end(all) is None && all.len() > 0x1_0000 ==> !read.0 && read.1 is Bad
            &&& head_end(all) is None && all.len() <= 0x1_0000 ==> read == (
                false,
                ProgressView::More(ReaderView::Head { buf: all }),
            )
            &&& head_end(all) == Some(end) && valid_utf8(all.take(end)) && read_head(
                decode_utf8(all.take(end)),
            ) == Ok::<HeadView, ErrorView>(head) ==> {
                &&& read.1 == body_progress(head, all.skip(end + 4), max)
                &&& read.0 <==> (field_of(head.headers, "expect"@) matches Some(value) && mentions(
                    value,
                    "100-continue"@,
                ))
            }
        }),
{
    reveal_strlit("100-continue");
    if field_of(head.headers, "expect"@) is Some {
        lemma_mentions(field_of(head.headers, "expect"@)->0, "100-continue"@);
    }
}

/// A line end with another one behind it.
pub open spec fn empty_line_at(bytes: Seq<u8>, at: int) -> bool {
    0 <= at && at + 4 <= bytes.len() && bytes[at] == 13 && bytes[at + 1] == 10 && bytes[at + 2]
        == 13 && bytes[at + 3] == 10
}

/// The headers end before the first empty line.
pub proof fn headers_end_at_an_empty_line(bytes: Seq<u8>)
    ensures
        head_end(bytes) matches Some(at) ==> empty_line_at(bytes, at) && forall|i: int|
            0 <= i < at ==> !(#[trigger] empty_line_at(bytes, i)),
        head_end(bytes) is None ==> forall|i: int| !(#[trigger] empty_line_at(bytes, i)),
    decreases bytes.len(),
{
    if bytes.len() >= 4 && !ends_head(bytes, 0) {
        let rest = bytes.skip(1);
        headers_end_at_an_empty_line(rest);
        assert forall|i: int| 1 <= i implies #[trigger] empty_line_at(bytes, i) == empty_line_at(
            rest,
            i - 1,
        ) by {}
        if head_end(bytes) is None {
            assert forall|i: int| !(#[trigger] empty_line_at(bytes, i)) by {
                if i >= 1 {
                    assert(!empty_line_at(rest, i - 1));
                }
            }
        } else {
            let at = head_end(bytes)->0;
            assert forall|i: int| 0 <= i < at implies !(#[trigger] empty_line_at(bytes, i)) by {
                if i >= 1 {
                    assert(!empty_line_at(rest, i - 1));
                }
            }
        }
    }
}

/// A body comes in chunks where the headers say so in either case.
pub proof fn chunked_bodies_are_said_to_be(head: HeadView, pending: Seq<u8>, max: nat)
    ensures
        ({
            let chunks = ChunksView { mode: Mode::Size, incoming: pending, output: Seq::empty() };
            (field_of(head.headers, "transfer-encoding"@) matches Some(value) && mentions(
                value,
                "chunked"@,
            )) ==> {
                &&& chunk_run(chunks, max) matches Run::Done(body) ==> body_progress(
                    head,
                    pending,
                    max,
                ) == ProgressView::Done(RequestView { head, body })
                &&& chunk_run(chunks, max) matches Run::More(next) ==> body_progress(
                    head,
                    pending,
                    max,
                ) == ProgressView::More(ReaderView::Chunked { head, chunks: next })
                &&& chunk_run(chunks, max) matches Run::Bad(error) ==> body_progress(
                    head,
                    pending,
                    max,
                ) == ProgressView::Bad(error)
            }
        }),
{
    reveal_strlit("chunked");
    if field_of(head.headers, "transfer-encoding"@) is Some {
        lemma_mentions(field_of(head.headers, "transfer-encoding"@)->0, "chunked"@);
    }
}

/// What follows a question mark in the path of a call is not part of the path.
pub proof fn queries_are_dropped(
    method: Seq<char>,
    path: Seq<char>,
    query: Seq<char>,
    rest: Seq<char>,
)
    requires
        is_word(method),
        is_word(path + seq!['?'] + query),
        forall|i: int| 0 <= i < path.len() ==> #[trigger] path[i] != '?',
        rest.len() == 0 || is_white_char(rest[0]),
    ensures
        ({
            let first = first_word(method + seq![' '] + (path + seq!['?'] + query) + rest);
            let second = first_word(
                after_word(method + seq![' '] + (path + seq!['?'] + query) + rest),
            );
            first == method && before_first(second, '?') == path
        }),
{
    lemma_first_words(method, path + seq!['?'] + query, rest);
    first_parts_end_at_separators(path, query, '?');
}

/// The method and the path of a call are the first two words of its first line,
/// and the fields are those of the lines behind it.
pub proof fn heads_are_read(text: Seq<char>)
    ensures
        read_head(text) matches Ok(head) ==> {
            &&& head.method == first_word(lines_of(text)[0]) && head.method.len() > 0
            &&& head.path == before_first(first_word(after_word(lines_of(text)[0])), '?')
            &&& head.headers == fields_of(lines_of(text).skip(1))
        },
        read_head(text) is Err <==> first_word(lines_of(text)[0]).len() == 0 || first_word(
            after_word(lines_of(text)[0]),
        ).len() == 0,
{
}

/// What is wrong with an ask is told to its sender.
pub proof fn broken_asks_are_told_why(
    receiver: ReceiverView,
    request: RequestView,
    response: Response,
    accepted: bool,
    error: ErrorView,
)
    requires
        call_step(receiver, request, response, accepted),
        request.head.method == "POST"@,
        request.head.path == "/Ask"@,
        tree_in(request.body) is Some,
        read_ask(tree_in(request.body)->0) == Err::<AskView, ErrorView>(error),
    ensures
        says(response, 400, "Bad Request"@, error_text(error)),
{
    lemma_call_paths();
}

/// An upload without a type is taken for an archive.
pub proof fn uploads_without_a_type_are_archives(
    receiver: ReceiverView,
    request: RequestView,
    response: Response,
    accepted: bool,
    entries: Seq<EntryView>,
)
    requires
        receiver.accepted,
        call_step(receiver, request, response, accepted),
        request.head.method == "POST"@,
        request.head.path == "/Upload"@,
        field_of(request.head.headers, "content-type"@) is None,
        upload_files(request.body, "application/x-cpio"@, receiver.max_file_bytes) == Some(
            Ok::<Seq<EntryView>, ErrorView>(entries),
        ),
        forall|i: int| 0 <= i < entries.len() ==> safe_name(#[trigger] entries[i].name) is Some,
    ensures
        response matches Response::Store { files, complete, reply } && complete && files@.len()
            == entries.len() && reply.status == 200,
{
    lemma_call_paths();
    nameable_files_are_stored(receiver, entries);
}

/// What follows a semicolon on the line of a chunk's length is passed over.
pub proof fn chunk_lengths_may_be_followed(digits: Seq<char>, more: Seq<char>)
    requires
        digits.len() > 0,
        forall|i: int| 0 <= i < digits.len() ==> is_hex(#[trigger] digits[i]),
        digits_number(digits, true) matches Some(size) && size <= usize::MAX,
    ensures
        chunk_size(digits) == digits_number(digits, true),
        chunk_size(digits + seq![';'] + more) == digits_number(digits, true),
{
    lemma_size_line(digits);
    assert(is_hex(digits[0]));
    assert(is_hex(digits.last()));
    assert forall|i: int| 0 <= i < digits.len() implies #[trigger] digits[i] != ';' by {
        assert(is_hex(digits[i]));
    }
    first_parts_end_at_separators(digits, more, ';');
    texts_without_separators_are_whole(digits, ';');
}

/// A chunk whose length is no number, and one that no line end follows, is refused.
pub proof fn broken_chunks_are_refused(line: Seq<char>, rest: Seq<u8>, output: Seq<u8>, max: nat)
    requires
        0 < line.len() < 0xFFF0,
        is_ascii_chars(line),
        forall|i: int| 0 <= i < line.len() ==> #[trigger] line[i] != '\r',
    ensures
        chunk_size(line) is None ==> chunk_run(
            ChunksView {
                mode: Mode::Size,
                incoming: encode_utf8(line) + (seq![13u8, 10u8] + rest),
                output,
            },
            max,
        ) is Bad,
        chunk_run(
            ChunksView {
                mode: Mode::Crlf,
                incoming: encode_utf8(line) + (seq![13u8, 10u8] + rest),
                output,
            },
            max,
        ) is Bad,
{
    lemma_line_taken(line, rest);
}

/// Requests and answers name the version of the protocol and end with an empty
/// line before the body.
pub proof fn heads_name_the_version(
    status: u16,
    reason: Seq<char>,
    path: Seq<char>,
    content_type: Seq<char>,
    length: nat,
)
    ensures
        begins_with(
            response_head(status, reason, content_type, length),
            "HTTP/1.1 "@ + decimal_text(status as nat) + " "@ + reason + "\r\n"@,
        ),
        begins_with(
            request_head(path, content_type, length),
            "POST "@ + path + " HTTP/1.1\r\nHost: crossdrop\r\n"@,
        ),
{
    reveal_strlit("\r\n");
    reveal_strlit("\r\nContent-Type: ");
    reveal_strlit(" HTTP/1.1\r\nHost: crossdrop\r\n");
    reveal_strlit(" HTTP/1.1\r\nHost: crossdrop\r\nContent-Type: ");
    let first = "HTTP/1.1 "@ + decimal_text(status as nat) + " "@ + reason + "\r\n"@;
    let second = "POST "@ + path + " HTTP/1.1\r\nHost: crossdrop\r\n"@;
    assert(response_head(status, reason, content_type, length).take(first.len() as int) =~= first);
    assert(request_head(path, content_type, length).take(second.len() as int) =~= second);
}

/// A number may have a plus sign before it, has at least one digit, and is no larger
/// than allowed.
pub proof fn numbers_have_a_limit(digits: Seq<char>, hex: bool, max: nat, value: nat)
    requires
        digits.len() > 0,
        digits[0] != '+',
    ensures
        digits_number(digits, hex) == Some(value) && value <= max ==> number_of(digits, hex, max)
            == Some(value) && number_of(seq!['+'] + digits, hex, max) == Some(value),
        digits_number(digits, hex) == Some(value) && value > max ==> number_of(digits, hex, max)
            is None,
        digits_number(digits, hex) is None ==> number_of(digits, hex, max) is None,
        number_of(Seq::empty(), hex, max) is None,
        number_of(seq!['+'], hex, max) is None,
{
    assert((seq!['+'] + digits).skip(1) =~= digits);
    assert(seq!['+'].skip(1) =~= Seq::empty());
}

} // verus!
