//! What one side writes, the other side reads.

use crate::airdrop::cpio::{
    archive_bytes, lemma_packed_name_stays, names_stay, pack_objection, packed_entries, packed_name,
    reads_back, upload_files, within, EntryView,
};
use crate::airdrop::http::{
    digit_in, digits_number, ends_head, field_of, fields_of, first_pair, head_end, line_field, lines_of,
    number_of, progress, read_head, request_head, response_head, status_number, HeadView,
    ProgressView, ReaderView, RequestView,
};
use crate::airdrop::protocol::{ask_is_understood, ask_tree, told};
use crate::airdrop::property::{binary_of, tree_in};
use crate::airdrop::server::{
    call_step, described, place_for, request_bytes, storable, success, upload_step, upload_type,
    ReceiverView, Response,
};
use crate::error::ErrorView;
use crate::sanitize::safe_name;
use crate::text::{
    after_word, before_first, decimal_text, digit_char, first_word, is_white_char, is_word,
    lemma_before_white, lemma_encode_concat, lemma_no_byte, lowered, seq_view, trimmed,
    trimmed_start,
};
use vstd::prelude::*;
use vstd::utf8::*;

verus! {

/// A text within one line.
pub open spec fn one_line(text: Seq<char>) -> bool {
    forall|i: int| 0 <= i < text.len() ==> #[trigger] text[i] != '\r' && text[i] != '\n'
}

/// Lines with line ends between them.
spec fn joined(lines: Seq<Seq<char>>) -> Seq<char>
    decreases lines.len(),
{
    if lines.len() == 0 {
        Seq::empty()
    } else if lines.len() == 1 {
        lines[0]
    } else {
        lines[0] + seq!['\r', '\n'] + joined(lines.skip(1))
    }
}

spec fn plain_lines(lines: Seq<Seq<char>>) -> bool {
    lines.len() > 0 && forall|i: int|
        0 <= i < lines.len() ==> (#[trigger] lines[i]).len() > 0 && one_line(lines[i])
}

proof fn lemma_first_line(line: Seq<char>, rest: Seq<char>)
    requires
        one_line(line),
    ensures
        first_pair(line + seq!['\r', '\n'] + rest, '\r', '\n') == Some(line.len() as int),
        first_pair(line, '\r', '\n') is None,
    decreases line.len(),
{
    let text = line + seq!['\r', '\n'] + rest;
    if line.len() > 0 {
        let tail = line.skip(1);
        assert forall|i: int| 0 <= i < tail.len() implies #[trigger] tail[i] != '\r' && tail[i]
            != '\n' by {
            assert(tail[i] == line[i + 1]);
        }
        lemma_first_line(tail, rest);
        assert(text.skip(1) =~= tail + seq!['\r', '\n'] + rest);
        assert(text[0] == line[0]);
    }
}

proof fn lemma_lines_of_joined(lines: Seq<Seq<char>>)
    requires
        plain_lines(lines),
    ensures
        lines_of(joined(lines)) == lines,
    decreases lines.len(),
{
    let text = joined(lines);
    if lines.len() == 1 {
        lemma_first_line(lines[0], Seq::empty());
        assert(lines =~= seq![lines[0]]);
    } else {
        let rest = lines.skip(1);
        assert forall|i: int| 0 <= i < rest.len() implies (#[trigger] rest[i]).len() > 0 && one_line(
            rest[i],
        ) by {
            assert(rest[i] == lines[i + 1]);
        }
        lemma_lines_of_joined(rest);
        lemma_first_line(lines[0], joined(rest));
        let at = lines[0].len() as int;
        assert(text.take(at) =~= lines[0]);
        assert(text.skip(at + 2) =~= joined(rest));
        assert(seq![lines[0]] + rest =~= lines);
    }
}

/// Bytes without a carriage return do not end the headers.
proof fn lemma_head_end_later(front: Seq<u8>, rest: Seq<u8>)
    requires
        forall|i: int| 0 <= i < front.len() ==> #[trigger] front[i] != 13,
        head_end(rest) is Some,
    ensures
        head_end(front + rest) == Some(front.len() + head_end(rest)->0),
    decreases front.len(),
{
    if front.len() == 0 {
        assert(front + rest =~= rest);
    } else {
        let tail = front.skip(1);
        assert forall|i: int| 0 <= i < tail.len() implies #[trigger] tail[i] != 13 by {
            assert(tail[i] == front[i + 1]);
        }
        lemma_head_end_later(tail, rest);
        assert((front + rest).skip(1) =~= tail + rest);
        assert((front + rest)[0] == front[0]);
    }
}

/// A line end before anything but another one does not end the headers.
proof fn lemma_line_end_passed(rest: Seq<u8>)
    requires
        head_end(rest) is Some,
        rest[0] != 13,
    ensures
        head_end(seq![13u8, 10u8] + rest) == Some(2 + head_end(rest)->0),
{
    let all = seq![13u8, 10u8] + rest;
    assert(all[2] == rest[0]);
    assert(all.skip(1) =~= seq![10u8] + rest);
    assert(all.skip(1).skip(1) =~= rest);
    assert(all.skip(1)[0] == 10);
    assert(!ends_head(all.skip(1), 0));
    assert(head_end(all.skip(1)) == Some(1 + head_end(rest)->0));
    assert(!ends_head(all, 0));
}

proof fn lemma_crlf()
    ensures
        encode_utf8(seq!['\r', '\n']) == seq![13u8, 10u8],
{
    let text = seq!['\r', '\n'];
    assert(text.drop_first() =~= seq!['\n']);
    assert(seq!['\n'].drop_first() =~= Seq::empty());
    assert(13u32 & 0x7F == 13) by (bit_vector);
    assert(10u32 & 0x7F == 10) by (bit_vector);
    assert(encode_utf8(Seq::<char>::empty()) =~= Seq::empty());
    assert(encode_utf8(seq!['\n']) =~= seq![10u8]);
    assert(encode_utf8(text) =~= seq![13u8, 10u8]);
}

/// The headers end after their last line.
proof fn lemma_head_ends(lines: Seq<Seq<char>>, body: Seq<u8>)
    requires
        plain_lines(lines),
    ensures
        head_end(encode_utf8(joined(lines)) + (seq![13u8, 10u8, 13u8, 10u8] + body)) == Some(
            encode_utf8(joined(lines)).len() as int,
        ),
    decreases lines.len(),
{
    let end = seq![13u8, 10u8, 13u8, 10u8] + body;
    let first = encode_utf8(lines[0]);
    assert(one_line(lines[0]));
    lemma_no_byte(lines[0], 13);
    if lines.len() == 1 {
        assert(ends_head(end, 0));
        lemma_head_end_later(first, end);
    } else {
        let rest = lines.skip(1);
        assert forall|i: int| 0 <= i < rest.len() implies (#[trigger] rest[i]).len() > 0 && one_line(
            rest[i],
        ) by {
            assert(rest[i] == lines[i + 1]);
        }
        lemma_head_ends(rest, body);
        lemma_crlf();
        let crlf = seq!['\r', '\n'];
        lemma_encode_concat(lines[0] + crlf, joined(rest));
        lemma_encode_concat(lines[0], crlf);
        let tail = encode_utf8(joined(rest)) + end;
        lemma_first_byte(rest, end);
        lemma_line_end_passed(tail);
        lemma_head_end_later(first, seq![13u8, 10u8] + tail);
        assert(encode_utf8(joined(lines)) + end =~= first + (seq![13u8, 10u8] + tail));
    }
}

proof fn lemma_first_byte(lines: Seq<Seq<char>>, end: Seq<u8>)
    requires
        plain_lines(lines),
    ensures
        (encode_utf8(joined(lines)) + end)[0] != 13,
{
    let line = lines[0];
    assert(one_line(line));
    lemma_no_byte(line, 13);
    assert(encode_scalar(line[0] as u32).len() > 0);
    assert(encode_utf8(line).len() > 0);
    if lines.len() > 1 {
        lemma_encode_concat(line, seq!['\r', '\n'] + joined(lines.skip(1)));
        assert(line + seq!['\r', '\n'] + joined(lines.skip(1)) =~= line + (seq!['\r', '\n'] + joined(
            lines.skip(1),
        )));
    }
    assert((encode_utf8(joined(lines)) + end)[0] == encode_utf8(line)[0]);
}

proof fn lemma_trimmed_word(text: Seq<char>)
    requires
        text.len() > 0,
        !is_white_char(text[0]),
        !is_white_char(text.last()),
    ensures
        trimmed(text) == text,
{
}

proof fn lemma_before_colon(name: Seq<char>, rest: Seq<char>)
    requires
        forall|i: int| 0 <= i < name.len() ==> #[trigger] name[i] != ':',
    ensures
        before_first(name + seq![':'] + rest, ':') == name,
    decreases name.len(),
{
    let text = name + seq![':'] + rest;
    if name.len() == 0 {
        assert(text[0] == ':');
        assert(name =~= Seq::empty());
    } else {
        let tail = name.skip(1);
        assert forall|i: int| 0 <= i < tail.len() implies #[trigger] tail[i] != ':' by {
            assert(tail[i] == name[i + 1]);
        }
        lemma_before_colon(tail, rest);
        assert(text.skip(1) =~= tail + seq![':'] + rest);
        assert(text[0] == name[0]);
        assert(seq![name[0]] + tail =~= name);
    }
}

/// The name and the value of a line that was written as a field.
proof fn lemma_field_read(name: Seq<char>, value: Seq<char>)
    requires
        is_word(name),
        forall|i: int| 0 <= i < name.len() ==> #[trigger] name[i] != ':',
        trimmed(value) == value,
    ensures
        line_field(name + seq![':', ' '] + value) == Some((lowered(name), value)),
{
    let line = name + seq![':', ' '] + value;
    let rest = seq![' '] + value;
    assert(line =~= name + seq![':'] + rest);
    lemma_before_colon(name, rest);
    assert(line.skip(name.len() as int + 1) =~= rest);
    lemma_trimmed_word(name);
    assert(rest[0] == ' ');
    assert(rest.skip(1) =~= value);
}

/// A number in decimal is read back.
pub proof fn decimal_is_read(value: nat)
    ensures
        digits_number(decimal_text(value), false) == Some(value),
        decimal_text(value).len() > 0,
        forall|i: int|
            0 <= i < decimal_text(value).len() ==> '0' <= #[trigger] decimal_text(value)[i] <= '9',
    decreases value,
{
    let text = decimal_text(value);
    if value < 10 {
        assert(text.drop_last() =~= Seq::empty());
        assert(digits_number(Seq::empty(), false) == Some(0nat));
        assert(text.last() == digit_char(value as int));
        assert(digit_in(text.last(), false) == Some(value));
    } else {
        decimal_is_read(value / 10);
        assert(text.drop_last() =~= decimal_text(value / 10));
        assert(text.last() == digit_char((value % 10) as int));
        assert(digit_in(text.last(), false) == Some(value % 10));
    }
}

/// The fields that both sides send.
spec fn common_lines(content_type: Seq<char>, length: nat) -> Seq<Seq<char>> {
    seq![
        "Content-Type"@ + seq![':', ' '] + content_type,
        "Content-Length"@ + seq![':', ' '] + decimal_text(length),
        "Connection"@ + seq![':', ' '] + "keep-alive"@,
    ]
}

/// The fields that both sides read.
pub open spec fn common_fields(content_type: Seq<char>, length: nat) -> Seq<
    (Seq<char>, Seq<char>),
> {
    seq![
        ("content-type"@, content_type),
        ("content-length"@, decimal_text(length)),
        ("connection"@, "keep-alive"@),
    ]
}

proof fn lemma_names()
    ensures
        lowered("Content-Type"@) == "content-type"@,
        lowered("Content-Length"@) == "content-length"@,
        lowered("Connection"@) == "connection"@,
        lowered("Host"@) == "host"@,
        is_word("Content-Type"@) && is_word("Content-Length"@) && is_word("Connection"@) && is_word(
            "Host"@,
        ),
        forall|i: int| 0 <= i < "Content-Type"@.len() ==> #[trigger] "Content-Type"@[i] != ':',
        forall|i: int| 0 <= i < "Content-Length"@.len() ==> #[trigger] "Content-Length"@[i] != ':',
        forall|i: int| 0 <= i < "Connection"@.len() ==> #[trigger] "Connection"@[i] != ':',
        forall|i: int| 0 <= i < "Host"@.len() ==> #[trigger] "Host"@[i] != ':',
        one_line("Content-Type"@) && one_line("Content-Length"@) && one_line("Connection"@)
            && one_line("Host"@),
        trimmed("keep-alive"@) == "keep-alive"@ && one_line("keep-alive"@),
        trimmed("crossdrop"@) == "crossdrop"@ && one_line("crossdrop"@),
{
    reveal_strlit("Content-Type");
    reveal_strlit("Content-Length");
    reveal_strlit("Connection");
    reveal_strlit("Host");
    reveal_strlit("content-type");
    reveal_strlit("content-length");
    reveal_strlit("connection");
    reveal_strlit("host");
    reveal_strlit("keep-alive");
    reveal_strlit("crossdrop");
    assert(lowered("Content-Type"@) =~= "content-type"@);
    assert(lowered("Content-Length"@) =~= "content-length"@);
    assert(lowered("Connection"@) =~= "connection"@);
    assert(lowered("Host"@) =~= "host"@);
    lemma_trimmed_word("keep-alive"@);
    lemma_trimmed_word("crossdrop"@);
}

proof fn lemma_common_fields(front: Seq<Seq<char>>, content_type: Seq<char>, length: nat)
    requires
        trimmed(content_type) == content_type,
    ensures
        fields_of(front + common_lines(content_type, length)) == fields_of(front) + common_fields(
            content_type,
            length,
        ),
{
    lemma_names();
    decimal_is_read(length);
    lemma_trimmed_word(decimal_text(length));
    lemma_field_read("Content-Type"@, content_type);
    lemma_field_read("Content-Length"@, decimal_text(length));
    lemma_field_read("Connection"@, "keep-alive"@);
    let common = common_lines(content_type, length);
    let all = front + common;
    assert(all.drop_last() =~= front + seq![common[0], common[1]]);
    assert(all.drop_last().drop_last() =~= front + seq![common[0]]);
    assert(all.drop_last().drop_last().drop_last() =~= front);
    reveal_with_fuel(fields_of, 4);
    assert(fields_of(all) =~= fields_of(front) + common_fields(content_type, length));
}

/// The fields say how long the body is, and nothing that changes how it is read.
proof fn lemma_plain_body(front: Seq<(Seq<char>, Seq<char>)>, content_type: Seq<char>, length: nat)
    requires
        forall|i: int| 0 <= i < front.len() ==> (#[trigger] front[i]).0 == "host"@,
        front.len() <= 1,
    ensures
        ({
            let headers = front + common_fields(content_type, length);
            &&& field_of(headers, "expect"@) is None
            &&& field_of(headers, "transfer-encoding"@) is None
            &&& field_of(headers, "content-length"@) == Some(decimal_text(length))
        }),
{
    reveal_strlit("expect");
    reveal_strlit("transfer-encoding");
    reveal_strlit("content-length");
    reveal_strlit("content-type");
    reveal_strlit("connection");
    reveal_strlit("host");
    let common = common_fields(content_type, length);
    let headers = front + common;
    assert("expect"@.len() == 6 && "transfer-encoding"@.len() == 17 && "content-length"@.len() == 14);
    assert("content-type"@.len() == 12 && "connection"@.len() == 10 && "host"@.len() == 4);
    assert(headers.drop_last() =~= front + seq![common[0], common[1]]);
    assert(headers.drop_last().drop_last() =~= front + seq![common[0]]);
    assert(headers.drop_last().drop_last().drop_last() =~= front);
    if front.len() > 0 {
        assert(front.drop_last() =~= Seq::empty());
    }
    reveal_with_fuel(field_of, 6);
}

/// The bytes of lines, an empty line and a body are read as what the lines say,
/// and the body.
proof fn lemma_message_read(lines: Seq<Seq<char>>, head: HeadView, body: Seq<u8>, max: nat)
    requires
        plain_lines(lines),
        read_head(joined(lines)) == Ok::<HeadView, ErrorView>(head),
        field_of(head.headers, "expect"@) is None,
        field_of(head.headers, "transfer-encoding"@) is None,
        field_of(head.headers, "content-length"@) == Some(decimal_text(body.len())),
        body.len() <= max <= usize::MAX,
    ensures
        progress(
            ReaderView::Head { buf: Seq::empty() },
            encode_utf8(joined(lines) + seq!['\r', '\n', '\r', '\n']) + body,
            max,
        ) == (false, ProgressView::Done(RequestView { head, body })),
{
    let text = joined(lines);
    let end = seq!['\r', '\n', '\r', '\n'];
    let crlf = seq!['\r', '\n'];
    let bytes = encode_utf8(text + end) + body;
    lemma_encode_concat(text, end);
    lemma_encode_concat(crlf, crlf);
    lemma_crlf();
    assert(end =~= crlf + crlf);
    assert(encode_utf8(end) =~= seq![13u8, 10u8, 13u8, 10u8]);
    lemma_head_ends(lines, body);
    assert(bytes =~= encode_utf8(text) + (seq![13u8, 10u8, 13u8, 10u8] + body));
    let at = encode_utf8(text).len() as int;
    assert(bytes.take(at) =~= encode_utf8(text));
    assert(bytes.skip(at + 4) =~= body);
    encode_utf8_valid_utf8(text);
    encode_utf8_decode_utf8(text);
    decimal_is_read(body.len());
    assert(number_of(decimal_text(body.len()), false, usize::MAX as nat) == Some(body.len()));
    assert(body.take(body.len() as int) =~= body);
    assert(Seq::<u8>::empty() + bytes =~= bytes);
}

proof fn lemma_common_plain(content_type: Seq<char>, length: nat)
    requires
        one_line(content_type),
    ensures
        plain_lines(common_lines(content_type, length)),
{
    lemma_names();
    decimal_is_read(length);
    let common = common_lines(content_type, length);
    assert forall|i: int| 0 <= i < common.len() implies (#[trigger] common[i]).len() > 0 && one_line(
        common[i],
    ) by {
        if i == 0 {
            lemma_one_line_field("Content-Type"@, content_type);
        } else if i == 1 {
            lemma_one_line_field("Content-Length"@, decimal_text(length));
        } else {
            lemma_one_line_field("Connection"@, "keep-alive"@);
        }
    }
}

proof fn lemma_one_line_field(name: Seq<char>, value: Seq<char>)
    requires
        one_line(name),
        one_line(value),
    ensures
        (name + seq![':', ' '] + value).len() > 0,
        one_line(name + seq![':', ' '] + value),
{
    let line = name + seq![':', ' '] + value;
    assert forall|i: int| 0 <= i < line.len() implies #[trigger] line[i] != '\r' && line[i]
        != '\n' by {
        if i < name.len() {
            assert(line[i] == name[i]);
        } else if i >= name.len() + 2 {
            assert(line[i] == value[i - name.len() - 2]);
        }
    }
}

proof fn lemma_joined_common(content_type: Seq<char>, length: nat)
    ensures
        joined(common_lines(content_type, length)) == "Content-Type: "@ + content_type
            + "\r\nContent-Length: "@ + decimal_text(length) + "\r\nConnection: keep-alive"@,
{
    reveal_strlit("Content-Type");
    reveal_strlit("Content-Type: ");
    reveal_strlit("Content-Length");
    reveal_strlit("\r\nContent-Length: ");
    reveal_strlit("Connection");
    reveal_strlit("keep-alive");
    reveal_strlit("\r\nConnection: keep-alive");
    let common = common_lines(content_type, length);
    assert(common.skip(1) =~= seq![common[1], common[2]]);
    assert(common.skip(1).skip(1) =~= seq![common[2]]);
    reveal_with_fuel(joined, 4);
    assert("Content-Type: "@ =~= "Content-Type"@ + seq![':', ' ']);
    assert("\r\nContent-Length: "@ =~= seq!['\r', '\n'] + ("Content-Length"@ + seq![':', ' ']));
    assert("\r\nConnection: keep-alive"@ =~= seq!['\r', '\n'] + ("Connection"@ + seq![':', ' ']
        + "keep-alive"@));
    assert(joined(common) =~= "Content-Type: "@ + content_type + "\r\nContent-Length: "@
        + decimal_text(length) + "\r\nConnection: keep-alive"@);
}

/// The fields that a receiver reads of a request.
pub open spec fn request_fields(content_type: Seq<char>, length: nat) -> Seq<
    (Seq<char>, Seq<char>),
> {
    seq![("host"@, "crossdrop"@)] + common_fields(content_type, length)
}

pub proof fn lemma_first_words(first: Seq<char>, second: Seq<char>, rest: Seq<char>)
    requires
        is_word(first),
        is_word(second),
        rest.len() == 0 || is_white_char(rest[0]),
    ensures
        first_word(first + seq![' '] + second + rest) == first,
        first_word(after_word(first + seq![' '] + second + rest)) == second,
{
    let line = first + seq![' '] + second + rest;
    let tail = seq![' '] + (second + rest);
    assert(line =~= first + tail);
    assert(line[0] == first[0]);
    lemma_before_white(first, tail);
    assert(trimmed_start(line) == line);
    assert(after_word(line) =~= tail);
    assert(tail.skip(1) =~= second + rest);
    assert((second + rest)[0] == second[0]);
    assert(trimmed_start(tail) == trimmed_start(second + rest));
    lemma_before_white(second, rest);
}

proof fn lemma_without(text: Seq<char>, c: char)
    requires
        forall|i: int| 0 <= i < text.len() ==> #[trigger] text[i] != c,
    ensures
        before_first(text, c) == text,
    decreases text.len(),
{
    if text.len() > 0 {
        let tail = text.skip(1);
        assert forall|i: int| 0 <= i < tail.len() implies #[trigger] tail[i] != c by {
            assert(tail[i] == text[i + 1]);
        }
        lemma_without(tail, c);
        assert(seq![text[0]] + tail =~= text);
    } else {
        assert(text =~= Seq::empty());
    }
}

proof fn lemma_lines_in_front(front: Seq<Seq<char>>, lines: Seq<Seq<char>>)
    requires
        lines.len() > 0,
    ensures
        front.len() == 1 ==> joined(front + lines) == front[0] + seq!['\r', '\n'] + joined(lines),
        front.len() == 2 ==> joined(front + lines) == front[0] + seq!['\r', '\n'] + (front[1]
            + seq!['\r', '\n'] + joined(lines)),
{
    let all = front + lines;
    if front.len() == 1 {
        assert(all.skip(1) =~= lines);
    } else if front.len() == 2 {
        assert(all.skip(1) =~= seq![front[1]] + lines);
        assert(all.skip(1).skip(1) =~= lines);
        reveal_with_fuel(joined, 3);
    }
}

/// A request that was written is read as its method, its path, its fields and
/// its body: for a path that is one word without a query, and a media type in
/// one line without white space around it.
pub proof fn request_is_read(path: Seq<char>, content_type: Seq<char>, body: Seq<u8>, max: nat)
    requires
        is_word(path),
        forall|i: int| 0 <= i < path.len() ==> #[trigger] path[i] != '?',
        one_line(content_type),
        trimmed(content_type) == content_type,
        body.len() <= max <= usize::MAX,
    ensures
        progress(
            ReaderView::Head { buf: Seq::empty() },
            encode_utf8(request_head(path, content_type, body.len())) + body,
            max,
        ) == (
            false,
            ProgressView::Done(
                RequestView {
                    head: HeadView {
                        method: "POST"@,
                        path,
                        headers: request_fields(content_type, body.len()),
                    },
                    body,
                },
            ),
        ),
{
    let length = body.len();
    let common = common_lines(content_type, length);
    let first = "POST"@ + seq![' '] + path + " HTTP/1.1"@;
    let host = "Host"@ + seq![':', ' '] + "crossdrop"@;
    let front = seq![first, host];
    let lines = front + common;
    lemma_names();
    lemma_common_plain(content_type, length);
    reveal_strlit("POST");
    reveal_strlit("POST ");
    reveal_strlit(" HTTP/1.1");
    reveal_strlit("Host");
    reveal_strlit("crossdrop");
    reveal_strlit("Content-Type: ");
    reveal_strlit(" HTTP/1.1\r\nHost: crossdrop\r\nContent-Type: ");
    reveal_strlit("\r\nConnection: keep-alive");
    reveal_strlit("\r\nConnection: keep-alive\r\n\r\n");
    assert(is_word("POST"@));
    assert forall|i: int| 0 <= i < lines.len() implies (#[trigger] lines[i]).len() > 0 && one_line(
        lines[i],
    ) by {
        if i == 0 {
            assert forall|j: int| 0 <= j < first.len() implies #[trigger] first[j] != '\r' && first[j]
                != '\n' by {
                if 5 <= j < 5 + path.len() {
                    assert(first[j] == path[j - 5]);
                    assert(!is_white_char(path[j - 5]));
                }
            }
        } else if i == 1 {
            lemma_one_line_field("Host"@, "crossdrop"@);
        } else {
            assert(lines[i] == common[i - 2]);
        }
    }
    lemma_lines_of_joined(lines);
    lemma_first_words("POST"@, path, " HTTP/1.1"@);
    lemma_without(path, '?');
    lemma_field_read("Host"@, "crossdrop"@);
    lemma_common_fields(seq![host], content_type, length);
    assert(lines.skip(1) =~= seq![host] + common);
    assert(seq![host].drop_last() =~= Seq::empty());
    reveal_with_fuel(fields_of, 2);
    assert(fields_of(seq![host]) =~= seq![("host"@, "crossdrop"@)]);
    lemma_plain_body(seq![("host"@, "crossdrop"@)], content_type, length);
    let head = HeadView {
        method: "POST"@,
        path,
        headers: request_fields(content_type, length),
    };
    lemma_message_read(lines, head, body, max);
    lemma_joined_common(content_type, length);
    lemma_lines_in_front(front, common);
    assert("POST "@ =~= "POST"@ + seq![' ']);
    assert(" HTTP/1.1\r\nHost: crossdrop\r\nContent-Type: "@ =~= " HTTP/1.1"@ + seq!['\r', '\n']
        + host + seq!['\r', '\n'] + "Content-Type: "@);
    assert("\r\nConnection: keep-alive\r\n\r\n"@ =~= "\r\nConnection: keep-alive"@
        + seq!['\r', '\n', '\r', '\n']);
    assert(request_head(path, content_type, length) =~= joined(lines)
        + seq!['\r', '\n', '\r', '\n']);
}

/// A response that was written is read with its status and its body: for a
/// reason in one line, and a media type in one line without white space around
/// it.
pub proof fn response_is_read(
    status: u16,
    reason: Seq<char>,
    content_type: Seq<char>,
    body: Seq<u8>,
    max: nat,
)
    requires
        one_line(reason),
        one_line(content_type),
        trimmed(content_type) == content_type,
        body.len() <= max <= usize::MAX,
    ensures
        ({
            let read = progress(
                ReaderView::Head { buf: Seq::empty() },
                encode_utf8(response_head(status, reason, content_type, body.len())) + body,
                max,
            );
            &&& !read.0
            &&& read.1 matches ProgressView::Done(response)
            &&& status_number(response) == status
            &&& response.head.headers == common_fields(content_type, body.len())
            &&& response.body == body
        }),
{
    let length = body.len();
    let common = common_lines(content_type, length);
    let number = decimal_text(status as nat);
    let first = "HTTP/1.1"@ + seq![' '] + number + (seq![' '] + reason);
    let front = seq![first];
    let lines = front + common;
    lemma_names();
    decimal_is_read(status as nat);
    lemma_common_plain(content_type, length);
    reveal_strlit("HTTP/1.1");
    reveal_strlit("HTTP/1.1 ");
    reveal_strlit(" ");
    reveal_strlit("Content-Type: ");
    reveal_strlit("\r\nContent-Type: ");
    reveal_strlit("\r\nConnection: keep-alive");
    reveal_strlit("\r\nConnection: keep-alive\r\n\r\n");
    assert(is_word("HTTP/1.1"@));
    assert(is_word(number)) by {
        assert forall|i: int| 0 <= i < number.len() implies !is_white_char(#[trigger] number[i]) by {
            assert('0' <= number[i] <= '9');
        }
    }
    assert forall|i: int| 0 <= i < lines.len() implies (#[trigger] lines[i]).len() > 0 && one_line(
        lines[i],
    ) by {
        if i == 0 {
            assert forall|j: int| 0 <= j < first.len() implies #[trigger] first[j] != '\r' && first[j]
                != '\n' by {
                let at = 9 + number.len();
                if 9 <= j < at {
                    assert(first[j] == number[j - 9]);
                } else if j > at {
                    assert(first[j] == reason[j - at - 1]);
                }
            }
        } else {
            assert(lines[i] == common[i - 1]);
        }
    }
    lemma_lines_of_joined(lines);
    lemma_first_words("HTTP/1.1"@, number, seq![' '] + reason);
    assert forall|i: int| 0 <= i < number.len() implies #[trigger] number[i] != '?' by {
        assert('0' <= number[i] <= '9');
    }
    lemma_without(number, '?');
    let none = Seq::<Seq<char>>::empty();
    lemma_common_fields(none, content_type, length);
    assert(lines.skip(1) =~= none + common);
    let nothing = Seq::<(Seq<char>, Seq<char>)>::empty();
    assert(fields_of(none) == nothing);
    assert(nothing + common_fields(content_type, length) =~= common_fields(content_type, length));
    lemma_plain_body(nothing, content_type, length);
    let head = HeadView {
        method: "HTTP/1.1"@,
        path: number,
        headers: common_fields(content_type, length),
    };
    lemma_message_read(lines, head, body, max);
    assert(number_of(number, false, u16::MAX as nat) == Some(status as nat));
    lemma_joined_common(content_type, length);
    lemma_lines_in_front(front, common);
    assert("HTTP/1.1 "@ =~= "HTTP/1.1"@ + seq![' ']);
    assert(" "@ =~= seq![' ']);
    assert("\r\nContent-Type: "@ =~= seq!['\r', '\n'] + "Content-Type: "@);
    assert("\r\nConnection: keep-alive\r\n\r\n"@ =~= "\r\nConnection: keep-alive"@
        + seq!['\r', '\n', '\r', '\n']);
    assert(response_head(status, reason, content_type, length) =~= joined(lines)
        + seq!['\r', '\n', '\r', '\n']);
}

/// The request that a receiver reads of a call.
pub open spec fn call_of(path: Seq<char>, content_type: Seq<char>, body: Seq<u8>) -> RequestView {
    RequestView {
        head: HeadView {
            method: "POST"@,
            path,
            headers: request_fields(content_type, body.len()),
        },
        body,
    }
}

proof fn lemma_paths()
    ensures
        "/Discover"@.len() == 9,
        "/Ask"@.len() == 4,
        "/Upload"@.len() == 7,
{
    reveal_strlit("/Discover");
    reveal_strlit("/Ask");
    reveal_strlit("/Upload");
}

/// What [`ask_call`](crate::airdrop::server::ask_call) asks for is put to the
/// person: the sender's name and the names of the files, in their order.
pub proof fn ask_is_put_to_the_person(
    receiver: ReceiverView,
    sender_name: Seq<char>,
    files: Seq<EntryView>,
    response: Response,
    accepted: bool,
)
    requires
        files.len() > 0,
        forall|i: int| 0 <= i < files.len() ==> safe_name((#[trigger] files[i]).name) is Some,
        ({
            let tree = ask_tree(sender_name, "crossdrop"@, described(files));
            &&& tree_in(binary_of(tree)) == Some(tree)
            &&& call_step(
                receiver,
                call_of("/Ask"@, "application/octet-stream"@, binary_of(tree)),
                response,
                accepted,
            )
        }),
    ensures
        accepted == receiver.accepted,
        response matches Response::Ask(offer) && {
            &&& offer@.peer == sender_name
            &&& offer@.files.len() == files.len()
            &&& forall|i: int|
                0 <= i < files.len() ==> (#[trigger] offer@.files[i]).name == files[i].name
        },
{
    lemma_paths();
    ask_is_understood(sender_name, "crossdrop"@, described(files));
    let ask = told(sender_name, "crossdrop"@, described(files));
    assert forall|i: int| 0 <= i < ask.files.len() implies safe_name(#[trigger] ask.files[i])
        is Some by {
        assert(ask.files[i] == files[i].name);
    }
}

proof fn lemma_all_stored(receiver: ReceiverView, entries: Seq<EntryView>)
    requires
        forall|i: int| 0 <= i < entries.len() ==> safe_name((#[trigger] entries[i]).name) is Some,
    ensures
        storable(receiver, entries) == Seq::new(
            entries.len(),
            |i: int| place_for(receiver, entries[i]),
        ),
    decreases entries.len(),
{
    if entries.len() > 0 {
        let rest = entries.skip(1);
        assert forall|i: int| 0 <= i < rest.len() implies safe_name((#[trigger] rest[i]).name)
            is Some by {
            assert(rest[i] == entries[i + 1]);
        }
        lemma_all_stored(receiver, rest);
    }
    assert(storable(receiver, entries) =~= Seq::new(
        entries.len(),
        |i: int| place_for(receiver, entries[i]),
    ));
}

/// What [`upload_call`](crate::airdrop::server::upload_call) sends to a receiver
/// that has accepted is stored: each file with its bytes, under the name that it
/// is packed under. A file whose packed name ends in white space other than a
/// space loses that white space, so such names are left out.
pub proof fn accepted_upload_is_stored(
    receiver: ReceiverView,
    files: Seq<EntryView>,
    archive: Seq<u8>,
    response: Response,
    accepted: bool,
)
    requires
        receiver.accepted,
        pack_objection(files) is None,
        names_stay(files),
        reads_back(archive, files),
        within(archive_bytes(files).len(), receiver.max_file_bytes),
        call_step(
            receiver,
            call_of("/Upload"@, "application/x-cpio"@, archive),
            response,
            accepted,
        ),
    ensures
        response matches Response::Store { files: stored, complete, reply } && {
            &&& complete
            &&& reply@ == success(Seq::empty())
            &&& seq_view(stored@) == Seq::new(
                files.len(),
                |i: int| place_for(receiver, packed_entries(files)[i]),
            )
        },
{
    lemma_paths();
    let entries = packed_entries(files);
    assert forall|i: int| 0 <= i < entries.len() implies safe_name((#[trigger] entries[i]).name)
        is Some by {
        lemma_packable(files, i);
        lemma_packed_name_stays(files[i].name);
    }
    lemma_all_stored(receiver, entries);
    let request = call_of("/Upload"@, "application/x-cpio"@, archive);
    assert(request.head.path.len() == 7);
    assert(upload_step(receiver, request, response, accepted));
    assert(upload_files(archive, upload_type(request.head.headers), receiver.max_file_bytes) == Some(
        Ok::<Seq<EntryView>, ErrorView>(entries),
    ));
    assert(Seq::new(entries.len(), |i: int| place_for(receiver, entries[i])) =~= Seq::new(
        files.len(),
        |i: int| place_for(receiver, packed_entries(files)[i]),
    ));
    let stored = response->Store_files;
    assert(response is Store);
    assert(seq_view(stored@) == storable(receiver, entries));
    assert(stored@.len() == seq_view(stored@).len());
    assert(entries.len() == files.len());
    assert(response->Store_complete);
}

proof fn lemma_packable(files: Seq<EntryView>, i: int)
    requires
        pack_objection(files) is None,
        0 <= i < files.len(),
    ensures
        packed_name(files[i].name) is Some,
    decreases files.len(),
{
    if i > 0 {
        lemma_packable(files.skip(1), i - 1);
    }
}

/// A call is read as it was made: the path, the type of the body, and the body.
pub proof fn calls_are_read(path: Seq<char>, content_type: Seq<char>, body: Seq<u8>, max: nat)
    requires
        is_word(path),
        forall|i: int| 0 <= i < path.len() ==> #[trigger] path[i] != '?',
        one_line(content_type),
        trimmed(content_type) == content_type,
        body.len() <= max <= usize::MAX,
    ensures
        ({
            let read = progress(
                ReaderView::Head { buf: Seq::empty() },
                request_bytes(path, content_type, body),
                max,
            );
            &&& read.1 matches ProgressView::Done(request)
            &&& request.head.method == "POST"@
            &&& request.head.path == path
            &&& request.body == body
        }),
{
    request_is_read(path, content_type, body, max);
}

} // verus!
