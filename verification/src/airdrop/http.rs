//! Requests and responses in HTTP/1.1, as far as AirDrop uses it.
//!
//! Apple sends `Expect: 100-continue` and, for the files themselves, chunked
//! bodies. Headers and bodies are capped.

use crate::encoding;
use crate::error::{Error, ErrorView, Result};
use crate::text::{
    after_word, before, before_first, chars_of, decimal, decimal_text, first_word, from_utf8,
    holds, lower, lowered, same_text, seq_view, slice_of, str_contains, string_of, take_word, trim,
    trimmed,
};
use vstd::prelude::*;
use vstd::slice::{slice_subrange, slice_to_vec};
use vstd::utf8::*;

verus! {

/// How long headers, and a line between chunks, may be.
pub const MAX_HEADERS: usize = 64 * 1024;

/// How much is read at once while headers come.
pub const HEAD_READ: usize = 2048;

/// Where the first `a` that is followed by `b` stands.
pub open spec fn first_pair<T>(list: Seq<T>, a: T, b: T) -> Option<int>
    decreases list.len(),
{
    if list.len() < 2 {
        None
    } else if list[0] == a && list[1] == b {
        Some(0)
    } else {
        match first_pair(list.skip(1), a, b) {
            Some(at) => Some(at + 1),
            None => None,
        }
    }
}

proof fn lemma_first_pair<T>(list: Seq<T>, a: T, b: T)
    ensures
        first_pair(list, a, b) matches Some(at) ==> 0 <= at && at + 2 <= list.len() && list[at] == a
            && list[at + 1] == b,
    decreases list.len(),
{
    if list.len() >= 2 {
        lemma_first_pair(list.skip(1), a, b);
    }
}

pub proof fn lemma_no_pair_before<T>(list: Seq<T>, a: T, b: T, at: int)
    requires
        0 <= at,
        at + 2 <= list.len(),
        list[at] == a,
        list[at + 1] == b,
        forall|i: int| 0 <= i < at ==> !(#[trigger] list[i] == a && list[i + 1] == b),
    ensures
        first_pair(list, a, b) == Some(at),
    decreases list.len(),
{
    if at > 0 {
        let rest = list.skip(1);
        assert(!(list[0] == a && list[1] == b));
        assert forall|i: int| 0 <= i < at - 1 implies !(#[trigger] rest[i] == a && rest[i + 1]
            == b) by {
            assert(rest[i] == list[i + 1]);
        }
        lemma_no_pair_before(rest, a, b, at - 1);
    }
}

proof fn lemma_no_pair<T>(list: Seq<T>, a: T, b: T)
    requires
        forall|i: int| 0 <= i < list.len() - 1 ==> !(#[trigger] list[i] == a && list[i + 1] == b),
    ensures
        first_pair(list, a, b) is None,
    decreases list.len(),
{
    if list.len() >= 2 {
        let rest = list.skip(1);
        assert(!(list[0] == a && list[1] == b));
        assert forall|i: int| 0 <= i < rest.len() - 1 implies !(#[trigger] rest[i] == a && rest[i
            + 1] == b) by {
            assert(rest[i] == list[i + 1]);
        }
        lemma_no_pair(rest, a, b);
    }
}

/// Where the first line of the bytes ends.
pub open spec fn line_end(bytes: Seq<u8>) -> Option<int> {
    first_pair(bytes, 13u8, 10u8)
}

fn find_line_end(bytes: &[u8]) -> (at: Option<usize>)
    ensures
        match line_end(bytes@) {
            Some(expected) => at is Some && at->0 == expected && expected + 2 <= bytes@.len(),
            None => at is None,
        },
{
    let len: usize = bytes.len();
    let mut i: usize = 0;
    while i < len && i + 1 < len
        invariant
            len == bytes@.len(),
            i <= len,
            forall|j: int| 0 <= j < i ==> !(#[trigger] bytes@[j] == 13 && bytes@[j + 1] == 10),
        decreases len - i,
    {
        if bytes[i] == 13 && bytes[i + 1] == 10 {
            proof {
                lemma_no_pair_before(bytes@, 13u8, 10u8, i as int);
            }
            return Some(i);
        }
        i = i + 1;
    }
    proof {
        lemma_no_pair(bytes@, 13u8, 10u8);
    }
    None
}

/// The four bytes at `at` end the headers.
pub open spec fn ends_head(bytes: Seq<u8>, at: int) -> bool {
    &&& at + 4 <= bytes.len()
    &&& bytes[at] == 13
    &&& bytes[at + 1] == 10
    &&& bytes[at + 2] == 13
    &&& bytes[at + 3] == 10
}

/// Where the headers end.
pub open spec fn head_end(bytes: Seq<u8>) -> Option<int>
    decreases bytes.len(),
{
    if bytes.len() < 4 {
        None
    } else if ends_head(bytes, 0) {
        Some(0)
    } else {
        match head_end(bytes.skip(1)) {
            Some(at) => Some(at + 1),
            None => None,
        }
    }
}

proof fn lemma_head_end_at(bytes: Seq<u8>, at: int)
    requires
        0 <= at,
        ends_head(bytes, at),
        forall|i: int| 0 <= i < at ==> !ends_head(bytes, i),
    ensures
        head_end(bytes) == Some(at),
    decreases bytes.len(),
{
    if at > 0 {
        let rest = bytes.skip(1);
        assert(!ends_head(bytes, 0));
        assert forall|i: int| 0 <= i < at - 1 implies !ends_head(rest, i) by {
            assert(!ends_head(bytes, i + 1));
        }
        lemma_head_end_at(rest, at - 1);
    }
}

proof fn lemma_no_head_end(bytes: Seq<u8>)
    requires
        forall|i: int| 0 <= i < bytes.len() ==> !ends_head(bytes, i),
    ensures
        head_end(bytes) is None,
    decreases bytes.len(),
{
    if bytes.len() >= 4 {
        let rest = bytes.skip(1);
        assert(!ends_head(bytes, 0));
        assert forall|i: int| 0 <= i < rest.len() implies !ends_head(rest, i) by {
            assert(!ends_head(bytes, i + 1));
        }
        lemma_no_head_end(rest);
    }
}

fn find_head_end(bytes: &[u8]) -> (at: Option<usize>)
    ensures
        match head_end(bytes@) {
            Some(expected) => at is Some && at->0 == expected && expected + 4 <= bytes@.len(),
            None => at is None,
        },
{
    let len: usize = bytes.len();
    let mut i: usize = 0;
    while i < len && len - i >= 4
        invariant
            len == bytes@.len(),
            i <= len,
            forall|j: int| 0 <= j < i ==> !ends_head(bytes@, j),
        decreases len - i,
    {
        if bytes[i] == 13 && bytes[i + 1] == 10 && bytes[i + 2] == 13 && bytes[i + 3] == 10 {
            proof {
                lemma_head_end_at(bytes@, i as int);
            }
            return Some(i);
        }
        i = i + 1;
    }
    proof {
        lemma_no_head_end(bytes@);
    }
    None
}

/// The lines of a text.
pub open spec fn lines_of(text: Seq<char>) -> Seq<Seq<char>>
    decreases text.len(),
{
    match first_pair(text, '\r', '\n') {
        Some(at) => if 0 <= at && at + 2 <= text.len() {
            seq![text.take(at)] + lines_of(text.skip(at + 2))
        } else {
            seq![text]
        },
        None => seq![text],
    }
}

fn find_char_pair(text: &[char]) -> (at: Option<usize>)
    ensures
        match first_pair(text@, '\r', '\n') {
            Some(expected) => at is Some && at->0 == expected && expected + 2 <= text@.len(),
            None => at is None,
        },
{
    let len: usize = text.len();
    let mut i: usize = 0;
    while i < len && i + 1 < len
        invariant
            len == text@.len(),
            i <= len,
            forall|j: int| 0 <= j < i ==> !(#[trigger] text@[j] == '\r' && text@[j + 1] == '\n'),
        decreases len - i,
    {
        if text[i] == '\r' && text[i + 1] == '\n' {
            proof {
                lemma_no_pair_before(text@, '\r', '\n', i as int);
            }
            return Some(i);
        }
        i = i + 1;
    }
    proof {
        lemma_no_pair(text@, '\r', '\n');
    }
    None
}

fn split_lines(text: &[char]) -> (lines: Vec<Vec<char>>)
    ensures
        seq_view(lines@) == lines_of(text@),
{
    let mut lines: Vec<Vec<char>> = Vec::new();
    let mut rest: &[char] = text;
    assert(seq_view(lines@) + lines_of(text@) =~= lines_of(text@));
    loop
        invariant
            seq_view(lines@) + lines_of(rest@) == lines_of(text@),
        decreases rest@.len(),
    {
        let ghost before = seq_view(lines@);
        let len: usize = rest.len();
        match find_char_pair(rest) {
            Some(at) => {
                let line = slice_of(rest, 0, at);
                let (_, left) = rest.split_at(at + 2);
                lines.push(line);
                proof {
                    assert(line@ =~= rest@.take(at as int));
                    assert(left@ =~= rest@.skip(at + 2));
                    assert(seq_view(lines@) =~= before.push(line@));
                    assert(before + (seq![line@] + lines_of(left@)) =~= seq_view(lines@)
                        + lines_of(left@));
                }
                rest = left;
            },
            None => {
                let line = slice_of(rest, 0, len);
                lines.push(line);
                proof {
                    assert(line@ =~= rest@);
                    assert(seq_view(lines@) =~= before + seq![rest@]);
                }
                return lines;
            },
        }
    }
}

/// The fields of a request, in their order, with names in lower case.
#[derive(Debug, Clone, PartialEq, Eq)]
pub struct Headers {
    pub list: Vec<(String, String)>,
}

pub open spec fn fields_view(list: Seq<(String, String)>) -> Seq<(Seq<char>, Seq<char>)> {
    Seq::new(list.len(), |i: int| (list[i].0@, list[i].1@))
}

impl View for Headers {
    type V = Seq<(Seq<char>, Seq<char>)>;

    open spec fn view(&self) -> Seq<(Seq<char>, Seq<char>)> {
        fields_view(self.list@)
    }
}

/// The value of a field; the last one counts.
pub open spec fn field_of(headers: Seq<(Seq<char>, Seq<char>)>, name: Seq<char>) -> Option<Seq<char>>
    decreases headers.len(),
{
    if headers.len() == 0 {
        None
    } else if headers.last().0 == name {
        Some(headers.last().1)
    } else {
        field_of(headers.drop_last(), name)
    }
}

impl Headers {
    pub fn new() -> (headers: Self)
        ensures
            headers@ == Seq::<(Seq<char>, Seq<char>)>::empty(),
    {
        let headers = Headers { list: Vec::new() };
        assert(headers@ =~= Seq::empty());
        headers
    }

    pub fn insert(&mut self, name: String, value: String)
        ensures
            final(self)@ == old(self)@.push((name@, value@)),
    {
        self.list.push((name, value));
        assert(self@ =~= old(self)@.push((name@, value@)));
    }

    pub fn get(&self, name: &str) -> (value: Option<&String>)
        ensures
            match field_of(self@, name@) {
                Some(expected) => value is Some && value->0@ == expected,
                None => value is None,
            },
    {
        let mut i: usize = self.list.len();
        assert(self@.take(i as int) =~= self@);
        while i > 0
            invariant
                i <= self.list@.len(),
                self@.len() == self.list@.len(),
                field_of(self@, name@) == field_of(self@.take(i as int), name@),
            decreases i,
        {
            let (key, value) = &self.list[i - 1];
            assert(self@.take(i as int).last() == (key@, value@));
            assert(self@.take(i as int).drop_last() =~= self@.take(i - 1));
            if same_text(key.as_str(), name) {
                return Some(value);
            }
            i = i - 1;
        }
        None
    }
}

/// A request without its body.
#[derive(Debug, Clone, PartialEq, Eq)]
pub struct Head {
    pub method: String,
    pub path: String,
    pub headers: Headers,
}

pub ghost struct HeadView {
    pub method: Seq<char>,
    pub path: Seq<char>,
    pub headers: Seq<(Seq<char>, Seq<char>)>,
}

impl View for Head {
    type V = HeadView;

    open spec fn view(&self) -> HeadView {
        HeadView { method: self.method@, path: self.path@, headers: self.headers@ }
    }
}

/// The field that a line holds: a name before the first colon and a value after
/// it.
pub open spec fn line_field(line: Seq<char>) -> Option<(Seq<char>, Seq<char>)> {
    let name = before_first(line, ':');
    if name.len() == line.len() {
        None
    } else {
        Some((lowered(trimmed(name)), trimmed(line.skip(name.len() as int + 1))))
    }
}

/// The fields of some lines; a line without a colon holds none.
pub open spec fn fields_of(lines: Seq<Seq<char>>) -> Seq<(Seq<char>, Seq<char>)>
    decreases lines.len(),
{
    if lines.len() == 0 {
        Seq::empty()
    } else {
        match line_field(lines.last()) {
            Some(field) => fields_of(lines.drop_last()).push(field),
            None => fields_of(lines.drop_last()),
        }
    }
}

/// What the text before a body says: a method, a path without its query, and
/// fields.
pub open spec fn read_head(text: Seq<char>) -> std::result::Result<HeadView, ErrorView> {
    let lines = lines_of(text);
    let method = first_word(lines[0]);
    let path = first_word(after_word(lines[0]));
    if method.len() == 0 {
        Err(ErrorView::Protocol("missing method"@))
    } else if path.len() == 0 {
        Err(ErrorView::Protocol("missing path"@))
    } else {
        Ok(
            HeadView {
                method,
                path: before_first(path, '?'),
                headers: fields_of(lines.skip(1)),
            },
        )
    }
}

proof fn lemma_before_first_len(text: Seq<char>, c: char)
    ensures
        before_first(text, c).len() <= text.len(),
    decreases text.len(),
{
    if text.len() > 0 {
        lemma_before_first_len(text.skip(1), c);
    }
}

proof fn lemma_lines_nonempty(text: Seq<char>)
    ensures
        lines_of(text).len() > 0,
{
}

/// Reads the text before a body.
pub fn parse_head(text: &str) -> (head: Result<Head>)
    ensures
        match read_head(text@) {
            Ok(expected) => head is Ok && head->Ok_0@ == expected,
            Err(error) => head is Err && head->Err_0@ == error,
        },
{
    let chars = chars_of(text);
    let lines = split_lines(chars.as_slice());
    let ghost views = lines_of(text@);
    proof {
        lemma_lines_nonempty(text@);
        assert(views == seq_view(lines@));
    }
    let first = &lines[0];
    assert(first@.skip(0) =~= first@);
    let (method, end) = take_word(first.as_slice(), 0);
    if method.len() == 0 {
        return Err(Error::protocol("missing method"));
    }
    let (path, _) = take_word(first.as_slice(), end);
    if path.len() == 0 {
        return Err(Error::protocol("missing path"));
    }
    let path = before(path.as_slice(), '?');
    let mut headers = Headers::new();
    assert(views.subrange(1, 1) =~= Seq::empty());
    for i in 1..lines.len()
        invariant
            views == seq_view(lines@),
            headers@ == fields_of(views.subrange(1, i as int)),
    {
        let line = &lines[i];
        assert(views.subrange(1, i + 1).drop_last() =~= views.subrange(1, i as int));
        assert(views.subrange(1, i + 1).last() == line@);
        let name = before(line.as_slice(), ':');
        proof {
            lemma_before_first_len(line@, ':');
        }
        if name.len() < line.len() {
            let value = slice_of(line.as_slice(), name.len() + 1, line.len());
            assert(value@ =~= line@.skip(name@.len() as int + 1));
            let key = lower(trim(name.as_slice()).as_slice());
            let value = trim(value.as_slice());
            headers.insert(string_of(key.as_slice()), string_of(value.as_slice()));
        }
    }
    assert(views.subrange(1, views.len() as int) =~= views.skip(1));
    Ok(
        Head {
            method: string_of(method.as_slice()),
            path: string_of(path.as_slice()),
            headers,
        },
    )
}

/// The value of a decimal digit.
pub open spec fn decimal_digit(c: char) -> Option<nat> {
    if '0' <= c <= '9' {
        Some((c as int - '0' as int) as nat)
    } else {
        None
    }
}

/// The value of a hexadecimal digit.
pub open spec fn hex_digit(c: char) -> Option<nat> {
    match encoding::hex_digit(c) {
        Some(value) => Some(value as nat),
        None => None,
    }
}

pub open spec fn digit_in(c: char, hex: bool) -> Option<nat> {
    if hex {
        hex_digit(c)
    } else {
        decimal_digit(c)
    }
}

/// The number that digits stand for.
pub open spec fn digits_number(digits: Seq<char>, hex: bool) -> Option<nat>
    decreases digits.len(),
{
    if digits.len() == 0 {
        Some(0)
    } else {
        match (digits_number(digits.drop_last(), hex), digit_in(digits.last(), hex)) {
            (Some(high), Some(low)) => Some(
                (if hex {
                    16nat
                } else {
                    10nat
                }) * high + low,
            ),
            _ => None,
        }
    }
}

/// The number that a text stands for: digits, which a plus sign may precede, of
/// a number of at most `max`.
pub open spec fn number_of(text: Seq<char>, hex: bool, max: nat) -> Option<nat> {
    let digits = if text.len() > 0 && text[0] == '+' {
        text.skip(1)
    } else {
        text
    };
    match digits_number(digits, hex) {
        Some(value) if digits.len() > 0 && value <= max => Some(value),
        _ => None,
    }
}

fn char_digit(c: char, hex: bool) -> (digit: Option<u64>)
    ensures
        match digit_in(c, hex) {
            Some(value) => digit == Some(value as u64) && value < if hex {
                16nat
            } else {
                10nat
            },
            None => digit is None,
        },
{
    if '0' <= c && c <= '9' {
        Some((c as u8 - 48) as u64)
    } else if hex && 'a' <= c && c <= 'f' {
        Some((c as u8 - 97 + 10) as u64)
    } else if hex && 'A' <= c && c <= 'F' {
        Some((c as u8 - 65 + 10) as u64)
    } else {
        None
    }
}

proof fn lemma_digits_prefix(digits: Seq<char>, hex: bool, len: int)
    requires
        0 <= len <= digits.len(),
    ensures
        digits_number(digits, hex) matches Some(value) ==> digits_number(digits.take(len), hex)
            matches Some(part) && part <= value,
    decreases digits.len(),
{
    if len < digits.len() {
        lemma_digits_prefix(digits.drop_last(), hex, len);
        assert(digits.drop_last().take(len) =~= digits.take(len));
        if let Some(value) = digits_number(digits, hex) {
            let high = digits_number(digits.drop_last(), hex)->0;
            assert(high <= value);
        }
    } else {
        assert(digits.take(len) =~= digits);
    }
}

/// Reads a number of at most `max`.
pub fn parse_number(text: &[char], hex: bool, max: u64) -> (value: Option<u64>)
    ensures
        match number_of(text@, hex, max as nat) {
            Some(expected) => value is Some && value->0 == expected,
            None => value is None,
        },
{
    let start: usize = if text.len() > 0 && text[0] == '+' {
        1
    } else {
        0
    };
    let digits = slice_of(text, start, text.len());
    assert(digits@ =~= text@.skip(start as int));
    if digits.len() == 0 {
        assert(text@.skip(0) =~= text@);
        return None;
    }
    let mut value: u64 = 0;
    for i in 0..digits.len()
        invariant
            start == if text@.len() > 0 && text@[0] == '+' {
                1int
            } else {
                0
            },
            digits@ == text@.skip(start as int),
            digits@.len() > 0,
            digits_number(digits@.take(i as int), hex) == Some(value as nat),
            value <= max,
    {
        proof {
            assert(text@.skip(0) =~= text@);
            assert(digits@.take(i + 1).drop_last() =~= digits@.take(i as int));
            lemma_digits_prefix(digits@, hex, i + 1);
        }
        let digit: u64 = match char_digit(digits[i], hex) {
            Some(digit) => digit,
            None => return None,
        };
        let next: u128 = if hex {
            value as u128 * 16 + digit as u128
        } else {
            value as u128 * 10 + digit as u128
        };
        if next > max as u128 {
            return None;
        }
        value = next as u64;
    }
    assert(digits@.take(digits@.len() as int) =~= digits@);
    assert(text@.skip(0) =~= text@);
    Some(value)
}

/// What a chunked body is read up to.
#[derive(Debug, Clone, Copy, PartialEq, Eq, Structural)]
pub enum Mode {
    /// The line with the size of the next chunk.
    Size,
    /// This many bytes of a chunk.
    Data(usize),
    /// The line end behind a chunk.
    Crlf,
    /// The lines after the last chunk, up to an empty one.
    Trailer,
}

/// A chunked body that is being read.
#[derive(Debug)]
pub struct Chunks {
    pub mode: Mode,
    pub incoming: Vec<u8>,
    pub output: Vec<u8>,
}

pub ghost struct ChunksView {
    pub mode: Mode,
    pub incoming: Seq<u8>,
    pub output: Seq<u8>,
}

impl View for Chunks {
    type V = ChunksView;

    open spec fn view(&self) -> ChunksView {
        ChunksView { mode: self.mode, incoming: self.incoming@, output: self.output@ }
    }
}

/// What the bytes in front hold.
pub ghost enum LineView {
    /// Not yet a whole line.
    More,
    /// No line that can be read.
    Bad(ErrorView),
    /// A line, and what follows it.
    Line(Seq<char>, Seq<u8>),
}

/// The line in front of the bytes.
pub open spec fn take_line(bytes: Seq<u8>) -> LineView {
    match line_end(bytes) {
        None => if bytes.len() > MAX_HEADERS {
            LineView::Bad(ErrorView::Protocol("chunk line is too long"@))
        } else {
            LineView::More
        },
        Some(at) => if at + 2 > MAX_HEADERS {
            LineView::Bad(ErrorView::Protocol("chunk line is too long"@))
        } else if !valid_utf8(bytes.take(at)) {
            LineView::Bad(ErrorView::Protocol("chunk line is not utf-8"@))
        } else {
            LineView::Line(decode_utf8(bytes.take(at)), bytes.skip(at + 2))
        },
    }
}

/// The size that a line announces: a hexadecimal number before any semicolon.
pub open spec fn chunk_size(line: Seq<char>) -> Option<nat> {
    number_of(trimmed(before_first(line, ';')), true, usize::MAX as nat)
}

/// How far the reading of a chunked body has come.
pub ghost enum Run {
    /// More bytes are needed.
    More(ChunksView),
    Done(Seq<u8>),
    Bad(ErrorView),
}

/// Reads as much of a chunked body as is there.
pub open spec fn chunk_run(chunks: ChunksView, max: nat) -> Run
    decreases chunks.incoming.len(),
{
    match chunks.mode {
        Mode::Data(size) => if chunks.incoming.len() < size || size == 0 {
            Run::More(chunks)
        } else {
            chunk_run(
                ChunksView {
                    mode: Mode::Crlf,
                    incoming: chunks.incoming.skip(size as int),
                    output: chunks.output + chunks.incoming.take(size as int),
                },
                max,
            )
        },
        _ => match take_line(chunks.incoming) {
            LineView::More => Run::More(chunks),
            LineView::Bad(error) => Run::Bad(error),
            LineView::Line(line, rest) => if rest.len() >= chunks.incoming.len() {
                Run::More(chunks)
            } else {
                match chunks.mode {
                    Mode::Size => match chunk_size(line) {
                        None => Run::Bad(ErrorView::Protocol("bad chunk size"@)),
                        Some(size) => if size == 0 {
                            chunk_run(
                                ChunksView { mode: Mode::Trailer, incoming: rest, ..chunks },
                                max,
                            )
                        } else if chunks.output.len() + size > max {
                            Run::Bad(ErrorView::TooLarge)
                        } else {
                            chunk_run(
                                ChunksView {
                                    mode: Mode::Data(size as usize),
                                    incoming: rest,
                                    ..chunks
                                },
                                max,
                            )
                        },
                    },
                    Mode::Crlf => if line.len() > 0 {
                        Run::Bad(ErrorView::Protocol("chunk is missing CRLF"@))
                    } else {
                        chunk_run(ChunksView { mode: Mode::Size, incoming: rest, ..chunks }, max)
                    },
                    _ => if line.len() == 0 {
                        Run::Done(chunks.output)
                    } else {
                        chunk_run(ChunksView { incoming: rest, ..chunks }, max)
                    },
                }
            },
        },
    }
}

pub open spec fn fed(chunks: ChunksView, more: Seq<u8>) -> ChunksView {
    ChunksView { incoming: chunks.incoming + more, ..chunks }
}

proof fn lemma_line_end_stays(bytes: Seq<u8>, more: Seq<u8>)
    ensures
        match line_end(bytes) {
            Some(at) => line_end(bytes + more) == Some(at),
            None => line_end(bytes + more) matches Some(at) ==> at + 2 > bytes.len(),
        },
    decreases bytes.len(),
{
    let all = bytes + more;
    if bytes.len() >= 2 {
        if !(bytes[0] == 13 && bytes[1] == 10) {
            lemma_line_end_stays(bytes.skip(1), more);
            assert(all.skip(1) =~= bytes.skip(1) + more);
        }
    } else if bytes.len() == 1 {
        if all.len() >= 2 {
            lemma_first_pair(all.skip(1), 13u8, 10u8);
        }
    } else {
        lemma_first_pair(all, 13u8, 10u8);
    }
}

proof fn lemma_take_line_stays(bytes: Seq<u8>, more: Seq<u8>)
    ensures
        match take_line(bytes) {
            LineView::More => true,
            LineView::Bad(error) => take_line(bytes + more) == LineView::Bad(error),
            LineView::Line(line, rest) => {
                &&& take_line(bytes + more) == LineView::Line(line, rest + more)
                &&& rest.len() < bytes.len()
            },
        },
{
    lemma_line_end_stays(bytes, more);
    lemma_first_pair(bytes, 13u8, 10u8);
    if let Some(at) = line_end(bytes) {
        assert((bytes + more).take(at) =~= bytes.take(at));
        assert((bytes + more).skip(at + 2) =~= bytes.skip(at + 2) + more);
    }
}

/// How a chunked body is cut into reads makes no difference.
pub proof fn chunk_cuts_make_no_difference(chunks: ChunksView, more: Seq<u8>, max: nat)
    ensures
        chunk_run(fed(chunks, more), max) == match chunk_run(chunks, max) {
            Run::More(next) => chunk_run(fed(next, more), max),
            end => end,
        },
    decreases chunks.incoming.len(),
{
    let all = chunks.incoming + more;
    match chunks.mode {
        Mode::Data(size) => if chunks.incoming.len() >= size && size > 0 {
            let next = ChunksView {
                mode: Mode::Crlf,
                incoming: chunks.incoming.skip(size as int),
                output: chunks.output + chunks.incoming.take(size as int),
            };
            chunk_cuts_make_no_difference(next, more, max);
            assert(all.skip(size as int) =~= next.incoming + more);
            assert(all.take(size as int) =~= chunks.incoming.take(size as int));
        },
        _ => {
            lemma_take_line_stays(chunks.incoming, more);
            if let LineView::Line(line, rest) = take_line(chunks.incoming) {
                match chunks.mode {
                    Mode::Size => {
                        if let Some(size) = chunk_size(line) {
                            chunk_cuts_make_no_difference(
                                ChunksView { mode: Mode::Trailer, incoming: rest, ..chunks },
                                more,
                                max,
                            );
                            chunk_cuts_make_no_difference(
                                ChunksView {
                                    mode: Mode::Data(size as usize),
                                    incoming: rest,
                                    ..chunks
                                },
                                more,
                                max,
                            );
                        }
                    },
                    Mode::Crlf => {
                        chunk_cuts_make_no_difference(
                            ChunksView { mode: Mode::Size, incoming: rest, ..chunks },
                            more,
                            max,
                        );
                    },
                    _ => {
                        chunk_cuts_make_no_difference(
                            ChunksView { incoming: rest, ..chunks },
                            more,
                            max,
                        );
                    },
                }
            }
        },
    }
}

/// A chunked body after some more of it came.
#[derive(Debug)]
pub enum ChunkStep {
    More(Chunks),
    Done(Vec<u8>),
}

pub open spec fn run_view(step: Result<ChunkStep>) -> Run {
    match step {
        Ok(ChunkStep::More(chunks)) => Run::More(chunks@),
        Ok(ChunkStep::Done(body)) => Run::Done(body@),
        Err(error) => Run::Bad(error@),
    }
}

impl Chunks {
    /// A body of which `incoming` has come already.
    pub fn new(incoming: Vec<u8>) -> (chunks: Self)
        ensures
            chunks@ == (ChunksView {
                mode: Mode::Size,
                incoming: incoming@,
                output: Seq::<u8>::empty(),
            }),
    {
        Chunks { mode: Mode::Size, incoming, output: Vec::new() }
    }

    /// How much to read next.
    pub fn want(&self) -> (len: usize)
        ensures
            len == match self.mode {
                Mode::Data(size) if size > self.incoming@.len() => size - self.incoming@.len(),
                _ => 1int,
            },
    {
        match self.mode {
            Mode::Data(size) if size > self.incoming.len() => size - self.incoming.len(),
            _ => 1,
        }
    }

    /// Takes the next bytes.
    pub fn feed(self, data: &[u8], max_body: usize) -> (step: Result<ChunkStep>)
        ensures
            run_view(step) == chunk_run(fed(self@, data@), max_body as nat),
    {
        let mut mode = self.mode;
        let mut incoming = self.incoming;
        let mut output = self.output;
        let ghost start = fed(self@, data@);
        incoming.extend_from_slice(data);
        assert(incoming@ =~= start.incoming);
        loop
            invariant
                start == fed(self@, data@),
                chunk_run(
                    ChunksView { mode, incoming: incoming@, output: output@ },
                    max_body as nat,
                ) == chunk_run(start, max_body as nat),
            decreases incoming@.len(),
        {
            let len: usize = incoming.len();
            let _output_len: usize = output.len();
            let ghost held = ChunksView { mode, incoming: incoming@, output: output@ };
            if let Mode::Data(size) = mode {
                if incoming.len() < size || size == 0 {
                    return Ok(ChunkStep::More(Chunks { mode, incoming, output }));
                }
                let rest = incoming.split_off(size);
                output.extend_from_slice(incoming.as_slice());
                assert(output@ =~= held.output + held.incoming.take(size as int));
                assert(rest@ =~= held.incoming.skip(size as int));
                mode = Mode::Crlf;
                incoming = rest;
            } else {
                proof {
                    lemma_take_line_stays(incoming@, Seq::empty());
                    lemma_first_pair(incoming@, 13u8, 10u8);
                }
                let at: usize = match find_line_end(incoming.as_slice()) {
                    Some(at) => at,
                    None => {
                        if incoming.len() > MAX_HEADERS {
                            return Err(Error::protocol("chunk line is too long"));
                        }
                        return Ok(ChunkStep::More(Chunks { mode, incoming, output }));
                    },
                };
                if at + 2 > MAX_HEADERS {
                    return Err(Error::protocol("chunk line is too long"));
                }
                let line_bytes = slice_subrange(incoming.as_slice(), 0, at);
                assert(line_bytes@ =~= incoming@.take(at as int));
                let line = match from_utf8(line_bytes) {
                    Some(line) => line,
                    None => return Err(Error::protocol("chunk line is not utf-8")),
                };
                let rest = slice_to_vec(slice_subrange(incoming.as_slice(), at + 2, len));
                assert(rest@ =~= incoming@.skip(at + 2));
                let empty = line.as_str().is_empty();
                match mode {
                    Mode::Size => {
                        let chars = chars_of(line.as_str());
                        let text = trim(before(chars.as_slice(), ';').as_slice());
                        let size = match parse_number(text.as_slice(), true, usize::MAX as u64) {
                            Some(size) => size as usize,
                            None => return Err(Error::protocol("bad chunk size")),
                        };
                        if size == 0 {
                            mode = Mode::Trailer;
                        } else {
                            if output.len() > max_body || size > max_body - output.len() {
                                return Err(Error::TooLarge);
                            }
                            mode = Mode::Data(size);
                        }
                    },
                    Mode::Crlf => {
                        if !empty {
                            return Err(Error::protocol("chunk is missing CRLF"));
                        }
                        mode = Mode::Size;
                    },
                    _ => {
                        if empty {
                            return Ok(ChunkStep::Done(output));
                        }
                    },
                }
                incoming = rest;
            }
        }
    }
}

#[derive(Debug)]
pub struct Request {
    pub method: String,
    pub path: String,
    pub headers: Headers,
    pub body: Vec<u8>,
}

pub ghost struct RequestView {
    pub head: HeadView,
    pub body: Seq<u8>,
}

impl View for Request {
    type V = RequestView;

    open spec fn view(&self) -> RequestView {
        RequestView {
            head: HeadView { method: self.method@, path: self.path@, headers: self.headers@ },
            body: self.body@,
        }
    }
}

/// A request that is being read.
#[derive(Debug)]
pub enum Reader {
    /// Its headers.
    Head { buf: Vec<u8> },
    /// A body of known length.
    Sized { head: Head, body: Vec<u8>, length: usize },
    /// A body in chunks.
    Chunked { head: Head, chunks: Chunks },
}

pub ghost enum ReaderView {
    Head { buf: Seq<u8> },
    Sized { head: HeadView, body: Seq<u8>, length: nat },
    Chunked { head: HeadView, chunks: ChunksView },
}

impl View for Reader {
    type V = ReaderView;

    open spec fn view(&self) -> ReaderView {
        match *self {
            Reader::Head { buf } => ReaderView::Head { buf: buf@ },
            Reader::Sized { head, body, length } => ReaderView::Sized {
                head: head@,
                body: body@,
                length: length as nat,
            },
            Reader::Chunked { head, chunks } => ReaderView::Chunked {
                head: head@,
                chunks: chunks@,
            },
        }
    }
}

/// What became of a request after some more of it came.
#[derive(Debug)]
pub enum Progress {
    More(Reader),
    Done(Request),
    Bad(Error),
}

pub ghost enum ProgressView {
    More(ReaderView),
    Done(RequestView),
    Bad(ErrorView),
}

impl View for Progress {
    type V = ProgressView;

    open spec fn view(&self) -> ProgressView {
        match *self {
            Progress::More(reader) => ProgressView::More(reader@),
            Progress::Done(request) => ProgressView::Done(request@),
            Progress::Bad(error) => ProgressView::Bad(error@),
        }
    }
}

/// The value of a field, in lower case, holds the word.
pub open spec fn field_holds(
    headers: Seq<(Seq<char>, Seq<char>)>,
    name: Seq<char>,
    word: Seq<char>,
) -> bool {
    field_of(headers, name) matches Some(value) && holds(lowered(value), word)
}

/// What a body of chunks comes to.
pub open spec fn chunked_progress(head: HeadView, chunks: ChunksView, max: nat) -> ProgressView {
    match chunk_run(chunks, max) {
        Run::More(next) => ProgressView::More(ReaderView::Chunked { head, chunks: next }),
        Run::Done(body) => ProgressView::Done(RequestView { head, body }),
        Run::Bad(error) => ProgressView::Bad(error),
    }
}

/// What a body of known length comes to.
pub open spec fn sized_progress(head: HeadView, body: Seq<u8>, length: nat) -> ProgressView {
    if body.len() >= length {
        ProgressView::Done(RequestView { head, body: body.take(length as int) })
    } else {
        ProgressView::More(ReaderView::Sized { head, body, length })
    }
}

/// What follows once the headers are read and `pending` came after them.
pub open spec fn body_progress(head: HeadView, pending: Seq<u8>, max: nat) -> ProgressView {
    if field_holds(head.headers, "transfer-encoding"@, "chunked"@) {
        chunked_progress(
            head,
            ChunksView { mode: Mode::Size, incoming: pending, output: Seq::empty() },
            max,
        )
    } else {
        match field_of(head.headers, "content-length"@) {
            None => ProgressView::Done(RequestView { head, body: pending }),
            Some(value) => match number_of(value, false, usize::MAX as nat) {
                None => ProgressView::Bad(ErrorView::Protocol("bad content-length"@)),
                Some(length) => if length > max {
                    ProgressView::Bad(ErrorView::TooLarge)
                } else {
                    sized_progress(head, pending, length)
                },
            },
        }
    }
}

/// What the bytes of headers come to, and whether the peer is told to go on.
pub open spec fn head_progress(buf: Seq<u8>, max: nat) -> (bool, ProgressView) {
    match head_end(buf) {
        None => (
            false,
            if buf.len() > MAX_HEADERS {
                ProgressView::Bad(ErrorView::Protocol("headers are too large"@))
            } else {
                ProgressView::More(ReaderView::Head { buf })
            },
        ),
        Some(end) => if !valid_utf8(buf.take(end)) {
            (false, ProgressView::Bad(ErrorView::Protocol("headers are not utf-8"@)))
        } else {
            match read_head(decode_utf8(buf.take(end))) {
                Err(error) => (false, ProgressView::Bad(error)),
                Ok(head) => (
                    field_holds(head.headers, "expect"@, "100-continue"@),
                    body_progress(head, buf.skip(end + 4), max),
                ),
            }
        },
    }
}

/// What a request comes to after more bytes, and whether the peer is told to go
/// on.
pub open spec fn progress(reader: ReaderView, data: Seq<u8>, max: nat) -> (bool, ProgressView) {
    match reader {
        ReaderView::Head { buf } => head_progress(buf + data, max),
        ReaderView::Sized { head, body, length } => (
            false,
            sized_progress(head, body + data, length),
        ),
        ReaderView::Chunked { head, chunks } => (
            false,
            chunked_progress(head, fed(chunks, data), max),
        ),
    }
}

proof fn lemma_head_end_stays(bytes: Seq<u8>, more: Seq<u8>)
    requires
        head_end(bytes) is Some,
    ensures
        head_end(bytes + more) == head_end(bytes),
        0 <= head_end(bytes)->0,
        head_end(bytes)->0 + 4 <= bytes.len(),
    decreases bytes.len(),
{
    if !ends_head(bytes, 0) {
        lemma_head_end_stays(bytes.skip(1), more);
        assert((bytes + more).skip(1) =~= bytes.skip(1) + more);
        assert(!ends_head(bytes + more, 0));
    }
}

/// How a request is cut into reads makes no difference: where a first part
/// leaves it unfinished, the rest leads to what both lead to at once, and the
/// peer is told to go on as often.
pub proof fn cuts_make_no_difference(reader: ReaderView, data: Seq<u8>, more: Seq<u8>, max: nat)
    ensures
        progress(reader, data, max).1 matches ProgressView::More(next) ==> {
            &&& progress(reader, data + more, max).1 == progress(next, more, max).1
            &&& progress(reader, data + more, max).0 == (progress(reader, data, max).0 || progress(
                next,
                more,
                max,
            ).0)
        },
{
    match reader {
        ReaderView::Head { buf } => {
            let all = buf + data;
            assert(buf + (data + more) =~= all + more);
            if let Some(end) = head_end(all) {
                lemma_head_end_stays(all, more);
                assert((all + more).take(end) =~= all.take(end));
                assert((all + more).skip(end + 4) =~= all.skip(end + 4) + more);
                if valid_utf8(all.take(end)) {
                    if let Ok(head) = read_head(decode_utf8(all.take(end))) {
                        let chunks = ChunksView {
                            mode: Mode::Size,
                            incoming: all.skip(end + 4),
                            output: Seq::empty(),
                        };
                        chunk_cuts_make_no_difference(chunks, more, max);
                    }
                }
            }
        },
        ReaderView::Sized { head, body, length } => {
            assert(body + (data + more) =~= body + data + more);
        },
        ReaderView::Chunked { head, chunks } => {
            chunk_cuts_make_no_difference(fed(chunks, data), more, max);
            assert(fed(chunks, data + more).incoming =~= fed(fed(chunks, data), more).incoming);
        },
    }
}

fn value_holds(headers: &Headers, name: &str, word: &str) -> (yes: bool)
    ensures
        yes == field_holds(headers@, name@, word@),
{
    match headers.get(name) {
        Some(value) => {
            let text = lower(chars_of(value.as_str()).as_slice());
            str_contains(string_of(text.as_slice()).as_str(), word)
        },
        None => false,
    }
}

fn finished(head: Head, body: Vec<u8>) -> (progress: Progress)
    ensures
        progress@ == ProgressView::Done(RequestView { head: head@, body: body@ }),
{
    Progress::Done(
        Request { method: head.method, path: head.path, headers: head.headers, body },
    )
}

fn after_chunks(head: Head, step: Result<ChunkStep>) -> (progress: Progress)
    ensures
        progress@ == match run_view(step) {
            Run::More(next) => ProgressView::More(ReaderView::Chunked { head: head@, chunks: next }),
            Run::Done(body) => ProgressView::Done(RequestView { head: head@, body }),
            Run::Bad(error) => ProgressView::Bad(error),
        },
{
    match step {
        Ok(ChunkStep::More(chunks)) => Progress::More(Reader::Chunked { head, chunks }),
        Ok(ChunkStep::Done(body)) => finished(head, body),
        Err(error) => Progress::Bad(error),
    }
}

fn after_sized(head: Head, body: Vec<u8>, length: usize) -> (progress: Progress)
    ensures
        progress@ == sized_progress(head@, body@, length as nat),
{
    if body.len() >= length {
        let exact = slice_to_vec(slice_subrange(body.as_slice(), 0, length));
        assert(exact@ =~= body@.take(length as int));
        finished(head, exact)
    } else {
        Progress::More(Reader::Sized { head, body, length })
    }
}

fn after_head(head: Head, pending: Vec<u8>, max_body: usize) -> (progress: Progress)
    ensures
        progress@ == body_progress(head@, pending@, max_body as nat),
{
    if value_holds(&head.headers, "transfer-encoding", "chunked") {
        let nothing: [u8; 0] = [];
        let chunks = Chunks::new(pending);
        assert(fed(chunks@, nothing@).incoming =~= pending@);
        let step = chunks.feed(&nothing, max_body);
        return after_chunks(head, step);
    }
    let length = match head.headers.get("content-length") {
        Some(value) => {
            let chars = chars_of(value.as_str());
            match parse_number(chars.as_slice(), false, usize::MAX as u64) {
                Some(length) => length as usize,
                None => return Progress::Bad(Error::protocol("bad content-length")),
            }
        },
        None => return finished(head, pending),
    };
    if length > max_body {
        return Progress::Bad(Error::TooLarge);
    }
    after_sized(head, pending, length)
}

impl Reader {
    pub fn new() -> (reader: Self)
        ensures
            reader@ == (ReaderView::Head { buf: Seq::<u8>::empty() }),
    {
        Reader::Head { buf: Vec::new() }
    }

    /// How much to read next.
    pub fn want(&self) -> (len: usize)
        ensures
            len == match *self {
                Reader::Head { .. } => HEAD_READ as int,
                Reader::Sized { body, length, .. } => if length > body@.len() {
                    length - body@.len()
                } else {
                    0
                },
                Reader::Chunked { chunks, .. } => match chunks.mode {
                    Mode::Data(size) if size > chunks.incoming@.len() => size
                        - chunks.incoming@.len(),
                    _ => 1,
                },
            },
    {
        match self {
            Reader::Head { .. } => HEAD_READ,
            Reader::Sized { body, length, .. } => if *length > body.len() {
                *length - body.len()
            } else {
                0
            },
            Reader::Chunked { chunks, .. } => chunks.want(),
        }
    }

    /// Takes the next bytes. Where the first result is true, the peer waits to be
    /// told to go on.
    pub fn feed(self, data: &[u8], max_body: usize) -> (next: (bool, Progress))
        ensures
            (next.0, next.1@) == progress(self@, data@, max_body as nat),
    {
        match self {
            Reader::Head { buf } => {
                let ghost held = buf@;
                let mut buf = buf;
                buf.extend_from_slice(data);
                assert(buf@ =~= held + data@);
                let len: usize = buf.len();
                let end: usize = match find_head_end(buf.as_slice()) {
                    Some(end) => end,
                    None => {
                        if len > MAX_HEADERS {
                            return (false, Progress::Bad(Error::protocol("headers are too large")));
                        }
                        return (false, Progress::More(Reader::Head { buf }));
                    },
                };
                let text = slice_subrange(buf.as_slice(), 0, end);
                assert(text@ =~= buf@.take(end as int));
                let text = match from_utf8(text) {
                    Some(text) => text,
                    None => return (
                        false,
                        Progress::Bad(Error::protocol("headers are not utf-8")),
                    ),
                };
                let pending = slice_to_vec(slice_subrange(buf.as_slice(), end + 4, len));
                assert(pending@ =~= buf@.skip(end + 4));
                let head = match parse_head(text.as_str()) {
                    Ok(head) => head,
                    Err(error) => return (false, Progress::Bad(error)),
                };
                let go_on = value_holds(&head.headers, "expect", "100-continue");
                (go_on, after_head(head, pending, max_body))
            },
            Reader::Sized { head, body, length } => {
                let ghost held = body@;
                let mut body = body;
                body.extend_from_slice(data);
                assert(body@ =~= held + data@);
                (false, after_sized(head, body, length))
            },
            Reader::Chunked { head, chunks } => {
                let step = chunks.feed(data, max_body);
                (false, after_chunks(head, step))
            },
        }
    }

    /// Why a request is not read to its end when the connection closes.
    pub fn closed(&self) -> (error: Error)
        ensures
            error@ == match self@ {
                ReaderView::Head { buf } => if buf.len() == 0 {
                    ErrorView::Closed
                } else {
                    ErrorView::Protocol("connection closed during headers"@)
                },
                _ => ErrorView::Closed,
            },
    {
        match self {
            Reader::Head { buf } => if buf.len() == 0 {
                Error::Closed
            } else {
                Error::protocol("connection closed during headers")
            },
            _ => Error::Closed,
        }
    }
}

/// What a peer that waits is told.
pub const CONTINUE: &'static str = "HTTP/1.1 100 Continue\r\n\r\n";

/// The text before the body of a response.
pub open spec fn response_head(
    status: u16,
    reason: Seq<char>,
    content_type: Seq<char>,
    length: nat,
) -> Seq<char> {
    "HTTP/1.1 "@ + decimal_text(status as nat) + " "@ + reason + "\r\nContent-Type: "@ + content_type
        + "\r\nContent-Length: "@ + decimal_text(length) + "\r\nConnection: keep-alive\r\n\r\n"@
}

/// Writes a response.
pub fn write_response(status: u16, reason: &str, content_type: &str, body: &[u8]) -> (bytes: Vec<u8>)
    ensures
        bytes@ == encode_utf8(response_head(status, reason@, content_type@, body@.len())) + body@,
{
    let mut head = "HTTP/1.1 ".to_owned();
    head.append(decimal(status as u64).as_str());
    head.append(" ");
    head.append(reason);
    head.append("\r\nContent-Type: ");
    head.append(content_type);
    head.append("\r\nContent-Length: ");
    head.append(decimal(body.len() as u64).as_str());
    head.append("\r\nConnection: keep-alive\r\n\r\n");
    let mut bytes = slice_to_vec(head.as_str().as_bytes());
    bytes.extend_from_slice(body);
    assert(bytes@ =~= encode_utf8(
        response_head(status, reason@, content_type@, body@.len()),
    ) + body@);
    bytes
}

/// The text before the body of a request.
pub open spec fn request_head(path: Seq<char>, content_type: Seq<char>, length: nat) -> Seq<char> {
    "POST "@ + path + " HTTP/1.1\r\nHost: crossdrop\r\nContent-Type: "@ + content_type
        + "\r\nContent-Length: "@ + decimal_text(length) + "\r\nConnection: keep-alive\r\n\r\n"@
}

/// Writes a request.
pub fn write_request(path: &str, content_type: &str, body: &[u8]) -> (bytes: Vec<u8>)
    ensures
        bytes@ == encode_utf8(request_head(path@, content_type@, body@.len())) + body@,
{
    let mut head = "POST ".to_owned();
    head.append(path);
    head.append(" HTTP/1.1\r\nHost: crossdrop\r\nContent-Type: ");
    head.append(content_type);
    head.append("\r\nContent-Length: ");
    head.append(decimal(body.len() as u64).as_str());
    head.append("\r\nConnection: keep-alive\r\n\r\n");
    let mut bytes = slice_to_vec(head.as_str().as_bytes());
    bytes.extend_from_slice(body);
    assert(bytes@ =~= encode_utf8(request_head(path@, content_type@, body@.len())) + body@);
    bytes
}

/// The status of a response that was read as a request: its code stands where a
/// path would; 0 where there is none.
pub open spec fn status_number(response: RequestView) -> u16 {
    match number_of(response.head.path, false, u16::MAX as nat) {
        Some(status) => status as u16,
        None => 0,
    }
}

pub fn status_of(response: &Request) -> (status: u16)
    ensures
        status == status_number(response@),
{
    match parse_number(chars_of(response.path.as_str()).as_slice(), false, 65535) {
        Some(status) => status as u16,
        None => 0,
    }
}

} // verus!
