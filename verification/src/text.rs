//! Characters, strings and their bytes.

use vstd::prelude::*;
use vstd::utf8::*;

verus! {

/// `String::push` appends one character.
pub assume_specification[ String::push ](s: &mut String, c: char)
    ensures
        final(s)@ == old(s)@.push(c),
;

/// The value of an option taken by its view.
pub open spec fn opt_view<T: View>(value: Option<T>) -> Option<T::V> {
    match value {
        Some(inner) => Some(inner@),
        None => None,
    }
}

/// The elements of a sequence taken by their views.
pub open spec fn seq_view<T: View>(values: Seq<T>) -> Seq<T::V> {
    Seq::new(values.len(), |i: int| values[i]@)
}

/// Calls `String::from_utf8` on a copy of the bytes: it succeeds exactly on
/// well-formed UTF-8 and then holds the characters that the bytes encode.
#[verifier::external_body]
pub(crate) fn from_utf8(bytes: &[u8]) -> (text: Option<String>)
    ensures
        text is Some <==> valid_utf8(bytes@),
        text is Some ==> text->0@ == decode_utf8(bytes@),
{
    String::from_utf8(bytes.to_vec()).ok()
}

pub fn chars_of(text: &str) -> (chars: Vec<char>)
    ensures
        chars@ == text@,
{
    let mut chars: Vec<char> = Vec::new();
    for c in iter: text.chars()
        invariant
            chars@ == iter.seq().take(iter.index()),
            iter.seq() == text@,
    {
        chars.push(c);
    }
    chars
}

pub fn string_of(chars: &[char]) -> (text: String)
    ensures
        text@ == chars@,
{
    let mut text = String::new();
    for i in 0..chars.len()
        invariant
            text@ == chars@.take(i as int),
    {
        text.push(chars[i]);
    }
    text
}

pub fn same_text(a: &str, b: &str) -> (same: bool)
    ensures
        same == (a@ == b@),
{
    a.to_owned() == b.to_owned()
}

/// The character of a decimal digit.
pub open spec fn digit_char(digit: int) -> char {
    ('0' as int + digit) as char
}

pub fn digit(value: u64) -> (c: char)
    requires
        value < 10,
    ensures
        c == digit_char(value as int),
{
    (48 + value as u8) as char
}

/// A number in decimal, without leading zeros.
pub open spec fn decimal_text(value: nat) -> Seq<char>
    decreases value,
{
    if value < 10 {
        seq![digit_char(value as int)]
    } else {
        decimal_text(value / 10).push(digit_char((value % 10) as int))
    }
}

/// Different numbers have different texts.
pub proof fn decimal_is_one_to_one(a: nat, b: nat)
    requires
        decimal_text(a) == decimal_text(b),
    ensures
        a == b,
    decreases a,
{
    let x = decimal_text(a);
    let y = decimal_text(b);
    assert(x.last() == digit_char((a % 10) as int));
    assert(y.last() == digit_char((b % 10) as int));
    if a >= 10 && b >= 10 {
        assert(x.drop_last() =~= decimal_text(a / 10));
        assert(y.drop_last() =~= decimal_text(b / 10));
        decimal_is_one_to_one(a / 10, b / 10);
    } else if a >= 10 {
        lemma_decimal_nonempty(a / 10);
    } else if b >= 10 {
        lemma_decimal_nonempty(b / 10);
    }
}

proof fn lemma_decimal_nonempty(value: nat)
    ensures
        decimal_text(value).len() > 0,
{
}

pub fn decimal(value: u64) -> (text: String)
    ensures
        text@ == decimal_text(value as nat),
    decreases value,
{
    let mut text = if value < 10 {
        String::new()
    } else {
        decimal(value / 10)
    };
    text.push(digit(value % 10));
    proof {
        assert(seq![digit_char((value % 10) as int)] =~= Seq::<char>::empty().push(
            digit_char((value % 10) as int),
        ));
    }
    text
}

/// The control characters of Unicode.
pub open spec fn is_control_char(c: char) -> bool {
    c <= '\u{1f}' || '\u{7f}' <= c <= '\u{9f}'
}

/// The white space of Unicode.
pub open spec fn is_white_char(c: char) -> bool {
    ||| '\u{9}' <= c <= '\u{d}'
    ||| c == ' '
    ||| c == '\u{85}'
    ||| c == '\u{a0}'
    ||| c == '\u{1680}'
    ||| '\u{2000}' <= c <= '\u{200a}'
    ||| c == '\u{2028}'
    ||| c == '\u{2029}'
    ||| c == '\u{202f}'
    ||| c == '\u{205f}'
    ||| c == '\u{3000}'
}

pub fn is_control(c: char) -> (yes: bool)
    ensures
        yes == is_control_char(c),
{
    c <= '\u{1f}' || ('\u{7f}' <= c && c <= '\u{9f}')
}

pub fn is_white(c: char) -> (yes: bool)
    ensures
        yes == is_white_char(c),
{
    ('\u{9}' <= c && c <= '\u{d}') || c == ' ' || c == '\u{85}' || c == '\u{a0}' || c == '\u{1680}'
        || ('\u{2000}' <= c && c <= '\u{200a}') || c == '\u{2028}' || c == '\u{2029}' || c
        == '\u{202f}' || c == '\u{205f}' || c == '\u{3000}'
}

/// The text without white space in front.
pub open spec fn trimmed_start(text: Seq<char>) -> Seq<char>
    decreases text.len(),
{
    if text.len() > 0 && is_white_char(text[0]) {
        trimmed_start(text.skip(1))
    } else {
        text
    }
}

/// The text without white space at its end.
pub open spec fn trimmed_end(text: Seq<char>) -> Seq<char>
    decreases text.len(),
{
    if text.len() > 0 && is_white_char(text.last()) {
        trimmed_end(text.drop_last())
    } else {
        text
    }
}

/// The text without white space around it.
pub open spec fn trimmed(text: Seq<char>) -> Seq<char> {
    trimmed_end(trimmed_start(text))
}

/// Where the text without white space around it begins and ends.
fn trim_bounds(chars: &[char]) -> (bounds: (usize, usize))
    ensures
        bounds.0 <= bounds.1 <= chars@.len(),
        chars@.subrange(bounds.0 as int, bounds.1 as int) == trimmed(chars@),
{
    let mut start: usize = 0;
    assert(chars@.skip(0) =~= chars@);
    while start < chars.len() && is_white(chars[start])
        invariant
            start <= chars@.len(),
            trimmed_start(chars@) == trimmed_start(chars@.skip(start as int)),
        decreases chars@.len() - start,
    {
        assert(chars@.skip(start as int).skip(1) =~= chars@.skip(start + 1));
        start = start + 1;
    }
    let mut end: usize = chars.len();
    assert(chars@.subrange(start as int, end as int) =~= chars@.skip(start as int));
    while end > start && is_white(chars[end - 1])
        invariant
            start <= end <= chars@.len(),
            trimmed(chars@) == trimmed_end(chars@.subrange(start as int, end as int)),
        decreases end,
    {
        assert(chars@.subrange(start as int, end as int).drop_last() =~= chars@.subrange(
            start as int,
            end - 1,
        ));
        end = end - 1;
    }
    (start, end)
}

/// The characters from `start` up to `end`.
pub fn slice_of(chars: &[char], start: usize, end: usize) -> (part: Vec<char>)
    requires
        start <= end <= chars@.len(),
    ensures
        part@ == chars@.subrange(start as int, end as int),
{
    let mut part: Vec<char> = Vec::new();
    for i in start..end
        invariant
            end <= chars@.len(),
            part@ == chars@.subrange(start as int, i as int),
    {
        part.push(chars[i]);
    }
    part
}

pub fn trim(chars: &[char]) -> (part: Vec<char>)
    ensures
        part@ == trimmed(chars@),
{
    let (start, end) = trim_bounds(chars);
    slice_of(chars, start, end)
}

/// The part of the text before the first `c`, or all of it.
pub open spec fn before_first(text: Seq<char>, c: char) -> Seq<char>
    decreases text.len(),
{
    if text.len() == 0 || text[0] == c {
        Seq::empty()
    } else {
        seq![text[0]] + before_first(text.skip(1), c)
    }
}

/// The part of the text after the last `c`, or all of it.
pub open spec fn after_last(text: Seq<char>, c: char) -> Seq<char>
    decreases text.len(),
{
    if text.len() == 0 || text.last() == c {
        Seq::empty()
    } else {
        after_last(text.drop_last(), c).push(text.last())
    }
}

pub fn before(chars: &[char], c: char) -> (part: Vec<char>)
    ensures
        part@ == before_first(chars@, c),
{
    let mut part: Vec<char> = Vec::new();
    assert(chars@.skip(0) =~= chars@);
    assert(part@ + before_first(chars@, c) =~= before_first(chars@, c));
    for i in 0..chars.len()
        invariant
            part@ + before_first(chars@.skip(i as int), c) == before_first(chars@, c),
    {
        let ghost rest = chars@.skip(i as int);
        assert(rest.skip(1) =~= chars@.skip(i + 1));
        if chars[i] == c {
            assert(part@ + Seq::<char>::empty() =~= part@);
            return part;
        }
        let ghost held = part@;
        part.push(chars[i]);
        assert(held + (seq![rest[0]] + before_first(rest.skip(1), c)) =~= part@ + before_first(
            rest.skip(1),
            c,
        ));
    }
    assert(part@ + Seq::<char>::empty() =~= part@);
    part
}

proof fn lemma_after_last(text: Seq<char>, c: char, cut: int)
    requires
        0 <= cut <= text.len(),
        cut > 0 ==> text[cut - 1] == c,
        forall|i: int| cut <= i < text.len() ==> text[i] != c,
    ensures
        after_last(text, c) == text.skip(cut),
    decreases text.len(),
{
    if cut < text.len() {
        lemma_after_last(text.drop_last(), c, cut);
        assert(text.drop_last().skip(cut).push(text.last()) =~= text.skip(cut));
    } else {
        assert(text.skip(cut) =~= Seq::empty());
    }
}

pub proof fn lemma_after_last_len(text: Seq<char>, c: char)
    ensures
        after_last(text, c).len() <= text.len(),
    decreases text.len(),
{
    if text.len() > 0 {
        lemma_after_last_len(text.drop_last(), c);
    }
}

pub fn after(chars: &[char], c: char) -> (part: Vec<char>)
    ensures
        part@ == after_last(chars@, c),
{
    let mut cut: usize = chars.len();
    while cut > 0 && chars[cut - 1] != c
        invariant
            cut <= chars@.len(),
            forall|i: int| cut <= i < chars@.len() ==> chars@[i] != c,
        decreases cut,
    {
        cut = cut - 1;
    }
    proof {
        lemma_after_last(chars@, c, cut as int);
        assert(chars@.skip(cut as int) =~= chars@.subrange(cut as int, chars@.len() as int));
    }
    slice_of(chars, cut, chars.len())
}

pub open spec fn lower_char(c: char) -> char {
    if 'A' <= c <= 'Z' {
        (c as int + 32) as char
    } else {
        c
    }
}

pub open spec fn upper_char(c: char) -> char {
    if 'a' <= c <= 'z' {
        (c as int - 32) as char
    } else {
        c
    }
}

/// The text with the letters A to Z in lower case.
pub open spec fn lowered(text: Seq<char>) -> Seq<char> {
    Seq::new(text.len(), |i: int| lower_char(text[i]))
}

/// The text with the letters a to z in upper case.
pub open spec fn raised(text: Seq<char>) -> Seq<char> {
    Seq::new(text.len(), |i: int| upper_char(text[i]))
}

pub fn lower(chars: &[char]) -> (out: Vec<char>)
    ensures
        out@ == lowered(chars@),
{
    let mut out: Vec<char> = Vec::new();
    for i in 0..chars.len()
        invariant
            out@ == lowered(chars@).take(i as int),
    {
        let c = chars[i];
        if 'A' <= c && c <= 'Z' {
            out.push((c as u8 + 32) as char);
        } else {
            out.push(c);
        }
    }
    out
}

pub fn raise(chars: &[char]) -> (out: Vec<char>)
    ensures
        out@ == raised(chars@),
{
    let mut out: Vec<char> = Vec::new();
    for i in 0..chars.len()
        invariant
            out@ == raised(chars@).take(i as int),
    {
        let c = chars[i];
        if 'a' <= c && c <= 'z' {
            out.push((c as u8 - 32) as char);
        } else {
            out.push(c);
        }
    }
    out
}

pub open spec fn begins_with(text: Seq<char>, prefix: Seq<char>) -> bool {
    prefix.len() <= text.len() && text.take(prefix.len() as int) == prefix
}

pub fn has_prefix(text: &[char], prefix: &[char]) -> (yes: bool)
    ensures
        yes == begins_with(text@, prefix@),
{
    if text.len() < prefix.len() {
        return false;
    }
    for i in 0..prefix.len()
        invariant
            prefix@.len() <= text@.len(),
            forall|j: int| 0 <= j < i ==> text@[j] == prefix@[j],
    {
        if text[i] != prefix[i] {
            assert(text@.take(prefix@.len() as int)[i as int] != prefix@[i as int]);
            return false;
        }
    }
    assert(text@.take(prefix@.len() as int) =~= prefix@);
    true
}

/// Whether `text` begins with `prefix`.
pub fn str_begins_with(text: &str, prefix: &str) -> (yes: bool)
    ensures
        yes == begins_with(text@, prefix@),
{
    has_prefix(chars_of(text).as_slice(), chars_of(prefix).as_slice())
}

/// A signed number in decimal.
pub open spec fn signed_text(value: int) -> Seq<char> {
    if value < 0 {
        "-"@ + decimal_text((-value) as nat)
    } else {
        decimal_text(value as nat)
    }
}

pub fn signed(value: i32) -> (text: String)
    ensures
        text@ == signed_text(value as int),
{
    let wide: i64 = value as i64;
    if wide < 0 {
        let mut text = "-".to_owned();
        text.append(decimal((-wide) as u64).as_str());
        text
    } else {
        decimal(wide as u64)
    }
}

pub open spec fn ends_in(text: Seq<char>, suffix: Seq<char>) -> bool {
    suffix.len() <= text.len() && text.skip(text.len() - suffix.len()) == suffix
}

/// Whether `text` ends with `suffix`.
pub fn str_ends_with(text: &str, suffix: &str) -> (yes: bool)
    ensures
        yes == ends_in(text@, suffix@),
{
    let chars = chars_of(text);
    let tail = chars_of(suffix);
    if chars.len() < tail.len() {
        return false;
    }
    let start: usize = chars.len() - tail.len();
    let end: usize = chars.len();
    for i in 0..tail.len()
        invariant
            chars@ == text@,
            tail@ == suffix@,
            end == chars@.len(),
            start + tail@.len() == end,
            forall|j: int| start <= j < start + i ==> #[trigger] chars@[j] == tail@[j - start],
    {
        if chars[start + i] != tail[i] {
            assert(text@.skip(start as int)[i as int] != suffix@[i as int]);
            return false;
        }
    }
    assert(text@.skip(start as int) =~= suffix@);
    true
}

/// The text holds `part` somewhere.
pub open spec fn holds(text: Seq<char>, part: Seq<char>) -> bool {
    exists|i: int| 0 <= i && i + part.len() <= text.len() && #[trigger] text.skip(i).take(part.len() as int) == part
}

fn stands_at(text: &[char], part: &[char], at: usize) -> (yes: bool)
    requires
        at + part@.len() <= text@.len(),
    ensures
        yes == (text@.skip(at as int).take(part@.len() as int) == part@),
{
    let _len: usize = text.len();
    for i in 0..part.len()
        invariant
            at + part@.len() <= text@.len() <= usize::MAX,
            forall|j: int| 0 <= j < i ==> text@.skip(at as int).take(part@.len() as int)[j] == part@[j],
    {
        if text[at + i] != part[i] {
            assert(text@.skip(at as int).take(part@.len() as int)[i as int] != part@[i as int]);
            return false;
        }
    }
    assert(text@.skip(at as int).take(part@.len() as int) =~= part@);
    true
}

/// Whether the text holds `part` somewhere.
pub fn has_part(text: &[char], part: &[char]) -> (yes: bool)
    ensures
        yes == holds(text@, part@),
{
    if text.len() < part.len() {
        return false;
    }
    let last: usize = text.len() - part.len();
    let mut at: usize = 0;
    while at <= last
        invariant
            last + part@.len() == text@.len(),
            at <= last + 1,
            text@.len() <= usize::MAX,
            forall|i: int|
                0 <= i < at ==> #[trigger] text@.skip(i).take(part@.len() as int) != part@,
        decreases last + 1 - at,
    {
        if stands_at(text, part, at) {
            return true;
        }
        if at == last {
            return false;
        }
        at = at + 1;
    }
    false
}

/// Whether `text` holds `part` somewhere.
pub fn str_contains(text: &str, part: &str) -> (yes: bool)
    ensures
        yes == holds(text@, part@),
{
    has_part(chars_of(text).as_slice(), chars_of(part).as_slice())
}

/// The bytes of two texts in a row are the bytes of the first, then those of the
/// second.
pub proof fn lemma_encode_concat(a: Seq<char>, b: Seq<char>)
    ensures
        encode_utf8(a + b) == encode_utf8(a) + encode_utf8(b),
    decreases a.len(),
{
    if a.len() == 0 {
        assert(a + b =~= b);
        assert(encode_utf8(a) + encode_utf8(b) =~= encode_utf8(b));
    } else {
        lemma_encode_concat(a.drop_first(), b);
        assert((a + b).drop_first() =~= a.drop_first() + b);
        assert(encode_utf8(a + b) =~= encode_utf8(a) + encode_utf8(b));
    }
}

proof fn lemma_scalar_bytes(c: char, byte: u8)
    requires
        byte < 0x80,
        c != byte as char,
    ensures
        forall|i: int|
            0 <= i < encode_scalar(c as u32).len() ==> #[trigger] encode_scalar(c as u32)[i]
                != byte,
{
    let s = c as u32;
    assert(forall|x: u8| #[trigger] (0x80u8 | x) >= 0x80) by (bit_vector);
    assert(forall|x: u8| #[trigger] (0xC0u8 | x) >= 0x80) by (bit_vector);
    assert(forall|x: u8| #[trigger] (0xE0u8 | x) >= 0x80) by (bit_vector);
    assert(forall|x: u8| #[trigger] (0xF0u8 | x) >= 0x80) by (bit_vector);
    if s <= 0x7F {
        assert(s & 0x7F == s) by (bit_vector)
            requires
                s <= 0x7F,
        ;
    }
}

/// Only the character of an ASCII byte has that byte.
pub proof fn lemma_no_byte(text: Seq<char>, byte: u8)
    requires
        byte < 0x80,
        forall|i: int| 0 <= i < text.len() ==> text[i] != byte as char,
    ensures
        forall|i: int|
            0 <= i < encode_utf8(text).len() ==> #[trigger] encode_utf8(text)[i] != byte,
    decreases text.len(),
{
    if text.len() > 0 {
        lemma_scalar_bytes(text[0], byte);
        let rest = text.drop_first();
        assert forall|i: int| 0 <= i < rest.len() implies rest[i] != byte as char by {
            assert(rest[i] == text[i + 1]);
        }
        lemma_no_byte(rest, byte);
        let head = encode_scalar(text[0] as u32);
        let tail = encode_utf8(rest);
        assert forall|i: int| 0 <= i < encode_utf8(text).len() implies #[trigger] encode_utf8(text)[i]
            != byte by {
            if i < head.len() {
                assert(encode_utf8(text)[i] == head[i]);
            } else {
                assert(encode_utf8(text)[i] == tail[i - head.len()]);
            }
        }
    }
}

/// The parts of a text between the places where `c` stands.
pub open spec fn parts_at(text: Seq<char>, c: char) -> Seq<Seq<char>>
    decreases text.len(),
{
    if text.len() == 0 {
        seq![Seq::empty()]
    } else if text.last() == c {
        parts_at(text.drop_last(), c).push(Seq::empty())
    } else {
        let parts = parts_at(text.drop_last(), c);
        parts.drop_last().push(parts.last().push(text.last()))
    }
}

/// The lines of a text, each up to its line feed; nothing after the last line
/// feed is no line.
pub open spec fn text_lines(text: Seq<char>) -> Seq<Seq<char>> {
    let parts = parts_at(text, '\n');
    if parts.last().len() == 0 {
        parts.drop_last()
    } else {
        parts
    }
}

pub fn split_lines(text: &[char]) -> (lines: Vec<Vec<char>>)
    ensures
        seq_view(lines@) == text_lines(text@),
{
    let mut lines: Vec<Vec<char>> = Vec::new();
    let mut current: Vec<char> = Vec::new();
    proof {
        let before = parts_at(text@.take(0), '\n');
        assert(before.drop_last() =~= Seq::empty());
        assert(seq_view(lines@) =~= Seq::empty());
        assert(before.last() =~= current@);
    }
    for i in 0..text.len()
        invariant
            parts_at(text@.take(i as int), '\n').len() > 0,
            parts_at(text@.take(i as int), '\n').last() == current@,
            parts_at(text@.take(i as int), '\n').drop_last() == seq_view(lines@),
    {
        let ghost before = parts_at(text@.take(i as int), '\n');
        let ghost after = parts_at(text@.take(i + 1), '\n');
        let ghost held = lines@;
        assert(text@.take(i + 1).drop_last() =~= text@.take(i as int));
        if text[i] == '\n' {
            assert(after.drop_last() =~= before);
            lines.push(current);
            assert(seq_view(lines@) =~= seq_view(held).push(before.last()));
            assert(before =~= before.drop_last().push(before.last()));
            current = Vec::new();
            assert(after.last() =~= current@);
        } else {
            current.push(text[i]);
            assert(after.drop_last() =~= before.drop_last());
        }
    }
    assert(text@.take(text@.len() as int) =~= text@);
    let ghost all = parts_at(text@, '\n');
    if current.len() > 0 {
        let ghost held = lines@;
        lines.push(current);
        assert(seq_view(lines@) =~= seq_view(held).push(all.last()));
        assert(all =~= all.drop_last().push(all.last()));
    }
    lines
}

/// The text up to the first white space.
pub open spec fn before_white(text: Seq<char>) -> Seq<char>
    decreases text.len(),
{
    if text.len() == 0 || is_white_char(text[0]) {
        Seq::empty()
    } else {
        seq![text[0]] + before_white(text.skip(1))
    }
}

/// The first word of a text.
pub open spec fn first_word(text: Seq<char>) -> Seq<char> {
    before_white(trimmed_start(text))
}

/// What follows the first word of a text.
pub open spec fn after_word(text: Seq<char>) -> Seq<char> {
    trimmed_start(text).skip(first_word(text).len() as int)
}

/// The first word of the characters and where it ends.
pub fn take_word(text: &[char], from: usize) -> (word: (Vec<char>, usize))
    requires
        from <= text@.len(),
    ensures
        word.0@ == first_word(text@.skip(from as int)),
        from <= word.1 <= text@.len(),
        text@.skip(word.1 as int) == after_word(text@.skip(from as int)),
{
    let mut start: usize = from;
    while start < text.len() && is_white(text[start])
        invariant
            from <= start <= text@.len(),
            trimmed_start(text@.skip(from as int)) == trimmed_start(text@.skip(start as int)),
        decreases text@.len() - start,
    {
        assert(text@.skip(start as int).skip(1) =~= text@.skip(start + 1));
        start = start + 1;
    }
    let ghost whole = text@.skip(start as int);
    assert(trimmed_start(text@.skip(from as int)) == whole);
    let mut end: usize = start;
    let mut word: Vec<char> = Vec::new();
    assert(word@ + before_white(whole) =~= before_white(whole));
    while end < text.len() && !is_white(text[end])
        invariant
            start <= end <= text@.len(),
            whole == text@.skip(start as int),
            word@.len() == end - start,
            word@ + before_white(text@.skip(end as int)) == before_white(whole),
        decreases text@.len() - end,
    {
        let ghost before = word@;
        let ghost rest = text@.skip(end as int);
        assert(rest.skip(1) =~= text@.skip(end + 1));
        word.push(text[end]);
        assert(before + (seq![rest[0]] + before_white(rest.skip(1))) =~= word@ + before_white(
            rest.skip(1),
        ));
        end = end + 1;
    }
    assert(word@ + Seq::<char>::empty() =~= word@);
    assert(whole.skip(word@.len() as int) =~= text@.skip(end as int));
    (word, end)
}

/// A word: something, without white space.
pub open spec fn is_word(text: Seq<char>) -> bool {
    text.len() > 0 && forall|i: int| 0 <= i < text.len() ==> !is_white_char(#[trigger] text[i])
}

/// A word ends where white space begins.
pub proof fn lemma_before_white(word: Seq<char>, rest: Seq<char>)
    requires
        forall|i: int| 0 <= i < word.len() ==> !is_white_char(#[trigger] word[i]),
        rest.len() == 0 || is_white_char(rest[0]),
    ensures
        before_white(word + rest) == word,
    decreases word.len(),
{
    let text = word + rest;
    if word.len() == 0 {
        assert(text =~= rest);
        assert(before_white(text) =~= word);
    } else {
        assert(text[0] == word[0]);
        assert(text.skip(1) =~= word.skip(1) + rest);
        assert forall|i: int| 0 <= i < word.skip(1).len() implies !is_white_char(
            #[trigger] word.skip(1)[i],
        ) by {
            assert(word.skip(1)[i] == word[i + 1]);
        }
        lemma_before_white(word.skip(1), rest);
        assert(seq![word[0]] + word.skip(1) =~= word);
    }
}

/// The text is the word, in lower or upper case.
pub open spec fn spelled(text: Seq<char>, word: Seq<char>) -> bool {
    text.len() == word.len() && forall|i: int|
        0 <= i < word.len() ==> #[trigger] text[i] == word[i] || ('a' <= word[i] <= 'z' && text[i] as int
            == word[i] as int - 32)
}

/// Spelling a word in either case is being it in lower case.
pub proof fn lemma_spelled(text: Seq<char>, word: Seq<char>)
    requires
        forall|i: int| 0 <= i < word.len() ==> !('A' <= #[trigger] word[i] <= 'Z'),
    ensures
        spelled(text, word) <==> lowered(text) == word,
{
    if spelled(text, word) {
        assert forall|i: int| 0 <= i < word.len() implies lowered(text)[i] == word[i] by {
            assert(text[i] == word[i] || ('a' <= word[i] <= 'z' && text[i] as int == word[i] as int
                - 32));
        }
        assert(lowered(text) =~= word);
    } else if lowered(text) == word {
        assert(lowered(text).len() == text.len());
        assert forall|i: int| 0 <= i < word.len() implies #[trigger] text[i] == word[i] || ('a'
            <= word[i] <= 'z' && text[i] as int == word[i] as int - 32) by {
            assert(lowered(text)[i] == word[i]);
        }
    }
}

/// The text begins with the word, in lower or upper case.
pub open spec fn starts_spelled(text: Seq<char>, word: Seq<char>) -> bool {
    text.len() >= word.len() && spelled(text.take(word.len() as int), word)
}

pub proof fn lemma_starts_spelled(text: Seq<char>, word: Seq<char>)
    requires
        forall|i: int| 0 <= i < word.len() ==> !('A' <= #[trigger] word[i] <= 'Z'),
    ensures
        begins_with(lowered(text), word) == starts_spelled(text, word),
{
    if text.len() >= word.len() {
        let head = text.take(word.len() as int);
        lemma_spelled(head, word);
        assert(lowered(text).take(word.len() as int) =~= lowered(head));
    }
}

/// What follows the last separator is added to the last part.
pub proof fn lemma_parts_append(text: Seq<char>, tail: Seq<char>, c: char)
    requires
        forall|i: int| 0 <= i < tail.len() ==> #[trigger] tail[i] != c,
    ensures
        parts_at(text, c).len() > 0,
        parts_at(text + tail, c) == parts_at(text, c).drop_last().push(
            parts_at(text, c).last() + tail,
        ),
    decreases text.len() + tail.len(),
{
    let parts = parts_at(text, c);
    if text.len() > 0 {
        lemma_parts_append(text.drop_last(), Seq::empty(), c);
    }
    if tail.len() == 0 {
        assert(text + tail =~= text);
        assert(parts.last() + tail =~= parts.last());
        assert(parts.drop_last().push(parts.last()) =~= parts);
    } else {
        let front = tail.drop_last();
        lemma_parts_append(text, front, c);
        assert((text + tail).drop_last() =~= text + front);
        assert((text + tail).last() == tail.last());
        assert(tail[tail.len() - 1] != c);
        assert((parts.last() + front).push(tail.last()) =~= parts.last() + tail);
        let before = parts_at(text + front, c);
        assert(before.drop_last() =~= parts.drop_last());
        assert(before.last() == parts.last() + front);
    }
}

/// A number in decimal is digits alone.
pub proof fn lemma_decimal_digits(value: nat)
    ensures
        decimal_text(value).len() > 0,
        forall|i: int|
            0 <= i < decimal_text(value).len() ==> '0' <= #[trigger] decimal_text(value)[i] <= '9',
    decreases value,
{
    if value >= 10 {
        lemma_decimal_digits(value / 10);
    }
}

/// The part before the first separator ends there.
pub proof fn first_parts_end_at_separators(first: Seq<char>, rest: Seq<char>, c: char)
    requires
        forall|i: int| 0 <= i < first.len() ==> #[trigger] first[i] != c,
    ensures
        before_first(first + seq![c] + rest, c) == first,
    decreases first.len(),
{
    let all = first + seq![c] + rest;
    if first.len() > 0 {
        let tail = first.skip(1);
        assert forall|i: int| 0 <= i < tail.len() implies #[trigger] tail[i] != c by {
            assert(tail[i] == first[i + 1]);
        }
        first_parts_end_at_separators(tail, rest, c);
        assert(all.skip(1) =~= tail + seq![c] + rest);
        assert(all[0] == first[0]);
        assert(seq![first[0]] + tail =~= first);
    } else {
        assert(all[0] == c);
        assert(before_first(all, c) =~= first);
    }
}

/// A text without separators is its own first and last part.
pub proof fn texts_without_separators_are_whole(text: Seq<char>, c: char)
    requires
        forall|i: int| 0 <= i < text.len() ==> #[trigger] text[i] != c,
    ensures
        before_first(text, c) == text,
        after_last(text, c) == text,
    decreases text.len(),
{
    if text.len() > 0 {
        let tail = text.skip(1);
        assert forall|i: int| 0 <= i < tail.len() implies #[trigger] tail[i] != c by {
            assert(tail[i] == text[i + 1]);
        }
        texts_without_separators_are_whole(tail, c);
        assert(text[0] != c);
        assert(seq![text[0]] + tail =~= text);
        let front = text.drop_last();
        assert forall|i: int| 0 <= i < front.len() implies #[trigger] front[i] != c by {
            assert(front[i] == text[i]);
        }
        texts_without_separators_are_whole(front, c);
        assert(text[text.len() - 1] != c);
        assert(front.push(text.last()) =~= text);
    } else {
        assert(before_first(text, c) =~= text);
        assert(after_last(text, c) =~= text);
    }
}

/// The part after the last separator begins there.
pub proof fn last_parts_begin_at_separators(rest: Seq<char>, last: Seq<char>, c: char)
    requires
        forall|i: int| 0 <= i < last.len() ==> #[trigger] last[i] != c,
    ensures
        after_last(rest + seq![c] + last, c) == last,
    decreases last.len(),
{
    let all = rest + seq![c] + last;
    if last.len() > 0 {
        let front = last.drop_last();
        assert forall|i: int| 0 <= i < front.len() implies #[trigger] front[i] != c by {
            assert(front[i] == last[i]);
        }
        last_parts_begin_at_separators(rest, front, c);
        assert(all.drop_last() =~= rest + seq![c] + front);
        assert(last[last.len() - 1] != c);
        assert(all.last() == last.last());
        assert(front.push(last.last()) =~= last);
    } else {
        assert(all.last() == c);
        assert(after_last(all, c) =~= last);
    }
}

/// Trimming takes away the white space around a text and nothing else.
pub proof fn trimming_keeps_the_core(before: Seq<char>, core: Seq<char>, behind: Seq<char>)
    requires
        forall|i: int| 0 <= i < before.len() ==> is_white_char(#[trigger] before[i]),
        forall|i: int| 0 <= i < behind.len() ==> is_white_char(#[trigger] behind[i]),
        core.len() > 0 ==> !is_white_char(core[0]) && !is_white_char(core.last()),
    ensures
        trimmed(before + core + behind) == core,
    decreases before.len() + behind.len(),
{
    let all = before + core + behind;
    if before.len() > 0 {
        let rest = before.skip(1);
        assert forall|i: int| 0 <= i < rest.len() implies is_white_char(#[trigger] rest[i]) by {
            assert(rest[i] == before[i + 1]);
        }
        trimming_keeps_the_core(rest, core, behind);
        assert(all[0] == before[0]);
        assert(all.skip(1) =~= rest + core + behind);
    } else if core.len() == 0 {
        if behind.len() > 0 {
            let rest = behind.skip(1);
            assert forall|i: int| 0 <= i < rest.len() implies is_white_char(#[trigger] rest[i]) by {
                assert(rest[i] == behind[i + 1]);
            }
            trimming_keeps_the_core(before, core, rest);
            assert(all[0] == behind[0]);
            assert(all.skip(1) =~= before + core + rest);
        } else {
            assert(all =~= core);
        }
    } else {
        assert(all[0] == core[0]);
        if behind.len() > 0 {
            let rest = behind.drop_last();
            assert forall|i: int| 0 <= i < rest.len() implies is_white_char(#[trigger] rest[i]) by {
                assert(rest[i] == behind[i]);
            }
            trimming_keeps_the_core(before, core, rest);
            assert(behind[behind.len() - 1] == all.last());
            assert(all.drop_last() =~= before + core + rest);
            assert((before + core + rest)[0] == core[0]);
        } else {
            assert(all =~= core);
        }
    }
}

/// A text is cut at each separator: one more part for each, and what stands
/// between two of them is one part.
pub proof fn parts_are_between_separators(text: Seq<char>, part: Seq<char>, c: char)
    requires
        forall|i: int| 0 <= i < part.len() ==> #[trigger] part[i] != c,
    ensures
        parts_at(part, c) == seq![part],
        parts_at(text + seq![c] + part, c) == parts_at(text, c).push(part),
{
    let none = Seq::<char>::empty();
    lemma_parts_append(none, part, c);
    assert(none + part =~= part);
    assert(parts_at(none, c) =~= seq![none]);
    assert(parts_at(part, c) =~= seq![part]);
    lemma_parts_append(text + seq![c], part, c);
    assert((text + seq![c]).drop_last() =~= text);
    assert(parts_at(text + seq![c], c) == parts_at(text, c).push(none));
    assert(parts_at(text, c).push(none).drop_last() =~= parts_at(text, c));
}

/// A number in decimal is its digits, the highest first.
pub proof fn decimals_are_digits(value: nat, digit: nat)
    requires
        digit < 10,
    ensures
        decimal_text(digit) == seq![('0' as int + digit) as char],
        value > 0 ==> decimal_text(10 * value + digit) == decimal_text(value).push(
            ('0' as int + digit) as char,
        ),
        signed_text(-(value as int)) == if value > 0 {
            seq!['-'] + decimal_text(value)
        } else {
            decimal_text(0)
        },
        signed_text(value as int) == decimal_text(value),
{
    reveal_strlit("-");
    assert("-"@ =~= seq!['-']);
}

/// Lower and upper case differ in the letters of ASCII alone.
pub proof fn cases_of_letters(text: Seq<char>, i: int)
    requires
        0 <= i < text.len(),
    ensures
        lowered(text).len() == text.len(),
        raised(text).len() == text.len(),
        'A' <= text[i] <= 'Z' ==> lowered(text)[i] as int == text[i] as int + 32,
        !('A' <= text[i] <= 'Z') ==> lowered(text)[i] == text[i],
        'a' <= text[i] <= 'z' ==> raised(text)[i] as int == text[i] as int - 32,
        !('a' <= text[i] <= 'z') ==> raised(text)[i] == text[i],
{
}

/// The characters that count as white space, and those that count as control
/// characters, by their numbers.
pub proof fn white_and_control_characters(c: char)
    ensures
        ({
            let n = c as int;
            &&& is_white_char(c) <==> 9 <= n <= 13 || n == 32 || n == 0x85 || n == 0xA0 || n
                == 0x1680 || 0x2000 <= n <= 0x200A || n == 0x2028 || n == 0x2029 || n == 0x202F || n
                == 0x205F || n == 0x3000
            &&& is_control_char(c) <==> n < 32 || 127 <= n <= 159
        }),
{
}

/// A text is read line by line: each line end ends a line, and what follows the last
/// one is a line if it is not empty.
pub proof fn lines_end_at_line_ends(text: Seq<char>, line: Seq<char>)
    requires
        forall|i: int| 0 <= i < line.len() ==> #[trigger] line[i] != '\n',
        line.len() > 0,
    ensures
        text_lines(Seq::empty()).len() == 0,
        text_lines(line) == seq![line],
        text_lines(text + seq!['\n'] + line) == parts_at(text, '\n').push(line),
        text_lines(text + seq!['\n']) == parts_at(text, '\n'),
{
    let none = Seq::<char>::empty();
    parts_are_between_separators(text, line, '\n');
    parts_are_between_separators(text, none, '\n');
    assert(text + seq!['\n'] + none =~= text + seq!['\n']);
    assert(parts_at(text, '\n').push(none).drop_last() =~= parts_at(text, '\n'));
    assert(text_lines(none) =~= Seq::empty());
}

/// The first word of a text ends at the white space behind it, and white space
/// before it is passed over.
pub proof fn words_end_at_white_space(before: Seq<char>, word: Seq<char>, rest: Seq<char>)
    requires
        forall|i: int| 0 <= i < before.len() ==> is_white_char(#[trigger] before[i]),
        is_word(word),
        rest.len() == 0 || is_white_char(rest[0]),
    ensures
        first_word(before + (word + rest)) == word,
        after_word(before + (word + rest)) == rest,
    decreases before.len(),
{
    let all = before + (word + rest);
    if before.len() > 0 {
        let tail = before.skip(1);
        assert forall|i: int| 0 <= i < tail.len() implies is_white_char(#[trigger] tail[i]) by {
            assert(tail[i] == before[i + 1]);
        }
        words_end_at_white_space(tail, word, rest);
        assert(all[0] == before[0]);
        assert(all.skip(1) =~= tail + (word + rest));
    } else {
        assert(all =~= word + rest);
        assert(all[0] == word[0]);
        lemma_before_white(word, rest);
        assert(all.skip(word.len() as int) =~= rest);
    }
}

} // verus!
