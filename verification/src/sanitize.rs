//! File names that are safe to create.

use crate::error::{Error, ErrorView, Result};
use crate::text::{
    before, before_first, chars_of, is_control, is_control_char, is_white_char, raise, raised,
    same_text, slice_of, spelled, string_of, trim, trimmed, trimmed_end, trimmed_start, upper_char,
};
use vstd::prelude::*;
use vstd::utf8::*;

verus! {

/// The longest name, in bytes.
pub const MAX_FILE_NAME: usize = 240;

/// Separators of paths, volumes and streams, and control characters.
pub open spec fn forbidden_char(c: char) -> bool {
    is_control_char(c) || c == '/' || c == '\\' || c == ':'
}

/// The text without dots and spaces at its end.
pub open spec fn without_tail(text: Seq<char>) -> Seq<char>
    decreases text.len(),
{
    if text.len() > 0 && (text.last() == '.' || text.last() == ' ') {
        without_tail(text.drop_last())
    } else {
        text
    }
}

/// The names that Windows keeps for devices.
pub open spec fn is_device(stem: Seq<char>) -> bool {
    let name = raised(stem);
    ||| name == "CON"@
    ||| name == "PRN"@
    ||| name == "AUX"@
    ||| name == "NUL"@
    ||| name == "COM1"@
    ||| name == "COM2"@
    ||| name == "COM3"@
    ||| name == "COM4"@
    ||| name == "COM5"@
    ||| name == "COM6"@
    ||| name == "COM7"@
    ||| name == "COM8"@
    ||| name == "COM9"@
    ||| name == "LPT1"@
    ||| name == "LPT2"@
    ||| name == "LPT3"@
    ||| name == "LPT4"@
    ||| name == "LPT5"@
    ||| name == "LPT6"@
    ||| name == "LPT7"@
    ||| name == "LPT8"@
    ||| name == "LPT9"@
}

/// The name under which a file that was announced as `raw` is kept.
pub open spec fn safe_name(raw: Seq<char>) -> Option<Seq<char>> {
    let name = without_tail(trimmed(raw));
    if exists|i: int| 0 <= i < raw.len() && forbidden_char(#[trigger] raw[i]) {
        None
    } else if name.len() == 0 || is_device(before_first(name, '.')) || encode_utf8(name).len()
        > MAX_FILE_NAME {
        None
    } else {
        Some(name)
    }
}

fn device_name(name: &str) -> (device: bool)
    ensures
        device == is_device(name@),
{
    let chars = raise(chars_of(name).as_slice());
    let upper = string_of(chars.as_slice());
    let name = upper.as_str();
    same_text(name, "CON") || same_text(name, "PRN") || same_text(name, "AUX") || same_text(
        name,
        "NUL",
    ) || same_text(name, "COM1") || same_text(name, "COM2") || same_text(name, "COM3") || same_text(
        name,
        "COM4",
    ) || same_text(name, "COM5") || same_text(name, "COM6") || same_text(name, "COM7") || same_text(
        name,
        "COM8",
    ) || same_text(name, "COM9") || same_text(name, "LPT1") || same_text(name, "LPT2") || same_text(
        name,
        "LPT3",
    ) || same_text(name, "LPT4") || same_text(name, "LPT5") || same_text(name, "LPT6") || same_text(
        name,
        "LPT7",
    ) || same_text(name, "LPT8") || same_text(name, "LPT9")
}

/// Accepts a single path component; refuses traversal, separators and the
/// device names of Windows.
///
/// Trailing dots and spaces are removed, because Windows strips them silently.
pub fn safe_file_name(raw: &str) -> (name: Result<String>)
    ensures
        match safe_name(raw@) {
            Some(safe) => name is Ok && name->Ok_0@ == safe,
            None => name is Err && name->Err_0@ == ErrorView::UnsafeName,
        },
{
    let chars = chars_of(raw);
    for i in 0..chars.len()
        invariant
            chars@ == raw@,
            forall|j: int| 0 <= j < i ==> !forbidden_char(#[trigger] raw@[j]),
    {
        let c = chars[i];
        if is_control(c) || c == '/' || c == '\\' || c == ':' {
            assert(forbidden_char(raw@[i as int]));
            return Err(Error::UnsafeName);
        }
    }
    let inner = trim(chars.as_slice());
    let mut end: usize = inner.len();
    assert(inner@.take(end as int) =~= inner@);
    while end > 0 && (inner[end - 1] == '.' || inner[end - 1] == ' ')
        invariant
            end <= inner@.len(),
            without_tail(inner@) == without_tail(inner@.take(end as int)),
        decreases end,
    {
        assert(inner@.take(end as int).drop_last() =~= inner@.take(end - 1));
        end = end - 1;
    }
    let name = slice_of(inner.as_slice(), 0, end);
    assert(name@ =~= inner@.take(end as int));
    if name.len() == 0 {
        return Err(Error::UnsafeName);
    }
    let stem = before(name.as_slice(), '.');
    if device_name(string_of(stem.as_slice()).as_str()) {
        return Err(Error::UnsafeName);
    }
    let name = string_of(name.as_slice());
    if name.as_str().as_bytes().len() > MAX_FILE_NAME {
        return Err(Error::UnsafeName);
    }
    Ok(name)
}

proof fn lemma_without_tail(text: Seq<char>)
    ensures
        without_tail(text).len() <= text.len(),
        without_tail(text) == text.take(without_tail(text).len() as int),
        without_tail(text).len() > 0 ==> without_tail(text).last() != '.' && without_tail(text).last()
            != ' ',
    decreases text.len(),
{
    if text.len() > 0 && (text.last() == '.' || text.last() == ' ') {
        lemma_without_tail(text.drop_last());
        let kept = without_tail(text);
        assert(text.drop_last().take(kept.len() as int) =~= text.take(kept.len() as int));
    } else {
        assert(text.take(text.len() as int) =~= text);
    }
}

proof fn lemma_trimmed_start(text: Seq<char>)
    ensures
        trimmed_start(text).len() <= text.len(),
        trimmed_start(text) == text.skip(text.len() - trimmed_start(text).len()),
        trimmed_start(text).len() > 0 ==> !is_white_char(trimmed_start(text)[0]),
    decreases text.len(),
{
    if text.len() > 0 && is_white_char(text[0]) {
        lemma_trimmed_start(text.skip(1));
        let kept = trimmed_start(text);
        assert(text.skip(1).skip(text.len() - 1 - kept.len()) =~= text.skip(
            text.len() - kept.len(),
        ));
    } else {
        assert(text.skip(0) =~= text);
    }
}

proof fn lemma_trimmed_end(text: Seq<char>)
    ensures
        trimmed_end(text).len() <= text.len(),
        trimmed_end(text) == text.take(trimmed_end(text).len() as int),
    decreases text.len(),
{
    if text.len() > 0 && is_white_char(text.last()) {
        lemma_trimmed_end(text.drop_last());
        let kept = trimmed_end(text);
        assert(text.drop_last().take(kept.len() as int) =~= text.take(kept.len() as int));
    } else {
        assert(text.take(text.len() as int) =~= text);
    }
}

/// Every character of the kept name comes from the announced one.
proof fn lemma_name_within(raw: Seq<char>, i: int) -> (j: int)
    requires
        0 <= i < without_tail(trimmed(raw)).len(),
    ensures
        0 <= j < raw.len(),
        without_tail(trimmed(raw))[i] == raw[j],
        i == 0 ==> !is_white_char(raw[j]),
{
    lemma_without_tail(trimmed(raw));
    lemma_trimmed_end(trimmed_start(raw));
    lemma_trimmed_start(raw);
    i + raw.len() - trimmed_start(raw).len()
}

/// A kept name is one path component: it is not empty, is no `.` or `..`, holds
/// no separator and no control character, and does not end in a dot or a space.
pub proof fn kept_name_is_one_component(raw: Seq<char>)
    requires
        safe_name(raw) is Some,
    ensures
        safe_name(raw)->0.len() > 0,
        encode_utf8(safe_name(raw)->0).len() <= MAX_FILE_NAME,
        safe_name(raw)->0.last() != '.',
        safe_name(raw)->0.last() != ' ',
        !is_white_char(safe_name(raw)->0[0]),
        forall|i: int|
            0 <= i < safe_name(raw)->0.len() ==> !forbidden_char(#[trigger] safe_name(raw)->0[i]),
        !is_device(before_first(safe_name(raw)->0, '.')),
{
    let name = safe_name(raw)->0;
    lemma_without_tail(trimmed(raw));
    assert forall|i: int| 0 <= i < name.len() implies !forbidden_char(#[trigger] name[i]) by {
        let j = lemma_name_within(raw, i);
    }
    let j = lemma_name_within(raw, 0);
}

/// A kept name that does not end in white space is kept as it is.
pub proof fn kept_name_stays(raw: Seq<char>)
    requires
        safe_name(raw) is Some,
        !is_white_char(safe_name(raw)->0.last()),
    ensures
        safe_name(safe_name(raw)->0) == safe_name(raw),
{
    kept_name_is_one_component(raw);
}

/// The names of devices in either case: console, printer, auxiliary and null, and
/// the serial and parallel ports from one to nine.
pub open spec fn names_device(stem: Seq<char>) -> bool {
    ||| stem.len() == 3 && (spelled(stem, seq!['c', 'o', 'n']) || spelled(stem, seq!['p', 'r', 'n'])
        || spelled(stem, seq!['a', 'u', 'x']) || spelled(stem, seq!['n', 'u', 'l']))
    ||| stem.len() == 4 && '1' <= stem[3] <= '9' && (spelled(stem.take(3), seq!['c', 'o', 'm'])
        || spelled(stem.take(3), seq!['l', 'p', 't']))
}

proof fn lemma_spelled_three(text: Seq<char>, a: char, b: char, c: char)
    requires
        'a' <= a <= 'z',
        'a' <= b <= 'z',
        'a' <= c <= 'z',
    ensures
        spelled(text, seq![a, b, c]) <==> text.len() == 3 && upper_char(text[0]) == upper_char(a)
            && upper_char(text[1]) == upper_char(b) && upper_char(text[2]) == upper_char(c),
{
    let word = seq![a, b, c];
    assert(word[0] == a && word[1] == b && word[2] == c);
    if text.len() == 3 && upper_char(text[0]) == upper_char(a) && upper_char(text[1]) == upper_char(
        b,
    ) && upper_char(text[2]) == upper_char(c) {
        assert forall|i: int| 0 <= i < word.len() implies #[trigger] text[i] == word[i] || ('a'
            <= word[i] <= 'z' && text[i] as int == word[i] as int - 32) by {}
    }
    if spelled(text, word) {
        assert(text[0] == word[0] || text[0] as int == word[0] as int - 32);
        assert(text[1] == word[1] || text[1] as int == word[1] as int - 32);
        assert(text[2] == word[2] || text[2] as int == word[2] as int - 32);
    }
}

proof fn lemma_device(stem: Seq<char>)
    ensures
        is_device(stem) == names_device(stem),
{
    let name = raised(stem);
    assert(upper_char('a') == 'A' && upper_char('c') == 'C' && upper_char('l') == 'L'
        && upper_char('m') == 'M' && upper_char('n') == 'N' && upper_char('o') == 'O'
        && upper_char('p') == 'P' && upper_char('r') == 'R' && upper_char('t') == 'T'
        && upper_char('u') == 'U' && upper_char('x') == 'X');
    assert(forall|i: int| 0 <= i < stem.len() ==> #[trigger] name[i] == upper_char(stem[i]));
    reveal_strlit("CON");
    reveal_strlit("PRN");
    reveal_strlit("AUX");
    reveal_strlit("NUL");
    reveal_strlit("COM1");
    reveal_strlit("COM2");
    reveal_strlit("COM3");
    reveal_strlit("COM4");
    reveal_strlit("COM5");
    reveal_strlit("COM6");
    reveal_strlit("COM7");
    reveal_strlit("COM8");
    reveal_strlit("COM9");
    reveal_strlit("LPT1");
    reveal_strlit("LPT2");
    reveal_strlit("LPT3");
    reveal_strlit("LPT4");
    reveal_strlit("LPT5");
    reveal_strlit("LPT6");
    reveal_strlit("LPT7");
    reveal_strlit("LPT8");
    reveal_strlit("LPT9");
    lemma_spelled_three(stem, 'c', 'o', 'n');
    if name == "CON"@ {
        assert("CON"@.len() == 3 && name.len() == stem.len());
        assert(stem.len() == 3 && name[0] == 'C' && name[1] == 'O' && name[2] == 'N');
        assert(spelled(stem, seq!['c', 'o', 'n']));
        assert(names_device(stem));
    }
    if spelled(stem, seq!['c', 'o', 'n']) {
        assert(name =~= "CON"@);
    }
    lemma_spelled_three(stem, 'p', 'r', 'n');
    if name == "PRN"@ {
        assert("PRN"@.len() == 3 && name.len() == stem.len());
        assert(stem.len() == 3 && name[0] == 'P' && name[1] == 'R' && name[2] == 'N');
        assert(spelled(stem, seq!['p', 'r', 'n']));
        assert(names_device(stem));
    }
    if spelled(stem, seq!['p', 'r', 'n']) {
        assert(name =~= "PRN"@);
    }
    lemma_spelled_three(stem, 'a', 'u', 'x');
    if name == "AUX"@ {
        assert("AUX"@.len() == 3 && name.len() == stem.len());
        assert(stem.len() == 3 && name[0] == 'A' && name[1] == 'U' && name[2] == 'X');
        assert(spelled(stem, seq!['a', 'u', 'x']));
        assert(names_device(stem));
    }
    if spelled(stem, seq!['a', 'u', 'x']) {
        assert(name =~= "AUX"@);
    }
    lemma_spelled_three(stem, 'n', 'u', 'l');
    if name == "NUL"@ {
        assert("NUL"@.len() == 3 && name.len() == stem.len());
        assert(stem.len() == 3 && name[0] == 'N' && name[1] == 'U' && name[2] == 'L');
        assert(spelled(stem, seq!['n', 'u', 'l']));
        assert(names_device(stem));
    }
    if spelled(stem, seq!['n', 'u', 'l']) {
        assert(name =~= "NUL"@);
    }
    if stem.len() == 4 {
        let head = stem.take(3);
        assert(head[0] == stem[0] && head[1] == stem[1] && head[2] == stem[2]);
        assert('1' <= stem[3] <= '9' ==> stem[3] == '1' || stem[3] == '2' || stem[3] == '3'
            || stem[3] == '4' || stem[3] == '5' || stem[3] == '6' || stem[3] == '7'
            || stem[3] == '8' || stem[3] == '9');
        lemma_spelled_three(head, 'c', 'o', 'm');
        lemma_spelled_three(head, 'l', 'p', 't');
    }
    if name == "COM1"@ {
        assert("COM1"@.len() == 4 && name.len() == stem.len());
        assert(stem.len() == 4 && name[0] == 'C' && name[1] == 'O' && name[2] == 'M'
            && name[3] == '1');
        assert(spelled(stem.take(3), seq!['c', 'o', 'm']));
        assert(names_device(stem));
    }
    if stem.len() == 4 && stem[3] == '1' && spelled(stem.take(3), seq!['c', 'o', 'm']) {
        assert(name =~= "COM1"@);
    }
    if name == "COM2"@ {
        assert("COM2"@.len() == 4 && name.len() == stem.len());
        assert(stem.len() == 4 && name[0] == 'C' && name[1] == 'O' && name[2] == 'M'
            && name[3] == '2');
        assert(spelled(stem.take(3), seq!['c', 'o', 'm']));
        assert(names_device(stem));
    }
    if stem.len() == 4 && stem[3] == '2' && spelled(stem.take(3), seq!['c', 'o', 'm']) {
        assert(name =~= "COM2"@);
    }
    if name == "COM3"@ {
        assert("COM3"@.len() == 4 && name.len() == stem.len());
        assert(stem.len() == 4 && name[0] == 'C' && name[1] == 'O' && name[2] == 'M'
            && name[3] == '3');
        assert(spelled(stem.take(3), seq!['c', 'o', 'm']));
        assert(names_device(stem));
    }
    if stem.len() == 4 && stem[3] == '3' && spelled(stem.take(3), seq!['c', 'o', 'm']) {
        assert(name =~= "COM3"@);
    }
    if name == "COM4"@ {
        assert("COM4"@.len() == 4 && name.len() == stem.len());
        assert(stem.len() == 4 && name[0] == 'C' && name[1] == 'O' && name[2] == 'M'
            && name[3] == '4');
        assert(spelled(stem.take(3), seq!['c', 'o', 'm']));
        assert(names_device(stem));
    }
    if stem.len() == 4 && stem[3] == '4' && spelled(stem.take(3), seq!['c', 'o', 'm']) {
        assert(name =~= "COM4"@);
    }
    if name == "COM5"@ {
        assert("COM5"@.len() == 4 && name.len() == stem.len());
        assert(stem.len() == 4 && name[0] == 'C' && name[1] == 'O' && name[2] == 'M'
            && name[3] == '5');
        assert(spelled(stem.take(3), seq!['c', 'o', 'm']));
        assert(names_device(stem));
    }
    if stem.len() == 4 && stem[3] == '5' && spelled(stem.take(3), seq!['c', 'o', 'm']) {
        assert(name =~= "COM5"@);
    }
    if name == "COM6"@ {
        assert("COM6"@.len() == 4 && name.len() == stem.len());
        assert(stem.len() == 4 && name[0] == 'C' && name[1] == 'O' && name[2] == 'M'
            && name[3] == '6');
        assert(spelled(stem.take(3), seq!['c', 'o', 'm']));
        assert(names_device(stem));
    }
    if stem.len() == 4 && stem[3] == '6' && spelled(stem.take(3), seq!['c', 'o', 'm']) {
        assert(name =~= "COM6"@);
    }
    if name == "COM7"@ {
        assert("COM7"@.len() == 4 && name.len() == stem.len());
        assert(stem.len() == 4 && name[0] == 'C' && name[1] == 'O' && name[2] == 'M'
            && name[3] == '7');
        assert(spelled(stem.take(3), seq!['c', 'o', 'm']));
        assert(names_device(stem));
    }
    if stem.len() == 4 && stem[3] == '7' && spelled(stem.take(3), seq!['c', 'o', 'm']) {
        assert(name =~= "COM7"@);
    }
    if name == "COM8"@ {
        assert("COM8"@.len() == 4 && name.len() == stem.len());
        assert(stem.len() == 4 && name[0] == 'C' && name[1] == 'O' && name[2] == 'M'
            && name[3] == '8');
        assert(spelled(stem.take(3), seq!['c', 'o', 'm']));
        assert(names_device(stem));
    }
    if stem.len() == 4 && stem[3] == '8' && spelled(stem.take(3), seq!['c', 'o', 'm']) {
        assert(name =~= "COM8"@);
    }
    if name == "COM9"@ {
        assert("COM9"@.len() == 4 && name.len() == stem.len());
        assert(stem.len() == 4 && name[0] == 'C' && name[1] == 'O' && name[2] == 'M'
            && name[3] == '9');
        assert(spelled(stem.take(3), seq!['c', 'o', 'm']));
        assert(names_device(stem));
    }
    if stem.len() == 4 && stem[3] == '9' && spelled(stem.take(3), seq!['c', 'o', 'm']) {
        assert(name =~= "COM9"@);
    }
    if name == "LPT1"@ {
        assert("LPT1"@.len() == 4 && name.len() == stem.len());
        assert(stem.len() == 4 && name[0] == 'L' && name[1] == 'P' && name[2] == 'T'
            && name[3] == '1');
        assert(spelled(stem.take(3), seq!['l', 'p', 't']));
        assert(names_device(stem));
    }
    if stem.len() == 4 && stem[3] == '1' && spelled(stem.take(3), seq!['l', 'p', 't']) {
        assert(name =~= "LPT1"@);
    }
    if name == "LPT2"@ {
        assert("LPT2"@.len() == 4 && name.len() == stem.len());
        assert(stem.len() == 4 && name[0] == 'L' && name[1] == 'P' && name[2] == 'T'
            && name[3] == '2');
        assert(spelled(stem.take(3), seq!['l', 'p', 't']));
        assert(names_device(stem));
    }
    if stem.len() == 4 && stem[3] == '2' && spelled(stem.take(3), seq!['l', 'p', 't']) {
        assert(name =~= "LPT2"@);
    }
    if name == "LPT3"@ {
        assert("LPT3"@.len() == 4 && name.len() == stem.len());
        assert(stem.len() == 4 && name[0] == 'L' && name[1] == 'P' && name[2] == 'T'
            && name[3] == '3');
        assert(spelled(stem.take(3), seq!['l', 'p', 't']));
        assert(names_device(stem));
    }
    if stem.len() == 4 && stem[3] == '3' && spelled(stem.take(3), seq!['l', 'p', 't']) {
        assert(name =~= "LPT3"@);
    }
    if name == "LPT4"@ {
        assert("LPT4"@.len() == 4 && name.len() == stem.len());
        assert(stem.len() == 4 && name[0] == 'L' && name[1] == 'P' && name[2] == 'T'
            && name[3] == '4');
        assert(spelled(stem.take(3), seq!['l', 'p', 't']));
        assert(names_device(stem));
    }
    if stem.len() == 4 && stem[3] == '4' && spelled(stem.take(3), seq!['l', 'p', 't']) {
        assert(name =~= "LPT4"@);
    }
    if name == "LPT5"@ {
        assert("LPT5"@.len() == 4 && name.len() == stem.len());
        assert(stem.len() == 4 && name[0] == 'L' && name[1] == 'P' && name[2] == 'T'
            && name[3] == '5');
        assert(spelled(stem.take(3), seq!['l', 'p', 't']));
        assert(names_device(stem));
    }
    if stem.len() == 4 && stem[3] == '5' && spelled(stem.take(3), seq!['l', 'p', 't']) {
        assert(name =~= "LPT5"@);
    }
    if name == "LPT6"@ {
        assert("LPT6"@.len() == 4 && name.len() == stem.len());
        assert(stem.len() == 4 && name[0] == 'L' && name[1] == 'P' && name[2] == 'T'
            && name[3] == '6');
        assert(spelled(stem.take(3), seq!['l', 'p', 't']));
        assert(names_device(stem));
    }
    if stem.len() == 4 && stem[3] == '6' && spelled(stem.take(3), seq!['l', 'p', 't']) {
        assert(name =~= "LPT6"@);
    }
    if name == "LPT7"@ {
        assert("LPT7"@.len() == 4 && name.len() == stem.len());
        assert(stem.len() == 4 && name[0] == 'L' && name[1] == 'P' && name[2] == 'T'
            && name[3] == '7');
        assert(spelled(stem.take(3), seq!['l', 'p', 't']));
        assert(names_device(stem));
    }
    if stem.len() == 4 && stem[3] == '7' && spelled(stem.take(3), seq!['l', 'p', 't']) {
        assert(name =~= "LPT7"@);
    }
    if name == "LPT8"@ {
        assert("LPT8"@.len() == 4 && name.len() == stem.len());
        assert(stem.len() == 4 && name[0] == 'L' && name[1] == 'P' && name[2] == 'T'
            && name[3] == '8');
        assert(spelled(stem.take(3), seq!['l', 'p', 't']));
        assert(names_device(stem));
    }
    if stem.len() == 4 && stem[3] == '8' && spelled(stem.take(3), seq!['l', 'p', 't']) {
        assert(name =~= "LPT8"@);
    }
    if name == "LPT9"@ {
        assert("LPT9"@.len() == 4 && name.len() == stem.len());
        assert(stem.len() == 4 && name[0] == 'L' && name[1] == 'P' && name[2] == 'T'
            && name[3] == '9');
        assert(spelled(stem.take(3), seq!['l', 'p', 't']));
        assert(names_device(stem));
    }
    if stem.len() == 4 && stem[3] == '9' && spelled(stem.take(3), seq!['l', 'p', 't']) {
        assert(name =~= "LPT9"@);
    }
}

/// A character that a name may hold: no control character and no separator.
pub open spec fn may_stand(c: char) -> bool {
    ' ' <= c && !('\u{7f}' <= c <= '\u{9f}') && c != '/' && c != '\\' && c != ':'
}

proof fn lemma_tail_cut(core: Seq<char>, tail: Seq<char>)
    requires
        core.len() > 0 ==> core.last() != '.' && core.last() != ' ' && !is_white_char(core.last()),
        forall|i: int| 0 <= i < tail.len() ==> #[trigger] tail[i] == '.' || tail[i] == ' ',
    ensures
        without_tail(core + tail) == core,
        without_tail(trimmed_end(core + tail)) == core,
    decreases tail.len(),
{
    let all = core + tail;
    if tail.len() == 0 {
        assert(all =~= core);
    } else {
        let front = tail.drop_last();
        assert forall|i: int| 0 <= i < front.len() implies #[trigger] front[i] == '.' || front[i]
            == ' ' by {
            assert(front[i] == tail[i]);
        }
        lemma_tail_cut(core, front);
        assert(all.drop_last() =~= core + front);
        assert(all.last() == tail[tail.len() - 1]);
        if !is_white_char(all.last()) {
            assert(trimmed_end(all) == all);
        } else {
            assert(trimmed_end(all) == trimmed_end(all.drop_last()));
        }
    }
}

proof fn lemma_trim_front(front: Seq<char>, rest: Seq<char>)
    requires
        forall|i: int| 0 <= i < front.len() ==> is_white_char(#[trigger] front[i]),
        rest.len() > 0 ==> !is_white_char(rest[0]),
    ensures
        trimmed_start(front + rest) == rest,
    decreases front.len(),
{
    let all = front + rest;
    if front.len() > 0 {
        let tail = front.skip(1);
        assert forall|i: int| 0 <= i < tail.len() implies is_white_char(#[trigger] tail[i]) by {
            assert(tail[i] == front[i + 1]);
        }
        lemma_trim_front(tail, rest);
        assert(all[0] == front[0]);
        assert(all.skip(1) =~= tail + rest);
    } else {
        assert(all =~= rest);
    }
}

/// The name is a sequence of its own: it neither begins nor ends with white space
/// and does not end with a dot.
pub open spec fn is_core(name: Seq<char>) -> bool {
    name.len() > 0 && !is_white_char(name[0]) && !is_white_char(name.last()) && name.last() != '.'
}

/// Names are kept as they are, but for white space before them and for dots and spaces
/// behind them: every name without separators and control characters, of at most
/// 240 bytes, whose first part is no device.
pub proof fn ordinary_names_are_kept(front: Seq<char>, name: Seq<char>, tail: Seq<char>)
    requires
        is_core(name),
        forall|i: int| 0 <= i < name.len() ==> may_stand(#[trigger] name[i]),
        forall|i: int|
            0 <= i < front.len() ==> is_white_char(#[trigger] front[i]) && may_stand(front[i]),
        forall|i: int| 0 <= i < tail.len() ==> #[trigger] tail[i] == '.' || tail[i] == ' ',
        encode_utf8(name).len() <= 240,
        !names_device(before_first(name, '.')),
    ensures
        safe_name(name) == Some(name),
        safe_name(front + name + tail) == Some(name),
{
    lemma_cut(front, name, tail);
    lemma_device(before_first(name, '.'));
    let none = Seq::<char>::empty();
    lemma_cut(none, name, none);
    assert(none + name + none =~= name);
    assert forall|i: int| 0 <= i < name.len() implies !forbidden_char(#[trigger] name[i]) by {
        assert(may_stand(name[i]));
    }
    let all = front + name + tail;
    assert forall|i: int| 0 <= i < all.len() implies !forbidden_char(#[trigger] all[i]) by {
        if i < front.len() {
            assert(all[i] == front[i]);
        } else if i < front.len() + name.len() {
            assert(all[i] == name[i - front.len()]);
            assert(may_stand(name[i - front.len()]));
        } else {
            assert(all[i] == tail[i - front.len() - name.len()]);
        }
    }
}

proof fn lemma_cut(front: Seq<char>, name: Seq<char>, tail: Seq<char>)
    requires
        is_core(name),
        forall|i: int| 0 <= i < front.len() ==> is_white_char(#[trigger] front[i]),
        forall|i: int| 0 <= i < tail.len() ==> #[trigger] tail[i] == '.' || tail[i] == ' ',
    ensures
        without_tail(trimmed(front + name + tail)) == name,
{
    lemma_tail_cut(name, tail);
    assert((name + tail)[0] == name[0]);
    lemma_trim_front(front, name + tail);
    assert(front + name + tail =~= front + (name + tail));
}

/// A name with a separator or a control character anywhere is refused.
pub proof fn separators_are_refused(raw: Seq<char>, i: int)
    requires
        0 <= i < raw.len(),
        !may_stand(raw[i]),
    ensures
        safe_name(raw) is None,
{
    assert(forbidden_char(raw[i]));
}

/// Device names are refused in either case and with any extension, and so are
/// names of more than 240 bytes.
pub proof fn devices_and_long_names_are_refused(front: Seq<char>, name: Seq<char>, tail: Seq<char>)
    requires
        is_core(name),
        forall|i: int| 0 <= i < front.len() ==> is_white_char(#[trigger] front[i]),
        forall|i: int| 0 <= i < tail.len() ==> #[trigger] tail[i] == '.' || tail[i] == ' ',
        names_device(before_first(name, '.')) || encode_utf8(name).len() > 240,
    ensures
        safe_name(front + name + tail) is None,
{
    lemma_cut(front, name, tail);
    lemma_device(before_first(name, '.'));
}

/// Names of nothing but dots and spaces are refused: that is the empty name, the
/// folder itself and the folder above it.
pub proof fn dots_are_refused(front: Seq<char>, tail: Seq<char>)
    requires
        forall|i: int| 0 <= i < front.len() ==> #[trigger] front[i] == ' ',
        forall|i: int| 0 <= i < tail.len() ==> #[trigger] tail[i] == '.' || tail[i] == ' ',
        tail.len() > 0 ==> tail[0] == '.',
    ensures
        safe_name(front + tail) is None,
{
    lemma_trim_front(front, tail);
    let none = Seq::<char>::empty();
    lemma_tail_cut(none, tail);
    assert(none + tail =~= tail);
}

} // verus!
