//! Kinds of files, told from their first bytes, their names and their media
//! types.

use crate::bytes::{has_prefix, same_bytes, starts_with};
use crate::text::{
    after, after_last, begins_with, chars_of, decimal, decimal_text, lemma_spelled, lower, lowered,
    same_text, spelled, str_begins_with, string_of,
};
use vstd::prelude::*;
use vstd::slice::slice_subrange;

verus! {

/// The coarse kind of a file, by which an inbox can be sorted.
#[derive(Debug, Clone, Copy, PartialEq, Eq, Structural)]
pub enum MediaKind {
    Photo,
    Video,
    Audio,
    Other,
}

/// The folder of a kind, where it has one.
pub open spec fn subdir_name(kind: MediaKind) -> Option<Seq<char>> {
    match kind {
        MediaKind::Photo => Some("Photos"@),
        MediaKind::Video => Some("Videos"@),
        MediaKind::Audio => Some("Audio"@),
        MediaKind::Other => None,
    }
}

/// The number of a kind in a Quick Share introduction.
pub open spec fn share_type(kind: MediaKind) -> i32 {
    match kind {
        MediaKind::Photo => 1,
        MediaKind::Video => 2,
        MediaKind::Audio => 4,
        MediaKind::Other => 5,
    }
}

impl MediaKind {
    pub fn subdir(self) -> (folder: Option<&'static str>)
        ensures
            match subdir_name(self) {
                Some(name) => folder is Some && folder->0@ == name,
                None => folder is None,
            },
    {
        match self {
            Self::Photo => Some("Photos"),
            Self::Video => Some("Videos"),
            Self::Audio => Some("Audio"),
            Self::Other => None,
        }
    }

    /// The number of the kind in a Quick Share introduction.
    pub fn quickshare_type(self) -> (number: i32)
        ensures
            number == share_type(self),
    {
        match self {
            Self::Photo => 1,
            Self::Video => 2,
            Self::Audio => 4,
            Self::Other => 5,
        }
    }
}

/// The four bytes of `bytes` from `at` on are `mark`.
pub open spec fn mark_at(bytes: Seq<u8>, at: int, mark: Seq<u8>) -> bool {
    at + 4 <= bytes.len() && bytes.subrange(at, at + 4) == mark
}

/// What a file's first bytes say it is.
pub open spec fn magic_type(header: Seq<u8>) -> Option<(MediaKind, Seq<char>)> {
    let riff = header.len() >= 12 && mark_at(header, 0, seq![0x52u8, 0x49, 0x46, 0x46]);
    if has_prefix(header, seq![0xFFu8, 0xD8, 0xFF]) {
        Some((MediaKind::Photo, "image/jpeg"@))
    } else if has_prefix(header, seq![0x89u8, 0x50, 0x4E, 0x47, 0x0D, 0x0A, 0x1A, 0x0A]) {
        Some((MediaKind::Photo, "image/png"@))
    } else if has_prefix(header, seq![0x47u8, 0x49, 0x46, 0x38, 0x37, 0x61]) || has_prefix(
        header,
        seq![0x47u8, 0x49, 0x46, 0x38, 0x39, 0x61],
    ) {
        Some((MediaKind::Photo, "image/gif"@))
    } else if riff && mark_at(header, 8, seq![0x57u8, 0x45, 0x42, 0x50]) {
        Some((MediaKind::Photo, "image/webp"@))
    } else if riff && mark_at(header, 8, seq![0x41u8, 0x56, 0x49, 0x20]) {
        Some((MediaKind::Video, "video/x-msvideo"@))
    } else if has_prefix(header, seq![0x1Au8, 0x45, 0xDF, 0xA3]) {
        Some((MediaKind::Video, "video/webm"@))
    } else if has_prefix(header, seq![0x49u8, 0x44, 0x33]) || has_prefix(
        header,
        seq![0xFFu8, 0xFB],
    ) {
        Some((MediaKind::Audio, "audio/mpeg"@))
    } else if has_prefix(header, seq![0x66u8, 0x4C, 0x61, 0x43]) {
        Some((MediaKind::Audio, "audio/flac"@))
    } else if has_prefix(header, seq![0x4Fu8, 0x67, 0x67, 0x53]) {
        Some((MediaKind::Audio, "audio/ogg"@))
    } else if header.len() >= 12 && mark_at(header, 4, seq![0x66u8, 0x74, 0x79, 0x70]) {
        Some(brand_type(header.subrange(8, 12)))
    } else {
        None
    }
}

/// What the brand of an ISO media file says it is.
pub open spec fn brand_type(brand: Seq<u8>) -> (MediaKind, Seq<char>) {
    if brand == seq![0x68u8, 0x65, 0x69, 0x63] || brand == seq![0x68u8, 0x65, 0x69, 0x78] || brand
        == seq![0x68u8, 0x65, 0x76, 0x63] || brand == seq![0x68u8, 0x65, 0x76, 0x78] || brand
        == seq![0x6Du8, 0x69, 0x66, 0x31] || brand == seq![0x6Du8, 0x73, 0x66, 0x31] {
        (MediaKind::Photo, "image/heic"@)
    } else if brand == seq![0x61u8, 0x76, 0x69, 0x66] || brand == seq![0x61u8, 0x76, 0x69, 0x73] {
        (MediaKind::Photo, "image/avif"@)
    } else if brand == seq![0x71u8, 0x74, 0x20, 0x20] {
        (MediaKind::Video, "video/quicktime"@)
    } else {
        (MediaKind::Video, "video/mp4"@)
    }
}

/// What a file's name says it is: the part after the last dot, or all of a name
/// without a dot.
pub open spec fn extension_type(file_name: Seq<char>) -> Option<(MediaKind, Seq<char>)> {
    let ext = lowered(after_last(file_name, '.'));
    if ext == "jpg"@ || ext == "jpeg"@ {
        Some((MediaKind::Photo, "image/jpeg"@))
    } else if ext == "png"@ {
        Some((MediaKind::Photo, "image/png"@))
    } else if ext == "gif"@ {
        Some((MediaKind::Photo, "image/gif"@))
    } else if ext == "webp"@ {
        Some((MediaKind::Photo, "image/webp"@))
    } else if ext == "heic"@ || ext == "heif"@ {
        Some((MediaKind::Photo, "image/heic"@))
    } else if ext == "mp4"@ || ext == "m4v"@ {
        Some((MediaKind::Video, "video/mp4"@))
    } else if ext == "mov"@ {
        Some((MediaKind::Video, "video/quicktime"@))
    } else if ext == "webm"@ {
        Some((MediaKind::Video, "video/webm"@))
    } else if ext == "mkv"@ {
        Some((MediaKind::Video, "video/x-matroska"@))
    } else if ext == "avi"@ {
        Some((MediaKind::Video, "video/x-msvideo"@))
    } else if ext == "mp3"@ {
        Some((MediaKind::Audio, "audio/mpeg"@))
    } else if ext == "m4a"@ {
        Some((MediaKind::Audio, "audio/mp4"@))
    } else if ext == "flac"@ {
        Some((MediaKind::Audio, "audio/flac"@))
    } else if ext == "wav"@ {
        Some((MediaKind::Audio, "audio/wav"@))
    } else {
        None
    }
}

/// What a file is: by its first bytes, else by its name, else plain bytes.
pub open spec fn sniffed(header: Seq<u8>, file_name: Seq<char>) -> (MediaKind, Seq<char>) {
    match magic_type(header) {
        Some(found) => found,
        None => match extension_type(file_name) {
            Some(found) => found,
            None => (MediaKind::Other, "application/octet-stream"@),
        },
    }
}

/// A found kind and type, by their views.
pub open spec fn found_view(found: (MediaKind, &'static str)) -> (MediaKind, Seq<char>) {
    (found.0, found.1@)
}

/// Identifies a file from a short header and its name.
pub fn sniff(header: &[u8], file_name: &str) -> (found: (MediaKind, &'static str))
    ensures
        found_view(found) == sniffed(header@, file_name@),
{
    if let Some(found) = sniff_magic(header) {
        return found;
    }
    match sniff_extension(file_name) {
        Some(found) => found,
        None => (MediaKind::Other, "application/octet-stream"),
    }
}

fn has_mark(bytes: &[u8], at: usize, mark: [u8; 4]) -> (found: bool)
    requires
        at <= 8,
        at + 4 <= bytes@.len(),
    ensures
        found == mark_at(bytes@, at as int, mark@),
{
    same_bytes(slice_subrange(bytes, at, at + 4), &mark)
}

fn sniff_magic(header: &[u8]) -> (found: Option<(MediaKind, &'static str)>)
    ensures
        match magic_type(header@) {
            Some(expected) => found is Some && found_view(found->0) == expected,
            None => found is None,
        },
{
    if starts_with(header, &[0xFF, 0xD8, 0xFF]) {
        return Some((MediaKind::Photo, "image/jpeg"));
    }
    if starts_with(header, &[0x89, 0x50, 0x4E, 0x47, 0x0D, 0x0A, 0x1A, 0x0A]) {
        return Some((MediaKind::Photo, "image/png"));
    }
    if starts_with(header, &[0x47, 0x49, 0x46, 0x38, 0x37, 0x61]) || starts_with(
        header,
        &[0x47, 0x49, 0x46, 0x38, 0x39, 0x61],
    ) {
        return Some((MediaKind::Photo, "image/gif"));
    }
    let riff = header.len() >= 12 && has_mark(header, 0, [0x52, 0x49, 0x46, 0x46]);
    if riff && has_mark(header, 8, [0x57, 0x45, 0x42, 0x50]) {
        return Some((MediaKind::Photo, "image/webp"));
    }
    if riff && has_mark(header, 8, [0x41, 0x56, 0x49, 0x20]) {
        return Some((MediaKind::Video, "video/x-msvideo"));
    }
    if starts_with(header, &[0x1A, 0x45, 0xDF, 0xA3]) {
        return Some((MediaKind::Video, "video/webm"));
    }
    if starts_with(header, &[0x49, 0x44, 0x33]) || starts_with(header, &[0xFF, 0xFB]) {
        return Some((MediaKind::Audio, "audio/mpeg"));
    }
    if starts_with(header, &[0x66, 0x4C, 0x61, 0x43]) {
        return Some((MediaKind::Audio, "audio/flac"));
    }
    if starts_with(header, &[0x4F, 0x67, 0x67, 0x53]) {
        return Some((MediaKind::Audio, "audio/ogg"));
    }
    if header.len() >= 12 && has_mark(header, 4, [0x66, 0x74, 0x79, 0x70]) {
        return Some(sniff_brand(slice_subrange(header, 8, 12)));
    }
    None
}

fn sniff_brand(brand: &[u8]) -> (found: (MediaKind, &'static str))
    requires
        brand@.len() == 4,
    ensures
        found_view(found) == brand_type(brand@),
{
    if same_bytes(brand, &[0x68, 0x65, 0x69, 0x63]) || same_bytes(brand, &[0x68, 0x65, 0x69, 0x78])
        || same_bytes(brand, &[0x68, 0x65, 0x76, 0x63]) || same_bytes(
        brand,
        &[0x68, 0x65, 0x76, 0x78],
    ) || same_bytes(brand, &[0x6D, 0x69, 0x66, 0x31]) || same_bytes(
        brand,
        &[0x6D, 0x73, 0x66, 0x31],
    ) {
        (MediaKind::Photo, "image/heic")
    } else if same_bytes(brand, &[0x61, 0x76, 0x69, 0x66]) || same_bytes(
        brand,
        &[0x61, 0x76, 0x69, 0x73],
    ) {
        (MediaKind::Photo, "image/avif")
    } else if same_bytes(brand, &[0x71, 0x74, 0x20, 0x20]) {
        (MediaKind::Video, "video/quicktime")
    } else {
        (MediaKind::Video, "video/mp4")
    }
}

fn sniff_extension(file_name: &str) -> (found: Option<(MediaKind, &'static str)>)
    ensures
        match extension_type(file_name@) {
            Some(expected) => found is Some && found_view(found->0) == expected,
            None => found is None,
        },
{
    let chars = lower(after(chars_of(file_name).as_slice(), '.').as_slice());
    let text = string_of(chars.as_slice());
    let ext = text.as_str();
    if same_text(ext, "jpg") || same_text(ext, "jpeg") {
        Some((MediaKind::Photo, "image/jpeg"))
    } else if same_text(ext, "png") {
        Some((MediaKind::Photo, "image/png"))
    } else if same_text(ext, "gif") {
        Some((MediaKind::Photo, "image/gif"))
    } else if same_text(ext, "webp") {
        Some((MediaKind::Photo, "image/webp"))
    } else if same_text(ext, "heic") || same_text(ext, "heif") {
        Some((MediaKind::Photo, "image/heic"))
    } else if same_text(ext, "mp4") || same_text(ext, "m4v") {
        Some((MediaKind::Video, "video/mp4"))
    } else if same_text(ext, "mov") {
        Some((MediaKind::Video, "video/quicktime"))
    } else if same_text(ext, "webm") {
        Some((MediaKind::Video, "video/webm"))
    } else if same_text(ext, "mkv") {
        Some((MediaKind::Video, "video/x-matroska"))
    } else if same_text(ext, "avi") {
        Some((MediaKind::Video, "video/x-msvideo"))
    } else if same_text(ext, "mp3") {
        Some((MediaKind::Audio, "audio/mpeg"))
    } else if same_text(ext, "m4a") {
        Some((MediaKind::Audio, "audio/mp4"))
    } else if same_text(ext, "flac") {
        Some((MediaKind::Audio, "audio/flac"))
    } else if same_text(ext, "wav") {
        Some((MediaKind::Audio, "audio/wav"))
    } else {
        None
    }
}

/// The kind that a media type names.
pub open spec fn mime_kind(mime: Seq<char>) -> MediaKind {
    if begins_with(mime, "image/"@) {
        MediaKind::Photo
    } else if begins_with(mime, "video/"@) {
        MediaKind::Video
    } else if begins_with(mime, "audio/"@) {
        MediaKind::Audio
    } else {
        MediaKind::Other
    }
}

pub fn kind_of_mime(mime: &str) -> (kind: MediaKind)
    ensures
        kind == mime_kind(mime@),
{
    if str_begins_with(mime, "image/") {
        MediaKind::Photo
    } else if str_begins_with(mime, "video/") {
        MediaKind::Video
    } else if str_begins_with(mime, "audio/") {
        MediaKind::Audio
    } else {
        MediaKind::Other
    }
}

/// The uniform type identifier of a media type.
pub open spec fn uniform_type_name(mime: Seq<char>) -> Seq<char> {
    if mime == "image/jpeg"@ {
        "public.jpeg"@
    } else if mime == "image/png"@ {
        "public.png"@
    } else if mime == "image/gif"@ {
        "com.compuserve.gif"@
    } else if mime == "image/heic"@ {
        "public.heic"@
    } else if mime == "image/webp"@ {
        "org.webmproject.webp"@
    } else if mime == "video/mp4"@ {
        "public.mpeg-4"@
    } else if mime == "video/quicktime"@ {
        "com.apple.quicktime-movie"@
    } else if mime == "video/webm"@ {
        "org.webmproject.webm"@
    } else if mime == "audio/mpeg"@ {
        "public.mp3"@
    } else if mime == "audio/mp4"@ {
        "public.mpeg-4-audio"@
    } else {
        "public.data"@
    }
}

/// Apple's uniform type identifier of a media type.
pub fn uniform_type(mime: &str) -> (identifier: &'static str)
    ensures
        identifier@ == uniform_type_name(mime@),
{
    if same_text(mime, "image/jpeg") {
        "public.jpeg"
    } else if same_text(mime, "image/png") {
        "public.png"
    } else if same_text(mime, "image/gif") {
        "com.compuserve.gif"
    } else if same_text(mime, "image/heic") {
        "public.heic"
    } else if same_text(mime, "image/webp") {
        "org.webmproject.webp"
    } else if same_text(mime, "video/mp4") {
        "public.mpeg-4"
    } else if same_text(mime, "video/quicktime") {
        "com.apple.quicktime-movie"
    } else if same_text(mime, "video/webm") {
        "org.webmproject.webm"
    } else if same_text(mime, "audio/mpeg") {
        "public.mp3"
    } else if same_text(mime, "audio/mp4") {
        "public.mpeg-4-audio"
    } else {
        "public.data"
    }
}

/// A number in units of `step`, to the nearest; of two that are as near, the even
/// one.
pub open spec fn half_even(value: nat, step: nat) -> nat {
    let low = value / step;
    let rest = 2 * (value % step);
    if rest < step || (rest == step && low % 2 == 0) {
        low
    } else {
        low + 1
    }
}

fn round_half_even(value: u128, step: u128) -> (rounded: u128)
    requires
        0 < step < u128::MAX / 2,
        value < u128::MAX,
    ensures
        rounded == half_even(value as nat, step as nat),
{
    let low: u128 = value / step;
    let rest: u128 = 2 * (value % step);
    if rest < step || (rest == step && low % 2 == 0) {
        low
    } else {
        assert(low <= value) by (nonlinear_arith)
            requires
                low == value / step,
                0 < step,
                0 <= value,
        ;
        low + 1
    }
}

/// The number that 53 bits are kept of.
pub const EXACT: u128 = 0x20_0000_0000_0000;

/// The power of two in whose units a number takes at most 53 bits.
pub open spec fn grain(value: nat) -> nat
    decreases value,
{
    if value < EXACT {
        1
    } else {
        2 * grain(value / 2)
    }
}

/// The number with 53 significant bits, to the nearest.
pub open spec fn significant(value: nat) -> nat {
    half_even(value, grain(value)) * grain(value)
}

/// The power of 1024 that a size is told in, and the name of the unit.
pub open spec fn unit_of(value: nat) -> (nat, Seq<char>) {
    if value < 1024 {
        (1, "B"@)
    } else if value < 1024 * 1024 {
        (1024, "KB"@)
    } else if value < 1024 * 1024 * 1024 {
        (1024 * 1024, "MB"@)
    } else if value < 1024 * 1024 * 1024 * 1024 {
        (1024 * 1024 * 1024, "GB"@)
    } else {
        (1024 * 1024 * 1024 * 1024, "TB"@)
    }
}

/// A size in words: whole bytes, or tenths of a unit.
pub open spec fn size_text(bytes: nat) -> Seq<char> {
    let value = significant(bytes);
    let (step, unit) = unit_of(value);
    if step == 1 {
        decimal_text(bytes) + " "@ + unit
    } else {
        let tenths = half_even(value * 10, step);
        decimal_text(tenths / 10) + "."@ + decimal_text(tenths % 10) + " "@ + unit
    }
}

fn find_grain(value: u64) -> (step: u64)
    ensures
        step == grain(value as nat),
        1 <= step <= 2048,
    decreases value,
{
    reveal_with_fuel(grain, 13);
    if (value as u128) < EXACT {
        1
    } else {
        let step: u64 = find_grain(value / 2);
        assert(step <= 1024) by {
            reveal_with_fuel(grain, 12);
        }
        2 * step
    }
}

/// A size in words.
pub fn human_size(bytes: u64) -> (text: String)
    ensures
        text@ == size_text(bytes as nat),
{
    let grain: u128 = find_grain(bytes) as u128;
    let kept: u128 = round_half_even(bytes as u128, grain);
    assert(kept <= bytes + 1) by {
        assert(bytes as int / grain as int <= bytes) by (nonlinear_arith)
            requires
                1 <= grain,
        ;
    }
    assert(kept * grain <= 0x2_0000_0000_0000_0000 * 2048) by (nonlinear_arith)
        requires
            kept <= 0x2_0000_0000_0000_0000,
            grain <= 2048,
    ;
    let value: u128 = kept * grain;
    if value < 1024 {
        let mut text = decimal(bytes);
        text.append(" B");
        proof {
            reveal_strlit(" B");
            reveal_strlit(" ");
            reveal_strlit("B");
            assert(" B"@ =~= " "@ + "B"@);
            assert(decimal_text(bytes as nat) + (" "@ + "B"@) =~= decimal_text(bytes as nat) + " "@
                + "B"@);
        }
        return text;
    }
    let (step, unit): (u128, &str) = if value < 1024 * 1024 {
        (1024, "KB")
    } else if value < 1024 * 1024 * 1024 {
        (1024 * 1024, "MB")
    } else if value < 1024 * 1024 * 1024 * 1024 {
        (1024 * 1024 * 1024, "GB")
    } else {
        (1024 * 1024 * 1024 * 1024, "TB")
    };
    let ghost most: int = 0x100_0000_0000;
    assert(value < most * step);
    assert(value * 10 / step as int <= 10 * most) by (nonlinear_arith)
        requires
            value < most * step,
            0 < step,
            0 <= value,
    ;
    let rounded: u128 = round_half_even(value * 10, step);
    assert(rounded <= 10 * most + 1);
    let tenths: u64 = rounded as u64;
    let mut text = decimal(tenths / 10);
    text.append(".");
    text.append(decimal(tenths % 10).as_str());
    text.append(" ");
    text.append(unit);
    text
}

/// The bytes from `at` on begin with the four given ones.
pub open spec fn four_at(bytes: Seq<u8>, at: int, a: u8, b: u8, c: u8, d: u8) -> bool {
    &&& at + 4 <= bytes.len()
    &&& bytes[at] == a
    &&& bytes[at + 1] == b
    &&& bytes[at + 2] == c
    &&& bytes[at + 3] == d
}

/// A RIFF file is told by its form type, at byte 8: `WEBP` is a photo and `AVI `
/// is a video, whatever the name. With any other form type the name decides. A
/// file is called a WebP photo only if its bytes or its name say so.
pub proof fn riff_files_are_told_by_form(header: Seq<u8>, file_name: Seq<char>)
    ensures
        four_at(header, 0, 0x52, 0x49, 0x46, 0x46) && four_at(header, 8, 0x57, 0x45, 0x42, 0x50)
            ==> sniffed(header, file_name) == (MediaKind::Photo, "image/webp"@),
        four_at(header, 0, 0x52, 0x49, 0x46, 0x46) && four_at(header, 8, 0x41, 0x56, 0x49, 0x20)
            ==> sniffed(header, file_name) == (MediaKind::Video, "video/x-msvideo"@),
        four_at(header, 0, 0x52, 0x49, 0x46, 0x46) && !four_at(header, 8, 0x57, 0x45, 0x42, 0x50)
            && !four_at(header, 8, 0x41, 0x56, 0x49, 0x20) && !four_at(
            header,
            4,
            0x66,
            0x74,
            0x79,
            0x70,
        ) ==> sniffed(header, file_name) == sniffed(Seq::empty(), file_name),
        sniffed(header, file_name).1 == "image/webp"@ ==> (four_at(
            header,
            0,
            0x52,
            0x49,
            0x46,
            0x46,
        ) && four_at(header, 8, 0x57, 0x45, 0x42, 0x50)) || sniffed(Seq::empty(), file_name).1
            == "image/webp"@,
{
    lemma_type_names();
    if header.len() >= 12 {
        lemma_four(header, 0, seq![0x52u8, 0x49, 0x46, 0x46]);
        lemma_four(header, 4, seq![0x66u8, 0x74, 0x79, 0x70]);
        lemma_four(header, 8, seq![0x57u8, 0x45, 0x42, 0x50]);
        lemma_four(header, 8, seq![0x41u8, 0x56, 0x49, 0x20]);
    }
    lemma_signatures(header);
    lemma_signatures(Seq::empty());
}

proof fn lemma_four(bytes: Seq<u8>, at: int, mark: Seq<u8>)
    requires
        0 <= at,
        at + 4 <= bytes.len(),
        mark.len() == 4,
    ensures
        mark_at(bytes, at, mark) == four_at(bytes, at, mark[0], mark[1], mark[2], mark[3]),
{
    let part = bytes.subrange(at, at + 4);
    assert(part[0] == bytes[at] && part[1] == bytes[at + 1] && part[2] == bytes[at + 2] && part[3]
        == bytes[at + 3]);
    if four_at(bytes, at, mark[0], mark[1], mark[2], mark[3]) {
        assert(part =~= mark);
    }
}

/// The first bytes of the formats that are told by their beginning.
pub open spec fn is_jpeg(h: Seq<u8>) -> bool {
    h.len() >= 3 && h[0] == 0xFF && h[1] == 0xD8 && h[2] == 0xFF
}

pub open spec fn is_png(h: Seq<u8>) -> bool {
    four_at(h, 0, 0x89, 0x50, 0x4E, 0x47) && four_at(h, 4, 0x0D, 0x0A, 0x1A, 0x0A)
}

pub open spec fn is_gif(h: Seq<u8>) -> bool {
    four_at(h, 0, 0x47, 0x49, 0x46, 0x38) && h.len() >= 6 && (h[4] == 0x37 || h[4] == 0x39) && h[5]
        == 0x61
}

pub open spec fn is_mp3(h: Seq<u8>) -> bool {
    (h.len() >= 3 && h[0] == 0x49 && h[1] == 0x44 && h[2] == 0x33) || (h.len() >= 2 && h[0] == 0xFF
        && h[1] == 0xFB)
}

/// A file whose format is known by its first bytes, but for those of ISO media.
pub open spec fn has_signature(h: Seq<u8>) -> bool {
    ||| is_jpeg(h)
    ||| is_png(h)
    ||| is_gif(h)
    ||| is_mp3(h)
    ||| four_at(h, 0, 0x52, 0x49, 0x46, 0x46) && (four_at(h, 8, 0x57, 0x45, 0x42, 0x50) || four_at(
        h,
        8,
        0x41,
        0x56,
        0x49,
        0x20,
    ))
    ||| four_at(h, 0, 0x1A, 0x45, 0xDF, 0xA3)
    ||| four_at(h, 0, 0x66, 0x4C, 0x61, 0x43)
    ||| four_at(h, 0, 0x4F, 0x67, 0x67, 0x53)
}

proof fn lemma_prefix3(h: Seq<u8>, a: u8, b: u8, c: u8)
    ensures
        has_prefix(h, seq![a, b, c]) == (h.len() >= 3 && h[0] == a && h[1] == b && h[2] == c),
{
    if h.len() >= 3 {
        let part = h.take(3);
        assert(part[0] == h[0] && part[1] == h[1] && part[2] == h[2]);
        if h[0] == a && h[1] == b && h[2] == c {
            assert(part =~= seq![a, b, c]);
        }
    }
}

proof fn lemma_prefix4(h: Seq<u8>, a: u8, b: u8, c: u8, d: u8)
    ensures
        has_prefix(h, seq![a, b, c, d]) == four_at(h, 0, a, b, c, d),
{
    if h.len() >= 4 {
        let part = h.take(4);
        assert(part[0] == h[0] && part[1] == h[1] && part[2] == h[2] && part[3] == h[3]);
        if four_at(h, 0, a, b, c, d) {
            assert(part =~= seq![a, b, c, d]);
        }
    }
}

proof fn lemma_prefix6(h: Seq<u8>, e: u8)
    ensures
        has_prefix(h, seq![0x47u8, 0x49, 0x46, 0x38, e, 0x61]) == (four_at(
            h,
            0,
            0x47,
            0x49,
            0x46,
            0x38,
        ) && h.len() >= 6 && h[4] == e && h[5] == 0x61),
{
    if h.len() >= 6 {
        let part = h.take(6);
        assert(part[0] == h[0] && part[1] == h[1] && part[2] == h[2] && part[3] == h[3] && part[4]
            == h[4] && part[5] == h[5]);
        if four_at(h, 0, 0x47, 0x49, 0x46, 0x38) && h[4] == e && h[5] == 0x61 {
            assert(part =~= seq![0x47u8, 0x49, 0x46, 0x38, e, 0x61]);
        }
    }
}

proof fn lemma_prefix8(h: Seq<u8>)
    ensures
        has_prefix(h, seq![0x89u8, 0x50, 0x4E, 0x47, 0x0D, 0x0A, 0x1A, 0x0A]) == is_png(h),
{
    if h.len() >= 8 {
        let mark = seq![0x89u8, 0x50, 0x4E, 0x47, 0x0D, 0x0A, 0x1A, 0x0A];
        let part = h.take(8);
        assert(part[0] == h[0] && part[1] == h[1] && part[2] == h[2] && part[3] == h[3] && part[4]
            == h[4] && part[5] == h[5] && part[6] == h[6] && part[7] == h[7]);
        if is_png(h) {
            assert(part =~= mark);
        }
    }
}

proof fn lemma_signatures(h: Seq<u8>)
    ensures
        has_prefix(h, seq![0xFFu8, 0xD8, 0xFF]) == is_jpeg(h),
        has_prefix(h, seq![0x89u8, 0x50, 0x4E, 0x47, 0x0D, 0x0A, 0x1A, 0x0A]) == is_png(h),
        (has_prefix(h, seq![0x47u8, 0x49, 0x46, 0x38, 0x37, 0x61]) || has_prefix(
            h,
            seq![0x47u8, 0x49, 0x46, 0x38, 0x39, 0x61],
        )) == is_gif(h),
        (has_prefix(h, seq![0x49u8, 0x44, 0x33]) || has_prefix(h, seq![0xFFu8, 0xFB])) == is_mp3(h),
        has_prefix(h, seq![0x1Au8, 0x45, 0xDF, 0xA3]) == four_at(h, 0, 0x1A, 0x45, 0xDF, 0xA3),
        has_prefix(h, seq![0x66u8, 0x4C, 0x61, 0x43]) == four_at(h, 0, 0x66, 0x4C, 0x61, 0x43),
        has_prefix(h, seq![0x4Fu8, 0x67, 0x67, 0x53]) == four_at(h, 0, 0x4F, 0x67, 0x67, 0x53),
{
    lemma_prefix3(h, 0xFF, 0xD8, 0xFF);
    lemma_prefix3(h, 0x49, 0x44, 0x33);
    lemma_prefix4(h, 0x1A, 0x45, 0xDF, 0xA3);
    lemma_prefix4(h, 0x66, 0x4C, 0x61, 0x43);
    lemma_prefix4(h, 0x4F, 0x67, 0x67, 0x53);
    lemma_prefix6(h, 0x37);
    lemma_prefix6(h, 0x39);
    lemma_prefix8(h);
    if h.len() >= 2 {
        let part = h.take(2);
        assert(part[0] == h[0] && part[1] == h[1]);
        if h[0] == 0xFF && h[1] == 0xFB {
            assert(part =~= seq![0xFFu8, 0xFB]);
        }
    }
}

/// A file of a format that is known by its first bytes is of that format,
/// whatever its name.
pub proof fn signatures_decide(h: Seq<u8>, file_name: Seq<char>)
    ensures
        is_jpeg(h) ==> sniffed(h, file_name) == (MediaKind::Photo, "image/jpeg"@),
        is_png(h) ==> sniffed(h, file_name) == (MediaKind::Photo, "image/png"@),
        is_gif(h) ==> sniffed(h, file_name) == (MediaKind::Photo, "image/gif"@),
        is_mp3(h) ==> sniffed(h, file_name) == (MediaKind::Audio, "audio/mpeg"@),
        four_at(h, 0, 0x1A, 0x45, 0xDF, 0xA3) ==> sniffed(h, file_name) == (
            MediaKind::Video,
            "video/webm"@,
        ),
        four_at(h, 0, 0x66, 0x4C, 0x61, 0x43) ==> sniffed(h, file_name) == (
            MediaKind::Audio,
            "audio/flac"@,
        ),
        four_at(h, 0, 0x4F, 0x67, 0x67, 0x53) ==> sniffed(h, file_name) == (
            MediaKind::Audio,
            "audio/ogg"@,
        ),
{
    lemma_signatures(h);
    if h.len() >= 12 {
        lemma_four(h, 0, seq![0x52u8, 0x49, 0x46, 0x46]);
    }
}

/// An ISO media file is told by its brand, at byte 8: HEIF and AVIF are photos,
/// everything else is a video.
pub proof fn brands_decide(h: Seq<u8>, file_name: Seq<char>)
    requires
        four_at(h, 4, 0x66, 0x74, 0x79, 0x70),
        h.len() >= 12,
        !has_signature(h),
    ensures
        ({
            let found = sniffed(h, file_name);
            let heif = four_at(h, 8, 0x68, 0x65, 0x69, 0x63) || four_at(h, 8, 0x68, 0x65, 0x69, 0x78)
                || four_at(h, 8, 0x68, 0x65, 0x76, 0x63) || four_at(h, 8, 0x68, 0x65, 0x76, 0x78)
                || four_at(h, 8, 0x6D, 0x69, 0x66, 0x31) || four_at(h, 8, 0x6D, 0x73, 0x66, 0x31);
            let avif = four_at(h, 8, 0x61, 0x76, 0x69, 0x66) || four_at(h, 8, 0x61, 0x76, 0x69, 0x73);
            let movie = four_at(h, 8, 0x71, 0x74, 0x20, 0x20);
            &&& heif ==> found == (MediaKind::Photo, "image/heic"@)
            &&& avif ==> found == (MediaKind::Photo, "image/avif"@)
            &&& movie ==> found == (MediaKind::Video, "video/quicktime"@)
            &&& !heif && !avif && !movie ==> found == (MediaKind::Video, "video/mp4"@)
        }),
{
    lemma_signatures(h);
    lemma_four(h, 0, seq![0x52u8, 0x49, 0x46, 0x46]);
    lemma_four(h, 4, seq![0x66u8, 0x74, 0x79, 0x70]);
    lemma_four(h, 8, seq![0x57u8, 0x45, 0x42, 0x50]);
    lemma_four(h, 8, seq![0x41u8, 0x56, 0x49, 0x20]);
    lemma_four(h, 8, seq![0x68u8, 0x65, 0x69, 0x63]);
    lemma_four(h, 8, seq![0x68u8, 0x65, 0x69, 0x78]);
    lemma_four(h, 8, seq![0x68u8, 0x65, 0x76, 0x63]);
    lemma_four(h, 8, seq![0x68u8, 0x65, 0x76, 0x78]);
    lemma_four(h, 8, seq![0x6Du8, 0x69, 0x66, 0x31]);
    lemma_four(h, 8, seq![0x6Du8, 0x73, 0x66, 0x31]);
    lemma_four(h, 8, seq![0x61u8, 0x76, 0x69, 0x66]);
    lemma_four(h, 8, seq![0x61u8, 0x76, 0x69, 0x73]);
    lemma_four(h, 8, seq![0x71u8, 0x74, 0x20, 0x20]);
}

/// A file whose first bytes say nothing is told by its name alone.
pub proof fn names_decide_otherwise(h: Seq<u8>, file_name: Seq<char>)
    requires
        !has_signature(h),
        !(h.len() >= 12 && four_at(h, 4, 0x66, 0x74, 0x79, 0x70)),
    ensures
        sniffed(h, file_name) == sniffed(Seq::empty(), file_name),
{
    lemma_signatures(h);
    lemma_signatures(Seq::empty());
    if h.len() >= 12 {
        lemma_four(h, 0, seq![0x52u8, 0x49, 0x46, 0x46]);
        lemma_four(h, 4, seq![0x66u8, 0x74, 0x79, 0x70]);
        lemma_four(h, 8, seq![0x57u8, 0x45, 0x42, 0x50]);
        lemma_four(h, 8, seq![0x41u8, 0x56, 0x49, 0x20]);
    }
}

proof fn lemma_type_names()
    ensures
        "image/jpeg"@.len() == 10,
        "image/webp"@.len() == 10,
        "image/heic"@.len() == 10,
        "image/avif"@.len() == 10,
        "image/jpeg"@[6] == 'j',
        "image/webp"@[6] == 'w',
        "image/heic"@[6] == 'h',
        "image/avif"@[6] == 'a',
        "image/png"@.len() == 9,
        "image/gif"@.len() == 9,
        "video/x-msvideo"@.len() == 15,
        "video/webm"@.len() == 10,
        "video/webm"@[0] == 'v',
        "image/webp"@[0] == 'i',
        "audio/mpeg"@.len() == 10,
        "audio/mpeg"@[0] == 'a',
        "audio/flac"@.len() == 10,
        "audio/flac"@[0] == 'a',
        "audio/ogg"@.len() == 9,
        "video/mp4"@.len() == 9,
        "video/quicktime"@.len() == 15,
{
    reveal_strlit("image/jpeg");
    reveal_strlit("image/png");
    reveal_strlit("image/gif");
    reveal_strlit("image/webp");
    reveal_strlit("image/heic");
    reveal_strlit("image/avif");
    reveal_strlit("video/x-msvideo");
    reveal_strlit("video/webm");
    reveal_strlit("video/mp4");
    reveal_strlit("video/quicktime");
    reveal_strlit("audio/mpeg");
    reveal_strlit("audio/flac");
    reveal_strlit("audio/ogg");
}

proof fn lemma_after_dot(stem: Seq<char>, ext: Seq<char>)
    requires
        !ext.contains('.'),
    ensures
        after_last(stem + seq!['.'] + ext, '.') == ext,
        after_last(ext, '.') == ext,
    decreases ext.len(),
{
    let name = stem + seq!['.'] + ext;
    if ext.len() == 0 {
        assert(name.last() == '.');
        assert(ext =~= Seq::empty());
    } else {
        let front = ext.drop_last();
        assert(!front.contains('.')) by {
            if front.contains('.') {
                let i = choose|i: int| 0 <= i < front.len() && front[i] == '.';
                assert(ext[i] == '.');
            }
        }
        lemma_after_dot(stem, front);
        assert(name.drop_last() =~= stem + seq!['.'] + front);
        assert(ext.contains(ext.last()));
        assert(front.push(ext.last()) =~= ext);
    }
}

/// What a file is taken for by a name with the given extension.
pub open spec fn named(stem: Seq<char>, ext: Seq<char>) -> (MediaKind, Seq<char>) {
    sniffed(Seq::empty(), stem + seq!['.'] + ext)
}

/// The extension decides by its letters, in either case and whatever stands
/// before it; one that is not known tells nothing. A name without a dot counts as
/// an extension.
pub proof fn extensions_decide(stem: Seq<char>, ext: Seq<char>)
    requires
        !ext.contains('.'),
    ensures
        spelled(ext, "jpg"@) ==> named(stem, ext) == (MediaKind::Photo, "image/jpeg"@),
        spelled(ext, "jpeg"@) ==> named(stem, ext) == (MediaKind::Photo, "image/jpeg"@),
        spelled(ext, "png"@) ==> named(stem, ext) == (MediaKind::Photo, "image/png"@),
        spelled(ext, "gif"@) ==> named(stem, ext) == (MediaKind::Photo, "image/gif"@),
        spelled(ext, "webp"@) ==> named(stem, ext) == (MediaKind::Photo, "image/webp"@),
        spelled(ext, "heic"@) ==> named(stem, ext) == (MediaKind::Photo, "image/heic"@),
        spelled(ext, "heif"@) ==> named(stem, ext) == (MediaKind::Photo, "image/heic"@),
        spelled(ext, "mp4"@) ==> named(stem, ext) == (MediaKind::Video, "video/mp4"@),
        spelled(ext, "m4v"@) ==> named(stem, ext) == (MediaKind::Video, "video/mp4"@),
        spelled(ext, "mov"@) ==> named(stem, ext) == (MediaKind::Video, "video/quicktime"@),
        spelled(ext, "webm"@) ==> named(stem, ext) == (MediaKind::Video, "video/webm"@),
        spelled(ext, "mkv"@) ==> named(stem, ext) == (MediaKind::Video, "video/x-matroska"@),
        spelled(ext, "avi"@) ==> named(stem, ext) == (MediaKind::Video, "video/x-msvideo"@),
        spelled(ext, "mp3"@) ==> named(stem, ext) == (MediaKind::Audio, "audio/mpeg"@),
        spelled(ext, "m4a"@) ==> named(stem, ext) == (MediaKind::Audio, "audio/mp4"@),
        spelled(ext, "flac"@) ==> named(stem, ext) == (MediaKind::Audio, "audio/flac"@),
        spelled(ext, "wav"@) ==> named(stem, ext) == (MediaKind::Audio, "audio/wav"@),
        !spelled(ext, "jpg"@)
            && !spelled(ext, "jpeg"@)
            && !spelled(ext, "png"@)
            && !spelled(ext, "gif"@)
            && !spelled(ext, "webp"@)
            && !spelled(ext, "heic"@)
            && !spelled(ext, "heif"@)
            && !spelled(ext, "mp4"@)
            && !spelled(ext, "m4v"@)
            && !spelled(ext, "mov"@)
            && !spelled(ext, "webm"@)
            && !spelled(ext, "mkv"@)
            && !spelled(ext, "avi"@)
            && !spelled(ext, "mp3"@)
            && !spelled(ext, "m4a"@)
            && !spelled(ext, "flac"@)
            && !spelled(ext, "wav"@) ==> named(stem, ext) == (MediaKind::Other, "application/octet-stream"@),
        sniffed(Seq::empty(), ext) == named(stem, ext),
{
    lemma_signatures(Seq::empty());
    lemma_after_dot(stem, ext);
    reveal_strlit("jpg");
    lemma_spelled(ext, "jpg"@);
    reveal_strlit("jpeg");
    lemma_spelled(ext, "jpeg"@);
    reveal_strlit("png");
    lemma_spelled(ext, "png"@);
    reveal_strlit("gif");
    lemma_spelled(ext, "gif"@);
    reveal_strlit("webp");
    lemma_spelled(ext, "webp"@);
    reveal_strlit("heic");
    lemma_spelled(ext, "heic"@);
    reveal_strlit("heif");
    lemma_spelled(ext, "heif"@);
    reveal_strlit("mp4");
    lemma_spelled(ext, "mp4"@);
    reveal_strlit("m4v");
    lemma_spelled(ext, "m4v"@);
    reveal_strlit("mov");
    lemma_spelled(ext, "mov"@);
    reveal_strlit("webm");
    lemma_spelled(ext, "webm"@);
    reveal_strlit("mkv");
    lemma_spelled(ext, "mkv"@);
    reveal_strlit("avi");
    lemma_spelled(ext, "avi"@);
    reveal_strlit("mp3");
    lemma_spelled(ext, "mp3"@);
    reveal_strlit("m4a");
    lemma_spelled(ext, "m4a"@);
    reveal_strlit("flac");
    lemma_spelled(ext, "flac"@);
    reveal_strlit("wav");
    lemma_spelled(ext, "wav"@);
    assert("jpg"@.len() == 3 && "jpg"@[0] == 'j' && "jpg"@[1] == 'p' && "jpg"@[2] == 'g');
    assert("jpeg"@.len() == 4 && "jpeg"@[0] == 'j' && "jpeg"@[1] == 'p' && "jpeg"@[2] == 'e'
        && "jpeg"@[3] == 'g');
    assert("png"@.len() == 3 && "png"@[0] == 'p' && "png"@[1] == 'n' && "png"@[2] == 'g');
    assert("gif"@.len() == 3 && "gif"@[0] == 'g' && "gif"@[1] == 'i' && "gif"@[2] == 'f');
    assert("webp"@.len() == 4 && "webp"@[0] == 'w' && "webp"@[1] == 'e' && "webp"@[2] == 'b'
        && "webp"@[3] == 'p');
    assert("heic"@.len() == 4 && "heic"@[0] == 'h' && "heic"@[1] == 'e' && "heic"@[2] == 'i'
        && "heic"@[3] == 'c');
    assert("heif"@.len() == 4 && "heif"@[0] == 'h' && "heif"@[1] == 'e' && "heif"@[2] == 'i'
        && "heif"@[3] == 'f');
    assert("mp4"@.len() == 3 && "mp4"@[0] == 'm' && "mp4"@[1] == 'p' && "mp4"@[2] == '4');
    assert("m4v"@.len() == 3 && "m4v"@[0] == 'm' && "m4v"@[1] == '4' && "m4v"@[2] == 'v');
    assert("mov"@.len() == 3 && "mov"@[0] == 'm' && "mov"@[1] == 'o' && "mov"@[2] == 'v');
    assert("webm"@.len() == 4 && "webm"@[0] == 'w' && "webm"@[1] == 'e' && "webm"@[2] == 'b'
        && "webm"@[3] == 'm');
    assert("mkv"@.len() == 3 && "mkv"@[0] == 'm' && "mkv"@[1] == 'k' && "mkv"@[2] == 'v');
    assert("avi"@.len() == 3 && "avi"@[0] == 'a' && "avi"@[1] == 'v' && "avi"@[2] == 'i');
    assert("mp3"@.len() == 3 && "mp3"@[0] == 'm' && "mp3"@[1] == 'p' && "mp3"@[2] == '3');
    assert("m4a"@.len() == 3 && "m4a"@[0] == 'm' && "m4a"@[1] == '4' && "m4a"@[2] == 'a');
    assert("flac"@.len() == 4 && "flac"@[0] == 'f' && "flac"@[1] == 'l' && "flac"@[2] == 'a'
        && "flac"@[3] == 'c');
    assert("wav"@.len() == 3 && "wav"@[0] == 'w' && "wav"@[1] == 'a' && "wav"@[2] == 'v');
}

/// The kind of a file is the one that its media type names.
pub proof fn kind_goes_with_type(header: Seq<u8>, file_name: Seq<char>)
    ensures
        ({
            let (kind, mime) = sniffed(header, file_name);
            &&& mime.len() > 6
            &&& kind == MediaKind::Photo <==> mime.take(6) == seq!['i', 'm', 'a', 'g', 'e', '/']
            &&& kind == MediaKind::Video <==> mime.take(6) == seq!['v', 'i', 'd', 'e', 'o', '/']
            &&& kind == MediaKind::Audio <==> mime.take(6) == seq!['a', 'u', 'd', 'i', 'o', '/']
            &&& mime_kind(mime) == kind
        }),
{
    reveal_strlit("application/octet-stream");
    reveal_strlit("audio/");
    reveal_strlit("audio/flac");
    reveal_strlit("audio/mp4");
    reveal_strlit("audio/mpeg");
    reveal_strlit("audio/ogg");
    reveal_strlit("audio/wav");
    reveal_strlit("image/");
    reveal_strlit("image/avif");
    reveal_strlit("image/gif");
    reveal_strlit("image/heic");
    reveal_strlit("image/jpeg");
    reveal_strlit("image/png");
    reveal_strlit("image/webp");
    reveal_strlit("video/");
    reveal_strlit("video/mp4");
    reveal_strlit("video/quicktime");
    reveal_strlit("video/webm");
    reveal_strlit("video/x-matroska");
    reveal_strlit("video/x-msvideo");
    let mime = sniffed(header, file_name).1;
    kinds_of_types(mime);
    let head = mime.take(6);
    assert(head[0] == mime[0] && head[1] == mime[1] && head[2] == mime[2] && head[3] == mime[3]
        && head[4] == mime[4] && head[5] == mime[5]);
    if sniffed(header, file_name).0 == MediaKind::Photo {
        assert(head =~= seq!['i', 'm', 'a', 'g', 'e', '/']);
    } else if sniffed(header, file_name).0 == MediaKind::Video {
        assert(head =~= seq!['v', 'i', 'd', 'e', 'o', '/']);
    } else if sniffed(header, file_name).0 == MediaKind::Audio {
        assert(head =~= seq!['a', 'u', 'd', 'i', 'o', '/']);
    }
}

/// A media type is of the kind that its first six characters name, in lower case,
/// and of no kind where they name none.
pub proof fn kinds_of_types(mime: Seq<char>)
    ensures
        mime_kind(mime) == MediaKind::Photo <==> mime.len() >= 6 && mime.take(6) == seq![
            'i', 'm', 'a', 'g', 'e', '/',
        ],
        mime_kind(mime) == MediaKind::Video <==> mime.len() >= 6 && mime.take(6) == seq![
            'v', 'i', 'd', 'e', 'o', '/',
        ],
        mime_kind(mime) == MediaKind::Audio <==> mime.len() >= 6 && mime.take(6) == seq![
            'a', 'u', 'd', 'i', 'o', '/',
        ],
{
    reveal_strlit("image/");
    reveal_strlit("video/");
    reveal_strlit("audio/");
    assert("image/"@ =~= seq!['i', 'm', 'a', 'g', 'e', '/']);
    assert("video/"@ =~= seq!['v', 'i', 'd', 'e', 'o', '/']);
    assert("audio/"@ =~= seq!['a', 'u', 'd', 'i', 'o', '/']);
    assert(seq!['i', 'm', 'a', 'g', 'e', '/'][0] == 'i');
    assert(seq!['v', 'i', 'd', 'e', 'o', '/'][0] == 'v');
    assert(seq!['a', 'u', 'd', 'i', 'o', '/'][0] == 'a');
}

/// Photos, videos and audio have folders of their own; what is none of these has
/// no folder.
pub proof fn folders_tell_kinds(kind: MediaKind, other: MediaKind)
    ensures
        subdir_name(kind) is None <==> kind == MediaKind::Other,
        kind == MediaKind::Photo ==> subdir_name(kind) == Some("Photos"@),
        kind == MediaKind::Video ==> subdir_name(kind) == Some("Videos"@),
        kind == MediaKind::Audio ==> subdir_name(kind) == Some("Audio"@),
        subdir_name(kind) == subdir_name(other) ==> kind == other,
        share_type(kind) == share_type(other) ==> kind == other,
        1 <= share_type(kind) <= 5 && share_type(kind) != 3,
        kind == MediaKind::Photo ==> share_type(kind) == 1,
        kind == MediaKind::Video ==> share_type(kind) == 2,
        kind == MediaKind::Audio ==> share_type(kind) == 4,
{
    reveal_strlit("Photos");
    reveal_strlit("Videos");
    reveal_strlit("Audio");
    assert("Photos"@[0] == 'P' && "Videos"@[0] == 'V' && "Audio"@[0] == 'A');
}

/// What a JPEG, PNG, GIF, WebP or WebM file and an MP3 are called by Apple, and
/// that a file of no known type is plain data.
pub proof fn uniform_types_of_files(h: Seq<u8>, file_name: Seq<char>)
    ensures
        is_jpeg(h) ==> uniform_type_name(sniffed(h, file_name).1) == "public.jpeg"@,
        is_png(h) ==> uniform_type_name(sniffed(h, file_name).1) == "public.png"@,
        is_gif(h) ==> uniform_type_name(sniffed(h, file_name).1) == "com.compuserve.gif"@,
        is_mp3(h) ==> uniform_type_name(sniffed(h, file_name).1) == "public.mp3"@,
        four_at(h, 0, 0x1A, 0x45, 0xDF, 0xA3) ==> uniform_type_name(sniffed(h, file_name).1)
            == "org.webmproject.webm"@,
        four_at(h, 0, 0x52, 0x49, 0x46, 0x46) && four_at(h, 8, 0x57, 0x45, 0x42, 0x50)
            ==> uniform_type_name(sniffed(h, file_name).1) == "org.webmproject.webp"@,
        four_at(h, 0, 0x52, 0x49, 0x46, 0x46) && four_at(h, 8, 0x41, 0x56, 0x49, 0x20)
            ==> uniform_type_name(sniffed(h, file_name).1) == "public.data"@,
        sniffed(h, file_name).0 == MediaKind::Other ==> uniform_type_name(sniffed(h, file_name).1)
            == "public.data"@,
        sniffed(h, file_name).1 == "image/heic"@ ==> uniform_type_name(sniffed(h, file_name).1)
            == "public.heic"@,
        sniffed(h, file_name).1 == "video/mp4"@ ==> uniform_type_name(sniffed(h, file_name).1)
            == "public.mpeg-4"@,
        sniffed(h, file_name).1 == "video/quicktime"@ ==> uniform_type_name(sniffed(h, file_name).1)
            == "com.apple.quicktime-movie"@,
        sniffed(h, file_name).1 == "audio/mp4"@ ==> uniform_type_name(sniffed(h, file_name).1)
            == "public.mpeg-4-audio"@,
{
    signatures_decide(h, file_name);
    riff_files_are_told_by_form(h, file_name);
    reveal_strlit("application/octet-stream");
    reveal_strlit("audio/flac");
    reveal_strlit("audio/mp4");
    reveal_strlit("audio/mpeg");
    reveal_strlit("audio/ogg");
    reveal_strlit("audio/wav");
    reveal_strlit("image/avif");
    reveal_strlit("image/gif");
    reveal_strlit("image/heic");
    reveal_strlit("image/jpeg");
    reveal_strlit("image/png");
    reveal_strlit("image/webp");
    reveal_strlit("video/mp4");
    reveal_strlit("video/quicktime");
    reveal_strlit("video/webm");
    reveal_strlit("video/x-matroska");
    reveal_strlit("video/x-msvideo");
    assert("application/octet-stream"@.len() == 24 && "application/octet-stream"@[0] == 'a'
        && "application/octet-stream"@[6] == 'a' && "application/octet-stream"@[7] == 't'
        && "application/octet-stream"@[8] == 'i');
    assert("audio/flac"@.len() == 10 && "audio/flac"@[0] == 'a' && "audio/flac"@[6] == 'f'
        && "audio/flac"@[7] == 'l' && "audio/flac"@[8] == 'a');
    assert("audio/mp4"@.len() == 9 && "audio/mp4"@[0] == 'a' && "audio/mp4"@[6] == 'm'
        && "audio/mp4"@[7] == 'p' && "audio/mp4"@[8] == '4');
    assert("audio/mpeg"@.len() == 10 && "audio/mpeg"@[0] == 'a' && "audio/mpeg"@[6] == 'm'
        && "audio/mpeg"@[7] == 'p' && "audio/mpeg"@[8] == 'e');
    assert("audio/ogg"@.len() == 9 && "audio/ogg"@[0] == 'a' && "audio/ogg"@[6] == 'o'
        && "audio/ogg"@[7] == 'g' && "audio/ogg"@[8] == 'g');
    assert("audio/wav"@.len() == 9 && "audio/wav"@[0] == 'a' && "audio/wav"@[6] == 'w'
        && "audio/wav"@[7] == 'a' && "audio/wav"@[8] == 'v');
    assert("image/avif"@.len() == 10 && "image/avif"@[0] == 'i' && "image/avif"@[6] == 'a'
        && "image/avif"@[7] == 'v' && "image/avif"@[8] == 'i');
    assert("image/gif"@.len() == 9 && "image/gif"@[0] == 'i' && "image/gif"@[6] == 'g'
        && "image/gif"@[7] == 'i' && "image/gif"@[8] == 'f');
    assert("image/heic"@.len() == 10 && "image/heic"@[0] == 'i' && "image/heic"@[6] == 'h'
        && "image/heic"@[7] == 'e' && "image/heic"@[8] == 'i');
    assert("image/jpeg"@.len() == 10 && "image/jpeg"@[0] == 'i' && "image/jpeg"@[6] == 'j'
        && "image/jpeg"@[7] == 'p' && "image/jpeg"@[8] == 'e');
    assert("image/png"@.len() == 9 && "image/png"@[0] == 'i' && "image/png"@[6] == 'p'
        && "image/png"@[7] == 'n' && "image/png"@[8] == 'g');
    assert("image/webp"@.len() == 10 && "image/webp"@[0] == 'i' && "image/webp"@[6] == 'w'
        && "image/webp"@[7] == 'e' && "image/webp"@[8] == 'b');
    assert("video/mp4"@.len() == 9 && "video/mp4"@[0] == 'v' && "video/mp4"@[6] == 'm'
        && "video/mp4"@[7] == 'p' && "video/mp4"@[8] == '4');
    assert("video/quicktime"@.len() == 15 && "video/quicktime"@[0] == 'v'
        && "video/quicktime"@[6] == 'q' && "video/quicktime"@[7] == 'u'
        && "video/quicktime"@[8] == 'i');
    assert("video/webm"@.len() == 10 && "video/webm"@[0] == 'v' && "video/webm"@[6] == 'w'
        && "video/webm"@[7] == 'e' && "video/webm"@[8] == 'b');
    assert("video/x-matroska"@.len() == 16 && "video/x-matroska"@[0] == 'v'
        && "video/x-matroska"@[6] == 'x' && "video/x-matroska"@[7] == '-'
        && "video/x-matroska"@[8] == 'm');
    assert("video/x-msvideo"@.len() == 15 && "video/x-msvideo"@[0] == 'v'
        && "video/x-msvideo"@[6] == 'x' && "video/x-msvideo"@[7] == '-'
        && "video/x-msvideo"@[8] == 'm');
}

/// Rounding goes to the nearest multiple, and halves go to the even one.
pub proof fn rounding_is_near(value: nat, step: nat)
    requires
        step > 0,
    ensures
        2 * (half_even(value, step) * step - value) <= step,
        2 * (value - half_even(value, step) * step) <= step,
        2 * (value % step) == step ==> half_even(value, step) % 2 == 0,
{
    let low = value / step;
    let rest = value % step;
    assert(value == low * step + rest) by (nonlinear_arith)
        requires
            low == value / step,
            rest == value % step,
            step > 0,
    ;
    assert((low + 1) * step == low * step + step) by (nonlinear_arith);
}

/// A size is told exactly in bytes below a kilobyte, and else in a unit of which
/// it holds at least one and, but for terabytes, fewer than 1024, to within half a
/// tenth.
pub proof fn sizes_are_told_in_fitting_units(bytes: nat)
    ensures
        bytes < 1024 ==> size_text(bytes) == decimal_text(bytes) + " "@ + "B"@,
        1024 <= bytes < 0x20_0000_0000_0000 ==> ({
            let (step, unit) = unit_of(bytes);
            let tenths = half_even(bytes * 10, step);
            &&& step <= bytes
            &&& bytes < 1024 * step || step == 0x100_0000_0000
            &&& step == 0x400 && unit == "KB"@ || step == 0x10_0000 && unit == "MB"@ || step
                == 0x4000_0000 && unit == "GB"@ || step == 0x100_0000_0000 && unit == "TB"@
            &&& 2 * (tenths * step - 10 * bytes) <= step
            &&& 2 * (10 * bytes - tenths * step) <= step
            &&& size_text(bytes) == decimal_text(tenths / 10) + "."@ + decimal_text(tenths % 10)
                + " "@ + unit
        }),
{
    if bytes < 0x20_0000_0000_0000 {
        assert(grain(bytes) == 1);
        assert(significant(bytes) == bytes) by {
            assert(bytes / 1 == bytes && bytes % 1 == 0);
        }
        rounding_is_near(bytes * 10, unit_of(bytes).0);
    }
}

} // verus!
