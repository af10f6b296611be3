//! Archives in the "newc" form of cpio, and the two ways in which uploads
//! compress them: gzip, and a list of length-prefixed zlib streams.

use crate::bytes::{be, be32, be_value, get_be, has_prefix, lemma_be, lemma_pow256, starts_with};
use crate::compress::{
    gunzip, gunzipped, gzip, gzip_mark, gzipped, unzlib, unzlibbed, zlib, zlibbed,
};
use crate::error::{unexpected_end, Error, ErrorView, Result};
use crate::paths::{archive_member_name, components, member_name, naming_parts, split_path};
use crate::sanitize::{
    forbidden_char, kept_name_is_one_component, kept_name_stays, safe_file_name, safe_name,
    MAX_FILE_NAME,
};
use crate::text::{
    chars_of, from_utf8, holds, is_white_char, lemma_encode_concat, lemma_no_byte, lower,
    lowered, same_text, seq_view, str_contains, string_of,
};
use vstd::prelude::*;
use vstd::slice::{slice_subrange, slice_to_vec};
use vstd::utf8::*;

verus! {

pub const HEADER_LEN: usize = 110;

/// The longest name of a member, in bytes, with the zero byte that ends it.
pub const MAX_MEMBER_NAME: usize = 1024;

/// A file of an archive.
#[derive(Debug, Clone, PartialEq, Eq)]
pub struct ArchiveEntry {
    pub name: String,
    pub bytes: Vec<u8>,
}

pub ghost struct EntryView {
    pub name: Seq<char>,
    pub bytes: Seq<u8>,
}

impl View for ArchiveEntry {
    type V = EntryView;

    open spec fn view(&self) -> EntryView {
        EntryView { name: self.name@, bytes: self.bytes@ }
    }
}

/// How many bytes fill a length up to a multiple of four.
pub open spec fn padding(len: nat) -> nat {
    ((4 - len % 4) % 4) as nat
}

pub open spec fn zero_bytes(len: nat) -> Seq<u8> {
    Seq::new(len, |i: int| 0u8)
}

/// `070701`, the first bytes of a header.
pub open spec fn newc_mark() -> Seq<u8> {
    seq![0x30u8, 0x37, 0x30, 0x37, 0x30, 0x31]
}

pub open spec fn hex_byte(digit: int) -> u8 {
    if digit < 10 {
        (0x30 + digit) as u8
    } else {
        (0x41 + digit - 10) as u8
    }
}

/// A number in eight hexadecimal digits.
pub open spec fn hex8(value: nat) -> Seq<u8> {
    seq![
        hex_byte((value / 0x1000_0000 % 16) as int),
        hex_byte((value / 0x100_0000 % 16) as int),
        hex_byte((value / 0x10_0000 % 16) as int),
        hex_byte((value / 0x1_0000 % 16) as int),
        hex_byte((value / 0x1000 % 16) as int),
        hex_byte((value / 0x100 % 16) as int),
        hex_byte((value / 0x10 % 16) as int),
        hex_byte((value % 16) as int),
    ]
}

/// The value of a digit in lower or upper case.
pub open spec fn digit_value(byte: u8) -> Option<nat> {
    if 0x30 <= byte <= 0x39 {
        Some((byte - 0x30) as nat)
    } else if 0x41 <= byte <= 0x46 {
        Some((byte - 0x41 + 10) as nat)
    } else if 0x61 <= byte <= 0x66 {
        Some((byte - 0x61 + 10) as nat)
    } else {
        None
    }
}

/// The number that digits stand for.
pub open spec fn digits_value(digits: Seq<u8>) -> Option<nat>
    decreases digits.len(),
{
    if digits.len() == 0 {
        Some(0)
    } else {
        match (digits_value(digits.drop_last()), digit_value(digits.last())) {
            (Some(high), Some(low)) => Some(16 * high + low),
            _ => None,
        }
    }
}

/// The number in a field of a header; a plus sign may stand in front.
pub open spec fn field_value(field: Seq<u8>) -> Option<nat> {
    if field.len() > 0 && field[0] == 0x2B {
        digits_value(field.skip(1))
    } else {
        digits_value(field)
    }
}

/// The header of a member.
#[verifier::opaque]
pub open spec fn header_bytes(mode: nat, filesize: nat, namesize: nat) -> Seq<u8> {
    newc_mark() + hex8(0) + hex8(mode) + hex8(0) + hex8(0) + hex8(1) + hex8(0) + hex8(filesize)
        + hex8(0) + hex8(0) + hex8(0) + hex8(0) + hex8(namesize) + hex8(0)
}

/// A member: its header, its name with a zero byte, and its data, both filled up
/// to a multiple of four.
pub open spec fn member_bytes(name: Seq<char>, data: Seq<u8>, mode: nat) -> Seq<u8> {
    let name_bytes = encode_utf8(name).push(0);
    header_bytes(mode, data.len(), name_bytes.len()) + name_bytes + zero_bytes(
        padding(HEADER_LEN as nat + name_bytes.len()),
    ) + data + zero_bytes(padding(data.len()))
}

/// The part of the bytes before the first zero byte.
pub open spec fn before_zero(bytes: Seq<u8>) -> Seq<u8>
    decreases bytes.len(),
{
    if bytes.len() == 0 || bytes[0] == 0 {
        Seq::empty()
    } else {
        seq![bytes[0]] + before_zero(bytes.skip(1))
    }
}

/// The name and the data of a member, and the bytes that it takes.
pub ghost struct RawMember {
    pub name: Seq<u8>,
    pub data: Seq<u8>,
    pub used: nat,
}

/// The member in front of the bytes, of an archive of which `total` bytes of
/// data were read, where `limit` are allowed.
#[verifier::opaque]
pub open spec fn read_member(bytes: Seq<u8>, total: nat, limit: u64) -> std::result::Result<
    RawMember,
    ErrorView,
> {
    if bytes.len() < HEADER_LEN {
        Err(ErrorView::Protocol("truncated cpio archive"@))
    } else if bytes.take(6) != newc_mark() {
        Err(ErrorView::Protocol("cpio archive is not newc"@))
    } else {
        match (field_value(bytes.subrange(94, 102)), field_value(bytes.subrange(54, 62))) {
            (Some(namesize), Some(filesize)) => {
                let data_at = HEADER_LEN + namesize + padding(HEADER_LEN as nat + namesize);
                let used = data_at + filesize + padding(filesize);
                if namesize == 0 || namesize > MAX_MEMBER_NAME {
                    Err(ErrorView::Protocol("cpio name length"@))
                } else if bytes.len() < data_at {
                    Err(ErrorView::Io)
                } else if total + filesize > limit {
                    Err(ErrorView::TooLarge)
                } else if bytes.len() < used {
                    Err(ErrorView::Io)
                } else {
                    Ok(
                        RawMember {
                            name: before_zero(
                                bytes.subrange(HEADER_LEN as int, HEADER_LEN + namesize),
                            ),
                            data: bytes.subrange(data_at as int, (data_at + filesize) as int),
                            used: used as nat,
                        },
                    )
                }
            },
            _ => Err(ErrorView::Protocol("cpio header"@)),
        }
    }
}

/// The files of an archive, of which `total` bytes of data were read before.
pub open spec fn read_archive(bytes: Seq<u8>, total: nat, limit: u64) -> std::result::Result<
    Seq<EntryView>,
    ErrorView,
>
    decreases bytes.len(),
{
    match read_member(bytes, total, limit) {
        Err(error) => Err(error),
        Ok(member) => if !valid_utf8(member.name) {
            Err(ErrorView::Protocol("cpio name is not utf-8"@))
        } else if decode_utf8(member.name) == "TRAILER!!!"@ {
            Ok(Seq::empty())
        } else if !(0 < member.used <= bytes.len()) {
            Err(ErrorView::Io)
        } else {
            match member_name(decode_utf8(member.name)) {
                None => Err(ErrorView::UnsafeName),
                Some(name) => match read_archive(
                    bytes.skip(member.used as int),
                    total + member.data.len(),
                    limit,
                ) {
                    Err(error) => Err(error),
                    Ok(rest) => Ok(seq![EntryView { name, bytes: member.data }] + rest),
                },
            }
        },
    }
}

/// The files of an archive up to its end, or up to the first member that cannot be
/// read.
pub open spec fn members_read(bytes: Seq<u8>, total: nat, limit: u64) -> Seq<EntryView>
    decreases bytes.len(),
{
    match read_member(bytes, total, limit) {
        Err(_) => Seq::empty(),
        Ok(member) => if !valid_utf8(member.name) || decode_utf8(member.name) == "TRAILER!!!"@ || !(0
            < member.used <= bytes.len()) {
            Seq::empty()
        } else {
            match member_name(decode_utf8(member.name)) {
                None => Seq::empty(),
                Some(name) => seq![EntryView { name, bytes: member.data }] + members_read(
                    bytes.skip(member.used as int),
                    total + member.data.len(),
                    limit,
                ),
            }
        },
    }
}

/// An archive that is read to its end hands out all of its files.
pub proof fn whole_archive_is_handed_out(bytes: Seq<u8>, total: nat, limit: u64)
    requires
        read_archive(bytes, total, limit) is Ok,
    ensures
        members_read(bytes, total, limit) == read_archive(bytes, total, limit)->Ok_0,
    decreases bytes.len(),
{
    if let Ok(member) = read_member(bytes, total, limit) {
        if valid_utf8(member.name) && decode_utf8(member.name) != "TRAILER!!!"@ && 0 < member.used
            <= bytes.len() {
            whole_archive_is_handed_out(
                bytes.skip(member.used as int),
                total + member.data.len(),
                limit,
            );
        }
    }
}

fn padding_of(len: usize) -> (pad: usize)
    ensures
        pad == padding(len as nat),
{
    (4 - len % 4) % 4
}

fn digit_of(byte: u8) -> (digit: Option<u64>)
    ensures
        match digit_value(byte) {
            Some(value) => digit == Some(value as u64) && value < 16,
            None => digit is None,
        },
{
    if 0x30 <= byte && byte <= 0x39 {
        Some((byte - 0x30) as u64)
    } else if 0x41 <= byte && byte <= 0x46 {
        Some((byte - 0x41 + 10) as u64)
    } else if 0x61 <= byte && byte <= 0x66 {
        Some((byte - 0x61 + 10) as u64)
    } else {
        None
    }
}

spec fn pow16(exponent: nat) -> nat
    decreases exponent,
{
    if exponent == 0 {
        1
    } else {
        16 * pow16((exponent - 1) as nat)
    }
}

fn digits_of(digits: &[u8]) -> (value: Option<u64>)
    requires
        digits@.len() <= 8,
    ensures
        match digits_value(digits@) {
            Some(expected) => value == Some(expected as u64) && expected <= u32::MAX,
            None => value is None,
        },
{
    let mut value: u64 = 0;
    proof {
        reveal_with_fuel(pow16, 9);
    }
    for i in 0..digits.len()
        invariant
            digits@.len() <= 8,
            pow16(8) == 0x1_0000_0000,
            digits_value(digits@.take(i as int)) == Some(value as nat),
            value < pow16(i as nat),
            pow16(i as nat) <= pow16(8),
    {
        proof {
            assert(digits@.take(i + 1).drop_last() =~= digits@.take(i as int));
            reveal_with_fuel(pow16, 9);
        }
        match digit_of(digits[i]) {
            Some(low) => {
                value = 16 * value + low;
            },
            None => {
                proof {
                    lemma_bad_digit(digits@, i as int);
                }
                return None;
            },
        }
    }
    assert(digits@.take(digits@.len() as int) =~= digits@);
    Some(value)
}

proof fn lemma_bad_digit(digits: Seq<u8>, i: int)
    requires
        0 <= i < digits.len(),
        digit_value(digits[i]) is None,
    ensures
        digits_value(digits) is None,
    decreases digits.len(),
{
    if i < digits.len() - 1 {
        lemma_bad_digit(digits.drop_last(), i);
    }
}

fn hex_field(field: &[u8]) -> (value: Result<usize>)
    requires
        field@.len() == 8,
    ensures
        match field_value(field@) {
            Some(expected) => value is Ok && value->Ok_0 == expected && expected <= u32::MAX,
            None => value is Err && value->Err_0@ == ErrorView::Protocol("cpio header"@),
        },
{
    let digits = if field[0] == 0x2B {
        let rest = slice_subrange(field, 1, 8);
        assert(rest@ =~= field@.skip(1));
        rest
    } else {
        field
    };
    match digits_of(digits) {
        Some(value) => Ok(value as usize),
        None => Err(Error::protocol("cpio header")),
    }
}

fn until_zero(bytes: &[u8]) -> (name: &[u8])
    ensures
        name@ == before_zero(bytes@),
{
    let mut end: usize = 0;
    assert(bytes@.skip(0) =~= bytes@);
    assert(bytes@.take(0) + before_zero(bytes@) =~= before_zero(bytes@));
    while end < bytes.len() && bytes[end] != 0
        invariant
            end <= bytes@.len(),
            bytes@.take(end as int) + before_zero(bytes@.skip(end as int)) == before_zero(bytes@),
        decreases bytes@.len() - end,
    {
        proof {
            let rest = bytes@.skip(end as int);
            assert(rest.skip(1) =~= bytes@.skip(end + 1));
            assert(bytes@.take(end as int) + (seq![rest[0]] + before_zero(rest.skip(1)))
                =~= bytes@.take(end + 1) + before_zero(rest.skip(1)));
        }
        end = end + 1;
    }
    assert(bytes@.take(end as int) + Seq::<u8>::empty() =~= bytes@.subrange(0, end as int));
    slice_subrange(bytes, 0, end)
}

/// A member as it was found.
struct Member {
    name: Vec<u8>,
    data: Vec<u8>,
    used: usize,
}

fn take_member(bytes: &[u8], total: u64, max_bytes: u64) -> (member: Result<Member>)
    requires
        total <= max_bytes,
    ensures
        match read_member(bytes@, total as nat, max_bytes) {
            Ok(expected) => {
                &&& member is Ok
                &&& member->Ok_0.name@ == expected.name
                &&& member->Ok_0.data@ == expected.data
                &&& member->Ok_0.used == expected.used
                &&& 0 < expected.used <= bytes@.len()
                &&& total + expected.data.len() <= max_bytes
            },
            Err(error) => member is Err && member->Err_0@ == error,
        },
{
    proof {
        reveal(read_member);
    }
    if bytes.len() < HEADER_LEN {
        return Err(Error::protocol("truncated cpio archive"));
    }
    let mark = [0x30u8, 0x37, 0x30, 0x37, 0x30, 0x31];
    assert(mark@ =~= newc_mark());
    if !starts_with(bytes, &mark) {
        return Err(Error::protocol("cpio archive is not newc"));
    }
    let namesize: usize = hex_field(slice_subrange(bytes, 94, 102))?;
    let filesize: usize = hex_field(slice_subrange(bytes, 54, 62))?;
    if namesize == 0 || namesize > MAX_MEMBER_NAME {
        return Err(Error::protocol("cpio name length"));
    }
    let name_end: usize = HEADER_LEN + namesize;
    let data_at: usize = name_end + padding_of(name_end);
    if bytes.len() < data_at {
        return Err(Error::Io(unexpected_end()));
    }
    if filesize as u64 > max_bytes - total {
        return Err(Error::TooLarge);
    }
    let pad: usize = padding_of(filesize);
    let left: usize = bytes.len() - data_at;
    if left < filesize || left - filesize < pad {
        return Err(Error::Io(unexpected_end()));
    }
    let data_end: usize = data_at + filesize;
    Ok(
        Member {
            name: slice_to_vec(until_zero(slice_subrange(bytes, HEADER_LEN, name_end))),
            data: slice_to_vec(slice_subrange(bytes, data_at, data_end)),
            used: data_end + pad,
        },
    )
}

/// Reads the files of an archive of at most `max_bytes` bytes of data, and adds
/// each to `entries` as it comes; where a member cannot be read, those before it
/// are there.
pub fn unpack_reader(plain: &[u8], max_bytes: u64, entries: &mut Vec<ArchiveEntry>) -> (read: Result<
    (),
>)
    ensures
        seq_view(final(entries)@) == seq_view(old(entries)@) + members_read(plain@, 0, max_bytes),
        match read_archive(plain@, 0, max_bytes) {
            Ok(expected) => {
                &&& read is Ok
                &&& seq_view(final(entries)@) == seq_view(old(entries)@) + expected
            },
            Err(error) => read is Err && read->Err_0@ == error,
        },
{
    let mut rest: &[u8] = plain;
    let mut total: u64 = 0;
    let ghost start = seq_view(entries@);
    let ghost all = members_read(plain@, 0, max_bytes);
    proof {
        if read_archive(plain@, 0, max_bytes) is Ok {
            whole_archive_is_handed_out(plain@, 0, max_bytes);
        }
    }
    loop
        invariant
            total <= max_bytes,
            start == seq_view(old(entries)@),
            all == members_read(plain@, 0, max_bytes),
            read_archive(plain@, 0, max_bytes) is Ok ==> read_archive(plain@, 0, max_bytes)->Ok_0
                == all,
            seq_view(entries@) + members_read(rest@, total as nat, max_bytes) == start + all,
            match read_archive(rest@, total as nat, max_bytes) {
                Ok(_) => read_archive(plain@, 0, max_bytes) is Ok,
                Err(error) => read_archive(plain@, 0, max_bytes) == Err::<
                    Seq<EntryView>,
                    ErrorView,
                >(error),
            },
        decreases rest@.len(),
    {
        let ghost before = seq_view(entries@);
        assert(before + Seq::<EntryView>::empty() =~= before);
        let member = take_member(rest, total, max_bytes)?;
        let raw_name = match from_utf8(member.name.as_slice()) {
            Some(name) => name,
            None => return Err(Error::protocol("cpio name is not utf-8")),
        };
        if same_text(raw_name.as_str(), "TRAILER!!!") {
            return Ok(());
        }
        let name = archive_member_name(raw_name.as_str())?;
        let ghost held = rest@;
        let len: u64 = member.data.len() as u64;
        let entry = ArchiveEntry { name, bytes: member.data };
        entries.push(entry);
        let (_, left) = rest.split_at(member.used);
        proof {
            assert(left@ =~= held.skip(member.used as int));
            assert(seq_view(entries@) =~= before.push(entry@));
            let more = members_read(left@, (total + len) as nat, max_bytes);
            assert(before + (seq![entry@] + more) =~= seq_view(entries@) + more);
        }
        total = total + len;
        rest = left;
    }
}

fn hex_digit_byte(digit: u64) -> (byte: u8)
    requires
        digit < 16,
    ensures
        byte == hex_byte(digit as int),
{
    if digit < 10 {
        0x30 + digit as u8
    } else {
        0x41 + (digit as u8 - 10)
    }
}

fn put_hex8(out: &mut Vec<u8>, value: u64)
    ensures
        final(out)@ == old(out)@ + hex8(value as nat),
{
    out.push(hex_digit_byte(value / 0x1000_0000 % 16));
    out.push(hex_digit_byte(value / 0x100_0000 % 16));
    out.push(hex_digit_byte(value / 0x10_0000 % 16));
    out.push(hex_digit_byte(value / 0x1_0000 % 16));
    out.push(hex_digit_byte(value / 0x1000 % 16));
    out.push(hex_digit_byte(value / 0x100 % 16));
    out.push(hex_digit_byte(value / 0x10 % 16));
    out.push(hex_digit_byte(value % 16));
    assert(out@ =~= old(out)@ + hex8(value as nat));
}

fn pad4(out: &mut Vec<u8>, len: usize)
    ensures
        final(out)@ == old(out)@ + zero_bytes(padding(len as nat)),
{
    let pad: usize = padding_of(len);
    for i in 0..pad
        invariant
            out@ == old(out)@ + zero_bytes(i as nat),
    {
        out.push(0);
        assert(zero_bytes((i + 1) as nat) =~= zero_bytes(i as nat).push(0));
    }
    assert(out@ =~= old(out)@ + zero_bytes(padding(len as nat)));
}

/// Appends a member to an archive.
pub fn write_entry(out: &mut Vec<u8>, name: &str, data: &[u8], mode: u32) -> (written: Result<()>)
    requires
        encode_utf8(name@).len() + 200 <= usize::MAX,
    ensures
        if data@.len() > u32::MAX || encode_utf8(name@).len() + 1 > u32::MAX {
            &&& written is Err
            &&& written->Err_0@ == ErrorView::TooLarge
            &&& final(out)@ == old(out)@
        } else {
            written is Ok && final(out)@ == old(out)@ + member_bytes(name@, data@, mode as nat)
        },
{
    let mut name_bytes = slice_to_vec(name.as_bytes());
    name_bytes.push(0);
    if data.len() as u64 > 0xffff_ffff || name_bytes.len() as u64 > 0xffff_ffff {
        return Err(Error::TooLarge);
    }
    let mark = [0x30u8, 0x37, 0x30, 0x37, 0x30, 0x31];
    assert(mark@ =~= newc_mark());
    let ghost before = out@;
    out.extend_from_slice(&mark);
    put_hex8(out, 0);
    put_hex8(out, mode as u64);
    put_hex8(out, 0);
    put_hex8(out, 0);
    put_hex8(out, 1);
    put_hex8(out, 0);
    put_hex8(out, data.len() as u64);
    put_hex8(out, 0);
    put_hex8(out, 0);
    put_hex8(out, 0);
    put_hex8(out, 0);
    put_hex8(out, name_bytes.len() as u64);
    put_hex8(out, 0);
    proof {
        reveal(header_bytes);
    }
    assert(out@ =~= before + header_bytes(mode as nat, data@.len(), name_bytes@.len()));
    out.extend_from_slice(name_bytes.as_slice());
    pad4(out, HEADER_LEN + name_bytes.len());
    out.extend_from_slice(data);
    pad4(out, data.len());
    assert(out@ =~= before + member_bytes(name@, data@, mode as nat));
    Ok(())
}

/// The mode of an ordinary file.
pub const FILE_MODE: u32 = 0x81A4;

/// The name under which a file is packed: the last part of a path, or the name
/// itself.
pub open spec fn packed_name(name: Seq<char>) -> Option<Seq<char>> {
    match member_name(name) {
        Some(member) => Some(member),
        None => safe_name(name),
    }
}

/// A file to be packed.
pub open spec fn file_view(file: (String, Vec<u8>)) -> EntryView {
    EntryView { name: file.0@, bytes: file.1@ }
}

pub open spec fn files_view(files: Seq<(String, Vec<u8>)>) -> Seq<EntryView> {
    Seq::new(files.len(), |i: int| file_view(files[i]))
}

/// Why files cannot be packed: the first one without a name that can be kept,
/// or too large for the field of its length.
pub open spec fn pack_objection(files: Seq<EntryView>) -> Option<ErrorView>
    decreases files.len(),
{
    if files.len() == 0 {
        None
    } else if packed_name(files[0].name) is None {
        Some(ErrorView::UnsafeName)
    } else if files[0].bytes.len() > u32::MAX {
        Some(ErrorView::TooLarge)
    } else {
        pack_objection(files.skip(1))
    }
}

/// The members of files that can be packed.
pub open spec fn members_bytes(files: Seq<EntryView>) -> Seq<u8>
    decreases files.len(),
{
    if files.len() == 0 {
        Seq::empty()
    } else {
        member_bytes("./"@ + packed_name(files[0].name)->0, files[0].bytes, FILE_MODE as nat)
            + members_bytes(files.skip(1))
    }
}

/// An archive: its files, then the trailer.
pub open spec fn archive_bytes(files: Seq<EntryView>) -> Seq<u8> {
    members_bytes(files) + member_bytes("TRAILER!!!"@, Seq::empty(), 0)
}

fn name_for(name: &str) -> (safe: Result<String>)
    ensures
        match packed_name(name@) {
            Some(expected) => safe is Ok && safe->Ok_0@ == expected,
            None => safe is Err && safe->Err_0@ == ErrorView::UnsafeName,
        },
{
    match archive_member_name(name) {
        Ok(member) => Ok(member),
        Err(_) => safe_file_name(name),
    }
}

proof fn lemma_packed_name_short(name: Seq<char>)
    requires
        packed_name(name) is Some,
    ensures
        encode_utf8(packed_name(name)->0).len() <= MAX_FILE_NAME,
{
    match member_name(name) {
        Some(member) => {
            kept_name_is_one_component(components(name).last());
        },
        None => {
            kept_name_is_one_component(name);
        },
    }
}

proof fn lemma_dot_slash(name: Seq<char>)
    ensures
        encode_utf8("./"@ + name).len() == 2 + encode_utf8(name).len(),
        encode_utf8("./"@ + name) == encode_utf8("./"@) + encode_utf8(name),
        encode_utf8("./"@) == seq![0x2Eu8, 0x2Fu8],
{
    reveal_strlit("./");
    lemma_encode_concat("./"@, name);
    assert(is_ascii_chars("./"@));
    is_ascii_chars_encode_utf8("./"@);
    assert(encode_utf8("./"@) =~= seq![0x2Eu8, 0x2Fu8]);
}

/// Packs files without compression.
pub fn pack_newc(files: &[(String, Vec<u8>)]) -> (packed: Result<Vec<u8>>)
    ensures
        match pack_objection(files_view(files@)) {
            Some(error) => packed is Err && packed->Err_0@ == error,
            None => packed is Ok && packed->Ok_0@ == archive_bytes(files_view(files@)),
        },
{
    let mut out: Vec<u8> = Vec::new();
    let ghost views = files_view(files@);
    assert(views.skip(0) =~= views);
    assert(out@ + members_bytes(views) =~= members_bytes(views));
    for i in 0..files.len()
        invariant
            views == files_view(files@),
            pack_objection(views) == pack_objection(views.skip(i as int)),
            out@ + members_bytes(views.skip(i as int)) == members_bytes(views),
    {
        let ghost before = out@;
        let ghost rest = views.skip(i as int);
        assert(rest[0] == file_view(files@[i as int]));
        assert(rest.skip(1) =~= views.skip(i + 1));
        let (name, bytes) = &files[i];
        let safe = name_for(name.as_str())?;
        let mut path = "./".to_owned();
        path.append(safe.as_str());
        proof {
            lemma_packed_name_short(name@);
            lemma_dot_slash(safe@);
        }
        write_entry(&mut out, path.as_str(), bytes.as_slice(), FILE_MODE)?;
        assert(out@ + members_bytes(rest.skip(1)) =~= before + members_bytes(rest));
    }
    assert(views.skip(files@.len() as int) =~= Seq::empty());
    assert(out@ + Seq::<u8>::empty() =~= out@);
    let nothing: [u8; 0] = [];
    assert(nothing@ =~= Seq::empty());
    proof {
        reveal_strlit("TRAILER!!!");
        assert(is_ascii_chars("TRAILER!!!"@));
        is_ascii_chars_encode_utf8("TRAILER!!!"@);
    }
    write_entry(&mut out, "TRAILER!!!", &nothing, 0)?;
    Ok(out)
}

proof fn lemma_digit(digit: int)
    requires
        0 <= digit < 16,
    ensures
        digit_value(hex_byte(digit)) == Some(digit as nat),
        hex_byte(digit) != 0x2B,
{
}

proof fn lemma_digits_push(digits: Seq<u8>, value: nat, digit: int)
    requires
        digits_value(digits) == Some(value),
        0 <= digit < 16,
    ensures
        digits_value(digits.push(hex_byte(digit))) == Some((16 * value + digit) as nat),
{
    lemma_digit(digit);
    assert(digits.push(hex_byte(digit)).drop_last() =~= digits);
}

/// A number is read back from its eight digits.
pub proof fn lemma_hex8(value: nat)
    requires
        value <= u32::MAX,
    ensures
        field_value(hex8(value)) == Some(value),
{
    let p0 = Seq::<u8>::empty();
    let p1 = p0.push(hex_byte((value / 0x1000_0000 % 16) as int));
    let p2 = p1.push(hex_byte((value / 0x100_0000 % 16) as int));
    let p3 = p2.push(hex_byte((value / 0x10_0000 % 16) as int));
    let p4 = p3.push(hex_byte((value / 0x1_0000 % 16) as int));
    let p5 = p4.push(hex_byte((value / 0x1000 % 16) as int));
    let p6 = p5.push(hex_byte((value / 0x100 % 16) as int));
    let p7 = p6.push(hex_byte((value / 0x10 % 16) as int));
    let p8 = p7.push(hex_byte((value % 16) as int));
    lemma_digits_push(p0, 0, (value / 0x1000_0000 % 16) as int);
    lemma_digits_push(p1, value / 0x1000_0000, (value / 0x100_0000 % 16) as int);
    assert(value / 0x1000_0000 == value / 0x100_0000 / 16);
    lemma_digits_push(p2, value / 0x100_0000, (value / 0x10_0000 % 16) as int);
    assert(value / 0x100_0000 == value / 0x10_0000 / 16);
    lemma_digits_push(p3, value / 0x10_0000, (value / 0x1_0000 % 16) as int);
    assert(value / 0x10_0000 == value / 0x1_0000 / 16);
    lemma_digits_push(p4, value / 0x1_0000, (value / 0x1000 % 16) as int);
    assert(value / 0x1_0000 == value / 0x1000 / 16);
    lemma_digits_push(p5, value / 0x1000, (value / 0x100 % 16) as int);
    assert(value / 0x1000 == value / 0x100 / 16);
    lemma_digits_push(p6, value / 0x100, (value / 0x10 % 16) as int);
    assert(value / 0x100 == value / 0x10 / 16);
    lemma_digits_push(p7, value / 0x10, (value % 16) as int);
    assert(p8 =~= hex8(value));
    lemma_digit((value / 0x1000_0000 % 16) as int);
}

pub proof fn lemma_header_fields(mode: nat, filesize: nat, namesize: nat)
    ensures
        header_bytes(mode, filesize, namesize).len() == HEADER_LEN,
        header_bytes(mode, filesize, namesize).take(6) == newc_mark(),
        header_bytes(mode, filesize, namesize).subrange(54, 62) == hex8(filesize),
        header_bytes(mode, filesize, namesize).subrange(94, 102) == hex8(namesize),
{
    reveal(header_bytes);
    let header = header_bytes(mode, filesize, namesize);
    assert(header.take(6) =~= newc_mark());
    assert(header.subrange(54, 62) =~= hex8(filesize));
    assert(header.subrange(94, 102) =~= hex8(namesize));
}

pub proof fn lemma_before_zero(bytes: Seq<u8>)
    requires
        forall|i: int| 0 <= i < bytes.len() ==> #[trigger] bytes[i] != 0,
    ensures
        before_zero(bytes.push(0)) == bytes,
    decreases bytes.len(),
{
    if bytes.len() > 0 {
        let rest = bytes.skip(1);
        assert forall|i: int| 0 <= i < rest.len() implies #[trigger] rest[i] != 0 by {
            assert(rest[i] == bytes[i + 1]);
        }
        lemma_before_zero(rest);
        assert(bytes.push(0).skip(1) =~= rest.push(0));
        assert(seq![bytes[0]] + rest =~= bytes);
    } else {
        assert(bytes =~= Seq::empty());
    }
}

/// A member is read back, whatever follows it.
proof fn lemma_member_read(
    name: Seq<char>,
    data: Seq<u8>,
    mode: nat,
    rest: Seq<u8>,
    total: nat,
    limit: u64,
)
    requires
        forall|i: int| 0 <= i < name.len() ==> name[i] != '\0',
        encode_utf8(name).len() + 1 <= MAX_MEMBER_NAME,
        data.len() <= u32::MAX,
        total + data.len() <= limit,
    ensures
        read_member(member_bytes(name, data, mode) + rest, total, limit) == Ok::<
            RawMember,
            ErrorView,
        >(
            RawMember {
                name: encode_utf8(name),
                data,
                used: member_bytes(name, data, mode).len(),
            },
        ),
        member_bytes(name, data, mode).len() > 0,
{
    reveal(read_member);
    let name_bytes = encode_utf8(name).push(0);
    let header = header_bytes(mode, data.len(), name_bytes.len());
    let member = member_bytes(name, data, mode);
    let all = member + rest;
    lemma_header_fields(mode, data.len(), name_bytes.len());
    lemma_hex8(data.len());
    lemma_hex8(name_bytes.len());
    assert(all.take(6) =~= header.take(6));
    assert(all.subrange(54, 62) =~= header.subrange(54, 62));
    assert(all.subrange(94, 102) =~= header.subrange(94, 102));
    let data_at = HEADER_LEN + name_bytes.len() + padding(HEADER_LEN as nat + name_bytes.len());
    assert(all.subrange(HEADER_LEN as int, HEADER_LEN + name_bytes.len()) =~= name_bytes);
    assert(all.subrange(data_at as int, (data_at + data.len()) as int) =~= data);
    lemma_no_byte(name, 0);
    lemma_before_zero(encode_utf8(name));
}

/// A text without slashes is one part.
proof fn lemma_split_plain(text: Seq<char>)
    requires
        forall|i: int| 0 <= i < text.len() ==> text[i] != '/',
    ensures
        split_path(text) == seq![text],
    decreases text.len(),
{
    if text.len() == 0 {
        assert(text =~= Seq::empty());
    } else {
        lemma_split_plain(text.drop_last());
        let parts = split_path(text.drop_last());
        assert(parts.last().push(text.last()) =~= text);
        assert(parts.drop_last().push(parts.last().push(text.last())) =~= seq![text]);
    }
}

/// A text without slashes behind `./` makes two parts.
proof fn lemma_split_dot_slash(text: Seq<char>)
    requires
        forall|i: int| 0 <= i < text.len() ==> text[i] != '/',
    ensures
        split_path("./"@ + text) == seq!["."@, text],
    decreases text.len(),
{
    reveal_strlit("./");
    reveal_strlit(".");
    let all = "./"@ + text;
    if text.len() == 0 {
        assert(all =~= "./"@);
        assert(all.drop_last() =~= "."@);
        lemma_split_plain("."@);
        assert(text =~= Seq::empty());
        assert(split_path(all) =~= seq!["."@].push(Seq::empty()));
        assert(split_path(all) =~= seq!["."@, text]);
    } else {
        lemma_split_dot_slash(text.drop_last());
        assert(all.drop_last() =~= "./"@ + text.drop_last());
        let parts = split_path(all.drop_last());
        assert(parts.last().push(text.last()) =~= text);
        assert(parts.drop_last() =~= seq!["."@]);
        assert(parts.drop_last().push(parts.last().push(text.last())) =~= seq!["."@, text]);
    }
}

/// A name that is kept as it is, behind `./`, is the name of a member.
proof fn lemma_member_name(name: Seq<char>)
    requires
        safe_name(name) == Some(name),
    ensures
        member_name("./"@ + name) == Some(name),
{
    kept_name_is_one_component(name);
    assert forall|i: int| 0 <= i < name.len() implies name[i] != '/' by {
        assert(!forbidden_char(name[i]));
    }
    lemma_split_dot_slash(name);
    reveal_strlit("./");
    reveal_strlit(".");
    reveal_strlit("..");
    let parts = split_path("./"@ + name);
    assert(parts.drop_last() =~= seq!["."@]);
    assert(parts.drop_last().drop_last() =~= Seq::empty());
    reveal_with_fuel(naming_parts, 3);
    assert(name != "."@);
    assert(name != ".."@);
    assert(components("./"@ + name) =~= seq![name]);
    if components("./"@ + name).contains(".."@) {
        assert(false);
    }
}

/// The files of an archive, under the names that they are packed under.
pub open spec fn packed_entries(files: Seq<EntryView>) -> Seq<EntryView> {
    Seq::new(
        files.len(),
        |i: int| EntryView { name: packed_name(files[i].name)->0, bytes: files[i].bytes },
    )
}

/// The sum of the lengths of the files.
pub open spec fn data_len(files: Seq<EntryView>) -> nat
    decreases files.len(),
{
    if files.len() == 0 {
        0
    } else {
        files[0].bytes.len() + data_len(files.skip(1))
    }
}

/// No packed name ends in white space, which would be lost when it is read.
pub open spec fn names_stay(files: Seq<EntryView>) -> bool {
    forall|i: int|
        0 <= i < files.len() ==> !is_white_char(
            packed_name((#[trigger] files[i]).name)->0.last(),
        )
}

/// A packed name that does not end in white space can be kept as it is.
pub proof fn lemma_packed_name_stays(name: Seq<char>)
    requires
        packed_name(name) is Some,
        !is_white_char(packed_name(name)->0.last()),
    ensures
        safe_name(packed_name(name)->0) == packed_name(name),
{
    match member_name(name) {
        Some(member) => {
            kept_name_stays(components(name).last());
        },
        None => {
            kept_name_stays(name);
        },
    }
}

/// A packed file is read back, whatever follows it.
proof fn lemma_packed_file_read(file: EntryView, rest: Seq<u8>, total: nat, limit: u64)
    requires
        packed_name(file.name) is Some,
        file.bytes.len() <= u32::MAX,
        !is_white_char(packed_name(file.name)->0.last()),
        total + file.bytes.len() <= limit,
    ensures
        ({
            let name = "./"@ + packed_name(file.name)->0;
            let member = member_bytes(name, file.bytes, FILE_MODE as nat);
            &&& member.len() > 0
            &&& read_member(member + rest, total, limit) == Ok::<RawMember, ErrorView>(
                RawMember { name: encode_utf8(name), data: file.bytes, used: member.len() },
            )
            &&& valid_utf8(encode_utf8(name))
            &&& decode_utf8(encode_utf8(name)) == name
            &&& name != "TRAILER!!!"@
            &&& member_name(name) == packed_name(file.name)
        }),
{
    let safe = packed_name(file.name)->0;
    let name = "./"@ + safe;
    lemma_packed_name_short(file.name);
    lemma_packed_name_stays(file.name);
    lemma_dot_slash(safe);
    kept_name_is_one_component(safe);
    reveal_strlit("./");
    assert forall|i: int| 0 <= i < name.len() implies name[i] != '\0' by {
        if i >= 2 {
            assert(name[i] == safe[i - 2]);
            assert(!forbidden_char(safe[i - 2]));
        }
    }
    lemma_member_read(name, file.bytes, FILE_MODE as nat, rest, total, limit);
    encode_utf8_valid_utf8(name);
    encode_utf8_decode_utf8(name);
    lemma_member_name(safe);
    reveal_strlit("TRAILER!!!");
    assert(name[0] == '.');
    assert("TRAILER!!!"@[0] == 'T');
}

proof fn lemma_trailer_read(total: nat, limit: u64)
    requires
        total <= limit,
    ensures
        read_archive(member_bytes("TRAILER!!!"@, Seq::empty(), 0), total, limit) == Ok::<
            Seq<EntryView>,
            ErrorView,
        >(Seq::empty()),
{
    let trailer = member_bytes("TRAILER!!!"@, Seq::empty(), 0);
    reveal_strlit("TRAILER!!!");
    assert(is_ascii_chars("TRAILER!!!"@));
    is_ascii_chars_encode_utf8("TRAILER!!!"@);
    encode_utf8_valid_utf8("TRAILER!!!"@);
    encode_utf8_decode_utf8("TRAILER!!!"@);
    lemma_member_read("TRAILER!!!"@, Seq::empty(), 0, Seq::empty(), total, limit);
    assert(trailer + Seq::empty() =~= trailer);
}

proof fn lemma_archive_read(files: Seq<EntryView>, total: nat, limit: u64)
    requires
        pack_objection(files) is None,
        names_stay(files),
        total + data_len(files) <= limit,
    ensures
        read_archive(archive_bytes(files), total, limit) == Ok::<Seq<EntryView>, ErrorView>(
            packed_entries(files),
        ),
    decreases files.len(),
{
    let trailer = member_bytes("TRAILER!!!"@, Seq::empty(), 0);
    let all = archive_bytes(files);
    if files.len() == 0 {
        lemma_trailer_read(total, limit);
        assert(all =~= trailer);
        assert(packed_entries(files) =~= Seq::empty());
    } else {
        let rest = files.skip(1);
        let safe = packed_name(files[0].name)->0;
        let name = "./"@ + safe;
        let tail = archive_bytes(rest);
        let member = member_bytes(name, files[0].bytes, FILE_MODE as nat);
        assert(names_stay(rest)) by {
            assert forall|i: int| 0 <= i < rest.len() implies !is_white_char(
                packed_name((#[trigger] rest[i]).name)->0.last(),
            ) by {
                assert(rest[i] == files[i + 1]);
            }
        }
        lemma_archive_read(rest, total + files[0].bytes.len(), limit);
        assert(!is_white_char(packed_name(files[0].name)->0.last()));
        lemma_packed_file_read(files[0], tail, total, limit);
        assert(all =~= member + tail);
        assert(all.skip(member.len() as int) =~= tail);
        assert(seq![EntryView { name: safe, bytes: files[0].bytes }] + packed_entries(rest)
            =~= packed_entries(files));
    }
}

/// Files that are packed come out of the archive in their order, under the names
/// that they were packed under, with their contents.
pub proof fn archive_roundtrip(files: Seq<EntryView>, limit: u64)
    requires
        pack_objection(files) is None,
        names_stay(files),
        data_len(files) <= limit,
    ensures
        read_archive(archive_bytes(files), 0, limit) == Ok::<Seq<EntryView>, ErrorView>(
            packed_entries(files),
        ),
{
    lemma_archive_read(files, 0, limit);
}

/// How much of an archive goes into one stream of a list.
pub const DVZIP_CHUNK: usize = 64 * 1024;

/// The longest stream of a list that is read.
pub const DVZIP_MAX_CHUNK: usize = 16 * 1024 * 1024;

/// The most data that one stream of a list may hold.
pub const STREAM_LIMIT: u64 = 0x3FFF_FFFF_FFFF_FFFF;

/// The length is within the limit.
pub open spec fn within(len: nat, limit: u64) -> bool {
    len <= limit && len < u64::MAX
}

/// The data of one stream of a list: gzip where it begins so, else zlib.
pub open spec fn stream_data(chunk: Seq<u8>) -> Option<Seq<u8>> {
    let data = if has_prefix(chunk, gzip_mark()) {
        gunzipped(chunk)
    } else {
        unzlibbed(chunk)
    };
    match data {
        Some(data) if within(data.len(), STREAM_LIMIT) => Some(data),
        _ => None,
    }
}

/// The data of a list of length-prefixed streams. It ends at the length zero, at
/// the end of the input, and before the first stream that is cut off, too long
/// or broken.
pub open spec fn dvzip_data(input: Seq<u8>) -> Seq<u8>
    decreases input.len(),
{
    if input.len() < 4 {
        Seq::empty()
    } else {
        let len = be_value(input.take(4));
        let rest = input.skip(4);
        if len == 0 || rest.len() < len || len > DVZIP_MAX_CHUNK {
            Seq::empty()
        } else {
            match stream_data(rest.take(len as int)) {
                Some(data) => data + dvzip_data(rest.skip(len as int)),
                None => Seq::empty(),
            }
        }
    }
}

/// The input begins as a list of streams does.
pub open spec fn is_dvzip(body: Seq<u8>) -> bool {
    let len = be_value(body.take(4));
    &&& body.len() >= 6
    &&& 0 < len < body.len()
    &&& body[4] == 0x78 || has_prefix(body.skip(4), gzip_mark())
}

/// The archive that an upload holds, told by its first bytes and its media type;
/// `None` where its stream is broken.
pub open spec fn upload_data(body: Seq<u8>, content_type: Seq<char>) -> Option<Seq<u8>> {
    let kind = lowered(content_type);
    if has_prefix(body, gzip_mark()) || holds(kind, "gzip"@) {
        gunzipped(body)
    } else if has_prefix(body, newc_mark()) {
        Some(body)
    } else if holds(kind, "dvzip"@) || is_dvzip(body) {
        Some(dvzip_data(body))
    } else {
        gunzipped(body)
    }
}

/// The files that an upload holds; `None` where its stream is broken.
pub open spec fn upload_files(body: Seq<u8>, content_type: Seq<char>, limit: u64) -> Option<
    std::result::Result<Seq<EntryView>, ErrorView>,
> {
    match upload_data(body, content_type) {
        None => None,
        Some(data) => if within(data.len(), limit) {
            Some(read_archive(data, 0, limit))
        } else {
            Some(Err(ErrorView::TooLarge))
        },
    }
}

pub open spec fn broken_stream(error: ErrorView) -> bool {
    error == ErrorView::Io || error == ErrorView::TooLarge
}

/// The outcome of reading a compressed stream under a limit.
pub open spec fn inflated(data: Result<Vec<u8>>, whole: Option<Seq<u8>>, limit: u64) -> bool {
    match whole {
        Some(whole) => if within(whole.len(), limit) {
            data is Ok && data->Ok_0@ == whole
        } else {
            data is Err && data->Err_0@ == ErrorView::TooLarge
        },
        None => data is Err && broken_stream(data->Err_0@),
    }
}

fn inflate_gzip(bytes: &[u8], max_bytes: u64) -> (data: Result<Vec<u8>>)
    ensures
        inflated(data, gunzipped(bytes@), max_bytes),
{
    let limit: u64 = if max_bytes == u64::MAX {
        u64::MAX - 1
    } else {
        max_bytes
    };
    match gunzip(bytes, limit + 1) {
        Ok(data) => if data.len() as u64 > limit {
            Err(Error::TooLarge)
        } else {
            Ok(data)
        },
        Err(error) => Err(Error::Io(error)),
    }
}

fn inflate_zlib(bytes: &[u8], max_bytes: u64) -> (data: Result<Vec<u8>>)
    ensures
        inflated(data, unzlibbed(bytes@), max_bytes),
{
    let limit: u64 = if max_bytes == u64::MAX {
        u64::MAX - 1
    } else {
        max_bytes
    };
    match unzlib(bytes, limit + 1) {
        Ok(data) => if data.len() as u64 > limit {
            Err(Error::TooLarge)
        } else {
            Ok(data)
        },
        Err(error) => Err(Error::Io(error)),
    }
}

fn starts_as_gzip(bytes: &[u8]) -> (yes: bool)
    ensures
        yes == has_prefix(bytes@, gzip_mark()),
{
    let mark = [0x1Fu8, 0x8Bu8];
    assert(mark@ =~= gzip_mark());
    starts_with(bytes, &mark)
}

fn inflate_dvzip(input: &[u8], max_bytes: u64) -> (data: Result<Vec<u8>>)
    ensures
        inflated(data, Some(dvzip_data(input@)), max_bytes),
{
    let limit: u64 = if max_bytes == u64::MAX {
        u64::MAX - 1
    } else {
        max_bytes
    };
    let mut out: Vec<u8> = Vec::new();
    let mut rest: &[u8] = input;
    assert(out@ + dvzip_data(input@) =~= dvzip_data(input@));
    while rest.len() >= 4
        invariant_except_break
            out@ + dvzip_data(rest@) == dvzip_data(input@),
        invariant
            out@.len() <= limit,
            limit < u64::MAX,
            limit == if max_bytes == u64::MAX {
                (u64::MAX - 1) as u64
            } else {
                max_bytes
            },
        ensures
            out@ == dvzip_data(input@),
        decreases rest@.len(),
    {
        let (prefix, after) = rest.split_at(4);
        assert(prefix@ =~= rest@.take(4));
        assert(after@ =~= rest@.skip(4));
        let len: u64 = get_be(prefix);
        if len == 0 || (after.len() as u64) < len || len > DVZIP_MAX_CHUNK as u64 {
            assert(out@ + Seq::<u8>::empty() =~= out@);
            break;
        }
        let (chunk, left) = after.split_at(len as usize);
        assert(chunk@ =~= after@.take(len as int));
        assert(left@ =~= after@.skip(len as int));
        let decoded = if starts_as_gzip(chunk) {
            inflate_gzip(chunk, STREAM_LIMIT)
        } else {
            inflate_zlib(chunk, STREAM_LIMIT)
        };
        let decoded = match decoded {
            Ok(decoded) => decoded,
            Err(_) => {
                assert(stream_data(chunk@) is None);
                assert(out@ + Seq::<u8>::empty() =~= out@);
                break;
            },
        };
        assert(stream_data(chunk@) == Some(decoded@));
        assert(out@ + (decoded@ + dvzip_data(left@)) =~= out@ + decoded@ + dvzip_data(left@));
        if decoded.len() as u64 > limit - out.len() as u64 {
            assert(dvzip_data(input@).len() > limit);
            return Err(Error::TooLarge);
        }
        out.extend_from_slice(decoded.as_slice());
        rest = left;
    }
    Ok(out)
}

/// Whether the input begins as a list of streams does.
fn looks_like_dvzip(body: &[u8]) -> (yes: bool)
    ensures
        yes == is_dvzip(body@),
{
    if body.len() < 6 {
        return false;
    }
    let (prefix, rest) = body.split_at(4);
    assert(prefix@ =~= body@.take(4));
    assert(rest@ =~= body@.skip(4));
    let len: u64 = get_be(prefix);
    len > 0 && len < body.len() as u64 && (body[4] == 0x78 || starts_as_gzip(rest))
}

fn decode_container(body: &[u8], content_type: &str, max_bytes: u64) -> (data: Result<Vec<u8>>)
    ensures
        match upload_data(body@, content_type@) {
            Some(whole) => if within(whole.len(), max_bytes) {
                data is Ok && data->Ok_0@ == whole
            } else {
                match data {
                    Ok(out) => out@ == whole,
                    Err(error) => error@ == ErrorView::TooLarge,
                }
            },
            None => data is Err && broken_stream(data->Err_0@),
        },
{
    let kind = string_of(lower(chars_of(content_type).as_slice()).as_slice());
    if starts_as_gzip(body) || str_contains(kind.as_str(), "gzip") {
        return inflate_gzip(body, max_bytes);
    }
    let mark = [0x30u8, 0x37, 0x30, 0x37, 0x30, 0x31];
    assert(mark@ =~= newc_mark());
    if starts_with(body, &mark) {
        return Ok(slice_to_vec(body));
    }
    if str_contains(kind.as_str(), "dvzip") || looks_like_dvzip(body) {
        return inflate_dvzip(body, max_bytes);
    }
    inflate_gzip(body, max_bytes)
}

/// Reads the files of an upload of at most `max_bytes` bytes.
pub fn unpack(body: &[u8], content_type: &str, max_bytes: u64) -> (entries: Result<
    Vec<ArchiveEntry>,
>)
    ensures
        match upload_files(body@, content_type@, max_bytes) {
            Some(Ok(expected)) => entries is Ok && seq_view(entries->Ok_0@) == expected,
            Some(Err(error)) => entries is Err && entries->Err_0@ == error,
            None => entries is Err && broken_stream(entries->Err_0@),
        },
{
    let plain = decode_container(body, content_type, max_bytes)?;
    if plain.len() as u64 > max_bytes || plain.len() as u64 == u64::MAX {
        return Err(Error::TooLarge);
    }
    let mut entries: Vec<ArchiveEntry> = Vec::new();
    let ghost none = seq_view(entries@);
    unpack_reader(plain.as_slice(), max_bytes, &mut entries)?;
    assert(none =~= Seq::empty());
    assert(seq_view(entries@) =~= read_archive(plain@, 0, max_bytes)->Ok_0);
    Ok(entries)
}

proof fn lemma_data_within_archive(files: Seq<EntryView>)
    ensures
        data_len(files) <= members_bytes(files).len(),
    decreases files.len(),
{
    if files.len() > 0 {
        lemma_data_within_archive(files.skip(1));
    }
}

/// Whatever the media type and for every limit that the archive is within, an
/// upload gives the files back.
pub open spec fn reads_back(body: Seq<u8>, files: Seq<EntryView>) -> bool {
    forall|content_type: Seq<char>, limit: u64|
        within(archive_bytes(files).len(), limit) ==> #[trigger] upload_files(
            body,
            content_type,
            limit,
        ) == Some(Ok::<Seq<EntryView>, ErrorView>(packed_entries(files)))
}

/// Packs files with gzip. [`unpack`] gives them back.
pub fn pack_gzip(files: &[(String, Vec<u8>)]) -> (packed: Result<Vec<u8>>)
    ensures
        match pack_objection(files_view(files@)) {
            Some(error) => packed is Err && packed->Err_0@ == error,
            None => {
                &&& packed is Ok
                &&& packed->Ok_0@ == gzipped(archive_bytes(files_view(files@)))
                &&& names_stay(files_view(files@)) ==> reads_back(
                    packed->Ok_0@,
                    files_view(files@),
                )
            },
        },
{
    let raw = pack_newc(files)?;
    let ghost views = files_view(files@);
    match gzip(raw.as_slice()) {
        Ok(body) => {
            proof {
                if names_stay(views) {
                    lemma_data_within_archive(views);
                    assert forall|content_type: Seq<char>, limit: u64|
                        within(archive_bytes(views).len(), limit) implies #[trigger] upload_files(
                        body@,
                        content_type,
                        limit,
                    ) == Some(Ok::<Seq<EntryView>, ErrorView>(packed_entries(views))) by {
                        archive_roundtrip(views, limit);
                    }
                }
            }
            Ok(body)
        },
        Err(error) => Err(Error::Io(error)),
    }
}

/// The length of the first piece of an archive.
pub open spec fn piece_len(raw: Seq<u8>) -> int {
    if raw.len() < DVZIP_CHUNK {
        raw.len() as int
    } else {
        DVZIP_CHUNK as int
    }
}

/// The streams of the pieces of an archive, each behind its length.
pub open spec fn streams_of(raw: Seq<u8>) -> Seq<u8>
    decreases raw.len(),
{
    if raw.len() == 0 {
        Seq::empty()
    } else {
        let stream = zlibbed(raw.take(piece_len(raw)));
        be(stream.len(), 4) + stream + streams_of(raw.skip(piece_len(raw)))
    }
}

/// The list of streams of an archive.
pub open spec fn dvzip_bytes(raw: Seq<u8>) -> Seq<u8> {
    streams_of(raw) + be(0, 4)
}

/// The piece is read back from its stream, and the stream is not taken for gzip.
pub open spec fn good_piece(piece: Seq<u8>) -> bool {
    let stream = zlibbed(piece);
    &&& unzlibbed(stream) == Some(piece)
    &&& stream.len() > 0
    &&& stream[0] as int % 16 == 8
}

pub open spec fn good_pieces(raw: Seq<u8>) -> bool
    decreases raw.len(),
{
    raw.len() == 0 || (good_piece(raw.take(piece_len(raw))) && good_pieces(
        raw.skip(piece_len(raw)),
    ))
}

/// No stream is longer than what is read.
pub open spec fn short_streams(raw: Seq<u8>) -> bool
    decreases raw.len(),
{
    raw.len() == 0 || (zlibbed(raw.take(piece_len(raw))).len() <= DVZIP_MAX_CHUNK && short_streams(
        raw.skip(piece_len(raw)),
    ))
}

proof fn lemma_dvzip_read(raw: Seq<u8>)
    requires
        good_pieces(raw),
        short_streams(raw),
    ensures
        dvzip_data(dvzip_bytes(raw)) == raw,
    decreases raw.len(),
{
    let all = dvzip_bytes(raw);
    lemma_pow256();
    if raw.len() == 0 {
        lemma_be(0, 4);
        assert(all =~= be(0, 4));
        assert(all.take(4) =~= be(0, 4));
        assert(raw =~= Seq::empty());
    } else {
        let len = piece_len(raw);
        let piece = raw.take(len);
        let stream = zlibbed(piece);
        let next = raw.skip(len);
        lemma_dvzip_read(next);
        lemma_be(stream.len(), 4);
        let rest = all.skip(4);
        assert(all.take(4) =~= be(stream.len(), 4));
        assert(rest.take(stream.len() as int) =~= stream);
        assert(rest.skip(stream.len() as int) =~= dvzip_bytes(next));
        if has_prefix(stream, gzip_mark()) {
            assert(stream.take(2)[0] == 0x1F);
        }
        assert(piece + next =~= raw);
    }
}

/// With a media type that names it, and unless it begins as another form does, a
/// list of streams gives the files back for every limit that the archive is
/// within.
pub open spec fn dvzip_reads_back(body: Seq<u8>, files: Seq<EntryView>) -> bool {
    forall|content_type: Seq<char>, limit: u64|
        within(archive_bytes(files).len(), limit) && holds(lowered(content_type), "dvzip"@)
            && !holds(lowered(content_type), "gzip"@) && !has_prefix(body, gzip_mark())
            && !has_prefix(body, newc_mark()) ==> #[trigger] upload_files(
            body,
            content_type,
            limit,
        ) == Some(Ok::<Seq<EntryView>, ErrorView>(packed_entries(files)))
}

/// Packs files as a list of zlib streams. [`unpack`] gives them back, as long as
/// no stream is longer than what it reads.
pub fn pack_dvzip(files: &[(String, Vec<u8>)]) -> (packed: Result<Vec<u8>>)
    ensures
        match pack_objection(files_view(files@)) {
            Some(error) => packed is Err && packed->Err_0@ == error,
            None => {
                let raw = archive_bytes(files_view(files@));
                &&& packed is Ok
                &&& packed->Ok_0@ == dvzip_bytes(raw)
                &&& short_streams(raw) ==> dvzip_data(packed->Ok_0@) == raw
                &&& short_streams(raw) && names_stay(files_view(files@)) ==> dvzip_reads_back(
                    packed->Ok_0@,
                    files_view(files@),
                )
            },
        },
{
    let raw = pack_newc(files)?;
    let ghost views = files_view(files@);
    let mut out: Vec<u8> = Vec::new();
    let mut rest: &[u8] = raw.as_slice();
    assert(out@ + streams_of(raw@) =~= streams_of(raw@));
    while rest.len() > 0
        invariant
            out@ + streams_of(rest@) == streams_of(raw@),
            good_pieces(rest@) ==> good_pieces(raw@),
            raw@ == archive_bytes(views),
            views == files_view(files@),
            pack_objection(views) is None,
        decreases rest@.len(),
    {
        let len: usize = if rest.len() < DVZIP_CHUNK {
            rest.len()
        } else {
            DVZIP_CHUNK
        };
        let (piece, left) = rest.split_at(len);
        let ghost before = out@;
        assert(piece@ =~= rest@.take(piece_len(rest@)));
        assert(left@ =~= rest@.skip(piece_len(rest@)));
        let stream = match zlib(piece) {
            Ok(stream) => stream,
            Err(error) => return Err(Error::Io(error)),
        };
        out.extend_from_slice(&be32(stream.len() as u64));
        out.extend_from_slice(stream.as_slice());
        assert(out@ + streams_of(left@) =~= before + streams_of(rest@));
        rest = left;
    }
    assert(out@ + Seq::<u8>::empty() =~= out@);
    out.extend_from_slice(&be32(0));
    assert(out@ =~= dvzip_bytes(raw@));
    proof {
        if short_streams(raw@) {
            lemma_dvzip_read(raw@);
            if names_stay(views) {
                lemma_data_within_archive(views);
                assert forall|content_type: Seq<char>, limit: u64|
                    within(archive_bytes(views).len(), limit) && holds(
                        lowered(content_type),
                        "dvzip"@,
                    ) && !holds(lowered(content_type), "gzip"@) && !has_prefix(out@, gzip_mark())
                        && !has_prefix(out@, newc_mark()) implies #[trigger] upload_files(
                    out@,
                    content_type,
                    limit,
                ) == Some(Ok::<Seq<EntryView>, ErrorView>(packed_entries(views))) by {
                    archive_roundtrip(views, limit);
                }
            }
        }
    }
    Ok(out)
}

/// Every file that is read from an archive has a name that can be kept, and all
/// of them together are within the limit.
pub proof fn read_files_are_safe(bytes: Seq<u8>, total: nat, limit: u64)
    requires
        read_archive(bytes, total, limit) is Ok,
        total <= limit,
    ensures
        forall|i: int|
            0 <= i < read_archive(bytes, total, limit)->Ok_0.len() ==> exists|raw: Seq<char>|
                safe_name(raw) == Some((#[trigger] read_archive(bytes, total, limit)->Ok_0[i]).name),
        total + data_len(read_archive(bytes, total, limit)->Ok_0) <= limit,
    decreases bytes.len(),
{
    reveal(read_member);
    let member = read_member(bytes, total, limit)->Ok_0;
    if decode_utf8(member.name) != "TRAILER!!!"@ {
        let left = bytes.skip(member.used as int);
        let next = total + member.data.len();
        read_files_are_safe(left, next, limit);
        let name = decode_utf8(member.name);
        let entry = EntryView { name: member_name(name)->0, bytes: member.data };
        let rest = read_archive(left, next, limit)->Ok_0;
        let found = read_archive(bytes, total, limit)->Ok_0;
        assert(found == seq![entry] + rest);
        assert(found.skip(1) =~= rest);
        assert forall|i: int| 0 <= i < found.len() implies exists|raw: Seq<char>|
            safe_name(raw) == Some((#[trigger] found[i]).name) by {
            if i == 0 {
                assert(safe_name(components(name).last()) == Some(found[0].name));
            } else {
                assert(found[i] == rest[i - 1]);
                assert(rest[i - 1] == read_archive(left, next, limit)->Ok_0[i - 1]);
            }
        }
    }
}

} // verus!
