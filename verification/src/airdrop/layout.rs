//! How archives and the streams that hold them are laid out, byte by byte.

use crate::airdrop::cpio::{
    archive_bytes, digits_value, dvzip_bytes, dvzip_data, header_bytes, hex8, lemma_before_zero,
    lemma_header_fields, lemma_hex8, member_bytes, members_bytes, newc_mark, pack_objection,
    packed_name, padding, piece_len, read_archive, read_member, stream_data, streams_of,
    upload_data, upload_files, zero_bytes, EntryView, RawMember,
};
use crate::airdrop::laws::{lemma_mentions, mentions};
use crate::bytes::{be, lemma_be, lemma_pow256, orders_of_bytes};
use crate::compress::{gunzipped, unzlibbed, zlibbed};
use crate::error::ErrorView;
use crate::paths::member_name;
use crate::sanitize::safe_name;
use vstd::prelude::*;
use vstd::utf8::*;

verus! {

/// The byte is a digit of a hexadecimal number, in either case.
pub open spec fn is_digit(byte: u8) -> bool {
    48 <= byte <= 57 || 65 <= byte <= 70 || 97 <= byte <= 102
}

pub open spec fn worth_of(byte: u8) -> int {
    if byte <= 57 {
        byte - 48
    } else if byte <= 70 {
        byte - 55
    } else {
        byte - 87
    }
}

/// The numbers of a header are hexadecimal, the highest digit first.
pub proof fn header_numbers_are_read(digits: Seq<u8>, byte: u8)
    ensures
        digits_value(Seq::empty()) == Some(0nat),
        is_digit(byte) && digits_value(digits) is Some ==> digits_value(digits.push(byte)) == Some(
            (16 * digits_value(digits)->0 + worth_of(byte)) as nat,
        ),
        !is_digit(byte) ==> digits_value(digits.push(byte)) is None,
{
    assert(digits.push(byte).drop_last() =~= digits);
}

/// The numbers of a header are written in eight digits in upper case.
pub proof fn header_numbers_are_written(value: nat, i: int)
    requires
        value <= u32::MAX,
        0 <= i < 8,
    ensures
        hex8(value).len() == 8,
        48 <= hex8(value)[i] <= 57 || 65 <= hex8(value)[i] <= 70,
        digits_value(hex8(value)) == Some(value),
{
    lemma_hex8(value);
}

/// The least number of bytes that fills up to a multiple of four.
pub proof fn fillings_reach_multiples_of_four(len: nat)
    ensures
        padding(len) < 4,
        (len + padding(len)) % 4 == 0,
{
}

/// The header of a member has 110 bytes. It begins with 070701 and holds the mode,
/// one link, the lengths of the data and of the name, and zeros.
pub proof fn headers_are_laid_out(name: Seq<char>, data: Seq<u8>, mode: nat)
    ensures
        ({
            let header = member_bytes(name, data, mode).subrange(0, 110);
            &&& header.subrange(0, 6) == seq![48u8, 55, 48, 55, 48, 49]
            &&& header.subrange(6, 14) == hex8(0)
            &&& header.subrange(14, 22) == hex8(mode)
            &&& header.subrange(22, 30) == hex8(0)
            &&& header.subrange(30, 38) == hex8(0)
            &&& header.subrange(38, 46) == hex8(1)
            &&& header.subrange(46, 54) == hex8(0)
            &&& header.subrange(54, 62) == hex8(data.len())
            &&& header.subrange(62, 70) == hex8(0)
            &&& header.subrange(94, 102) == hex8(encode_utf8(name).len() + 1)
            &&& header.subrange(102, 110) == hex8(0)
        }),
{
    let n = encode_utf8(name).push(0).len();
    lemma_header_places(mode, data.len(), n);
    assert(member_bytes(name, data, mode).subrange(0, 110) =~= header_bytes(mode, data.len(), n));
}

/// Behind the header of a member stand its name and a zero byte, and then its
/// data, each filled up with zero bytes to a multiple of four.
pub proof fn members_are_laid_out(name: Seq<char>, data: Seq<u8>, mode: nat)
    ensures
        ({
            let member = member_bytes(name, data, mode);
            let n = encode_utf8(name).len() as int + 1;
            let data_at = 110 + n + padding((110 + n) as nat);
            &&& member.len() == data_at + data.len() + padding(data.len())
            &&& member.len() % 4 == 0
            &&& member.subrange(110, 109 + n) == encode_utf8(name)
            &&& member[109 + n] == 0
            &&& member.subrange(data_at, data_at + data.len()) == data
            &&& forall|i: int| 110 + n <= i < data_at ==> #[trigger] member[i] == 0
            &&& forall|i: int| data_at + data.len() <= i < member.len() ==> #[trigger] member[i] == 0
        }),
{
    let name_bytes = encode_utf8(name).push(0);
    let header = header_bytes(mode, data.len(), name_bytes.len());
    let fill = zero_bytes(padding(110 + name_bytes.len()));
    let end = zero_bytes(padding(data.len()));
    assert(header.len() == 110) by {
        lemma_header_fields(mode, data.len(), name_bytes.len());
    }
    lemma_in_a_row(header, encode_utf8(name), fill, data, end);
    fillings_reach_multiples_of_four(110 + name_bytes.len());
    fillings_reach_multiples_of_four(data.len());
}

proof fn lemma_in_a_row(header: Seq<u8>, name: Seq<u8>, fill: Seq<u8>, data: Seq<u8>, end: Seq<u8>)
    ensures
        ({
            let all = header + name.push(0) + fill + data + end;
            let a = header.len() as int;
            let b = a + name.len();
            let c = b + 1 + fill.len();
            let d = c + data.len();
            &&& all.len() == d + end.len()
            &&& all.subrange(a, b) == name
            &&& all[b] == 0
            &&& all.subrange(c, d) == data
            &&& forall|i: int| b < i < c ==> #[trigger] all[i] == fill[i - b - 1]
            &&& forall|i: int| d <= i < all.len() ==> #[trigger] all[i] == end[i - d]
        }),
{
    let all = header + name.push(0) + fill + data + end;
    let a = header.len() as int;
    let b = a + name.len();
    let c = b + 1 + fill.len();
    let d = c + data.len();
    assert(all.subrange(a, b) =~= name);
    assert(all.subrange(c, d) =~= data);
}

proof fn lemma_header_places(mode: nat, filesize: nat, namesize: nat)
    ensures
        ({
            let header = header_bytes(mode, filesize, namesize);
            &&& header.len() == 110
            &&& header.subrange(0, 6) == seq![48u8, 55, 48, 55, 48, 49]
            &&& header.subrange(6, 14) == hex8(0)
            &&& header.subrange(14, 22) == hex8(mode)
            &&& header.subrange(22, 30) == hex8(0)
            &&& header.subrange(30, 38) == hex8(0)
            &&& header.subrange(38, 46) == hex8(1)
            &&& header.subrange(46, 54) == hex8(0)
            &&& header.subrange(54, 62) == hex8(filesize)
            &&& header.subrange(62, 70) == hex8(0)
            &&& header.subrange(94, 102) == hex8(namesize)
            &&& header.subrange(102, 110) == hex8(0)
        }),
{
    let header = header_bytes(mode, filesize, namesize);
    lemma_header_fields(mode, filesize, namesize);
    assert(header.subrange(0, 6) =~= header.take(6));
    assert(seq![48u8, 55, 48, 55, 48, 49] =~= seq![0x30u8, 0x37, 0x30, 0x37, 0x30, 0x31]);
    let z = hex8(0);
    let front = newc_mark() + z + hex8(mode) + z + z + hex8(1) + z;
    let middle = hex8(filesize) + z;
    let end = hex8(namesize) + z;
    assert(header =~= front + (middle + (z + z + z + end))) by {
        reveal(header_bytes);
    }
    lemma_front(mode);
    assert forall|from: int, to: int| 0 <= from <= to <= 54 implies #[trigger] header.subrange(
        from,
        to,
    ) == front.subrange(from, to) by {
        assert(header.subrange(from, to) =~= front.subrange(from, to));
    }
    assert(header.subrange(62, 70) =~= z);
    assert(header.subrange(102, 110) =~= z);
}

proof fn lemma_front(mode: nat)
    ensures
        ({
            let z = hex8(0);
            let front = newc_mark() + z + hex8(mode) + z + z + hex8(1) + z;
            &&& front.len() == 54
            &&& front.subrange(6, 14) == z
            &&& front.subrange(14, 22) == hex8(mode)
            &&& front.subrange(22, 30) == z
            &&& front.subrange(30, 38) == z
            &&& front.subrange(38, 46) == hex8(1)
            &&& front.subrange(46, 54) == z
        }),
{
    let z = hex8(0);
    let front = newc_mark() + z + hex8(mode) + z + z + hex8(1) + z;
    assert(front.subrange(6, 14) =~= z);
    assert(front.subrange(14, 22) =~= hex8(mode));
    assert(front.subrange(22, 30) =~= z);
    assert(front.subrange(30, 38) =~= z);
    assert(front.subrange(38, 46) =~= hex8(1));
    assert(front.subrange(46, 54) =~= z);
}

/// A member as any program writes it: a header that tells the lengths, the name
/// and its zero byte, the data, and filling behind each.
pub open spec fn foreign_member(
    header: Seq<u8>,
    name: Seq<u8>,
    fill: Seq<u8>,
    data: Seq<u8>,
    end: Seq<u8>,
) -> Seq<u8> {
    header + name.push(0) + fill + data + end
}

/// Every member with a header of the right form is read for the name and the data
/// that stand behind the header, whatever else the header says and whatever
/// follows. Where the data go beyond the limit, together with what was read
/// before, the archive is refused.
pub proof fn members_of_others_are_read(
    header: Seq<u8>,
    name: Seq<u8>,
    fill: Seq<u8>,
    data: Seq<u8>,
    end: Seq<u8>,
    rest: Seq<u8>,
    total: nat,
    limit: u64,
)
    requires
        header.len() == 110,
        header.subrange(0, 6) == seq![48u8, 55, 48, 55, 48, 49],
        header[94] != 43,
        header[54] != 43,
        digits_value(header.subrange(94, 102)) == Some(name.len() + 1),
        digits_value(header.subrange(54, 62)) == Some(data.len()),
        name.len() + 1 <= 1024,
        forall|i: int| 0 <= i < name.len() ==> #[trigger] name[i] != 0,
        fill.len() == padding(111 + name.len()),
        end.len() == padding(data.len()),
    ensures
        ({
            let member = foreign_member(header, name, fill, data, end);
            &&& total + data.len() <= limit ==> read_member(member + rest, total, limit) == Ok::<
                RawMember,
                ErrorView,
            >(RawMember { name, data, used: member.len() })
            &&& total + data.len() > limit ==> read_member(member + rest, total, limit) == Err::<
                RawMember,
                ErrorView,
            >(ErrorView::TooLarge)
        }),
{
    reveal(read_member);
    let member = foreign_member(header, name, fill, data, end);
    let all = member + rest;
    let n = name.len() + 1;
    let data_at = 110 + n + padding(110 + n);
    assert(all.take(6) =~= header.subrange(0, 6));
    assert(seq![48u8, 55, 48, 55, 48, 49] =~= seq![0x30u8, 0x37, 0x30, 0x37, 0x30, 0x31]);
    assert(all.subrange(94, 102) =~= header.subrange(94, 102));
    assert(all.subrange(54, 62) =~= header.subrange(54, 62));
    assert(all.subrange(94, 102)[0] == header[94]);
    assert(all.subrange(54, 62)[0] == header[54]);
    assert(all.subrange(110, 110 + n as int) =~= name.push(0));
    assert(all.subrange(data_at as int, data_at as int + data.len()) =~= data);
    lemma_before_zero(name);
}

/// What is no archive of this form, or ends within a header, is refused.
pub proof fn other_archives_are_refused(bytes: Seq<u8>, total: nat, limit: u64)
    requires
        bytes.len() < 110 || bytes.subrange(0, 6) != seq![48u8, 55, 48, 55, 48, 49],
    ensures
        read_member(bytes, total, limit) is Err,
        read_archive(bytes, total, limit) is Err,
{
    reveal(read_member);
    if bytes.len() >= 110 {
        assert(bytes.take(6) =~= bytes.subrange(0, 6));
        assert(seq![48u8, 55, 48, 55, 48, 49] =~= seq![0x30u8, 0x37, 0x30, 0x37, 0x30, 0x31]);
    }
}

/// A member is one file of the archive under the last part of its path, and the
/// files behind it follow; an archive ends with the member called TRAILER!!!.
/// Where the path cannot be kept, the archive is refused.
pub proof fn archives_are_read_member_by_member(
    bytes: Seq<u8>,
    total: nat,
    limit: u64,
    member: RawMember,
    name: Seq<char>,
)
    requires
        read_member(bytes, total, limit) == Ok::<RawMember, ErrorView>(member),
        member.name == encode_utf8(name),
        0 < member.used <= bytes.len(),
    ensures
        name == "TRAILER!!!"@ ==> read_archive(bytes, total, limit) == Ok::<
            Seq<EntryView>,
            ErrorView,
        >(Seq::empty()),
        name != "TRAILER!!!"@ && member_name(name) is None ==> read_archive(bytes, total, limit)
            == Err::<Seq<EntryView>, ErrorView>(ErrorView::UnsafeName),
        name != "TRAILER!!!"@ && member_name(name) is Some ==> {
            let behind = read_archive(
                bytes.skip(member.used as int),
                total + member.data.len(),
                limit,
            );
            &&& behind matches Ok(files) ==> read_archive(bytes, total, limit) == Ok::<
                Seq<EntryView>,
                ErrorView,
            >(seq![EntryView { name: member_name(name)->0, bytes: member.data }] + files)
            &&& behind matches Err(error) ==> read_archive(bytes, total, limit) == Err::<
                Seq<EntryView>,
                ErrorView,
            >(error)
        },
{
    encode_utf8_valid_utf8(name);
    encode_utf8_decode_utf8(name);
}

/// Each file of an archive is written below the folder itself as an ordinary file
/// that its owner may change and all may read, and the archive ends with a member
/// called TRAILER!!! that holds nothing.
pub proof fn archives_are_written_member_by_member(
    file: EntryView,
    files: Seq<EntryView>,
    name: Seq<char>,
)
    requires
        packed_name(file.name) == Some(name),
    ensures
        archive_bytes(Seq::empty()) == member_bytes("TRAILER!!!"@, Seq::empty(), 0),
        archive_bytes(seq![file] + files) == member_bytes(
            seq!['.', '/'] + name,
            file.bytes,
            0o100644,
        ) + archive_bytes(files),
{
    let none = Seq::<EntryView>::empty();
    let trailer = member_bytes("TRAILER!!!"@, Seq::empty(), 0);
    assert(members_bytes(none) =~= Seq::empty());
    assert(archive_bytes(none) =~= trailer);
    reveal_strlit("./");
    assert("./"@ =~= seq!['.', '/']);
    assert((seq![file] + files).skip(1) =~= files);
    let first = member_bytes(seq!['.', '/'] + name, file.bytes, 0o100644);
    assert(archive_bytes(seq![file] + files) =~= first + archive_bytes(files));
}

/// A file is packed under the name that its reader will keep.
pub proof fn packed_names_are_kept_ones(name: Seq<char>)
    ensures
        member_name(name) is Some ==> packed_name(name) == member_name(name),
        member_name(name) is None ==> packed_name(name) == safe_name(name),
{
}

/// Files can be packed if and only if each has a name that can be kept and at
/// most four gibibytes less one byte.
pub proof fn what_can_be_packed(files: Seq<EntryView>)
    ensures
        pack_objection(files) is None <==> forall|i: int|
            0 <= i < files.len() ==> packed_name((#[trigger] files[i]).name) is Some
                && files[i].bytes.len() <= 0xFFFF_FFFF,
    decreases files.len(),
{
    if files.len() > 0 {
        let rest = files.skip(1);
        what_can_be_packed(rest);
        if forall|i: int|
            0 <= i < files.len() ==> packed_name((#[trigger] files[i]).name) is Some
                && files[i].bytes.len() <= 0xFFFF_FFFF {
            assert(packed_name(files[0].name) is Some);
            assert forall|i: int| 0 <= i < rest.len() implies packed_name((#[trigger] rest[i]).name)
                is Some && rest[i].bytes.len() <= 0xFFFF_FFFF by {
                assert(rest[i] == files[i + 1]);
            }
        }
        if pack_objection(files) is None {
            assert forall|i: int| 0 <= i < files.len() implies packed_name(
                (#[trigger] files[i]).name,
            ) is Some && files[i].bytes.len() <= 0xFFFF_FFFF by {
                if i > 0 {
                    assert(rest[i - 1] == files[i]);
                }
            }
        }
    }
}

/// What holds an upload: gzip where the upload begins so or its type says so in
/// either case, else an archive as it is where the upload begins as one, else a
/// list of streams where the type says so or the upload begins as one, and gzip
/// otherwise.
pub proof fn uploads_are_told_apart(body: Seq<u8>, content_type: Seq<char>)
    ensures
        ({
            let gzip = body.len() >= 2 && body[0] == 0x1F && body[1] == 0x8B;
            let newc = body.len() >= 6 && body.subrange(0, 6) == seq![48u8, 55, 48, 55, 48, 49];
            let len = 0x100_0000 * body[0] + 0x1_0000 * body[1] + 0x100 * body[2] + body[3];
            let list = body.len() >= 6 && 0 < len < body.len() && (body[4] == 0x78 || (body[4]
                == 0x1F && body[5] == 0x8B));
            &&& gzip ==> upload_data(body, content_type) == gunzipped(body)
            &&& mentions(content_type, "gzip"@) ==> upload_data(body, content_type) == gunzipped(
                body,
            )
            &&& newc && !mentions(content_type, "gzip"@) ==> upload_data(body, content_type)
                == Some(body)
            &&& !gzip && !newc && !mentions(content_type, "gzip"@) && (mentions(
                content_type,
                "dvzip"@,
            ) || list) ==> upload_data(body, content_type) == Some(dvzip_data(body))
            &&& !gzip && !newc && !mentions(content_type, "gzip"@) && !mentions(
                content_type,
                "dvzip"@,
            ) && !list ==> upload_data(body, content_type) == gunzipped(body)
        }),
{
    reveal_strlit("gzip");
    reveal_strlit("dvzip");
    lemma_mentions(content_type, "gzip"@);
    lemma_mentions(content_type, "dvzip"@);
    let mark = seq![0x1Fu8, 0x8Bu8];
    if body.len() >= 2 {
        assert(body.take(2)[0] == body[0] && body.take(2)[1] == body[1]);
        assert(mark[0] == 0x1F && mark[1] == 0x8B);
        if body[0] == 0x1F && body[1] == 0x8B {
            assert(body.take(2) =~= mark);
        }
    }
    if body.len() >= 6 {
        assert(body.take(6) =~= body.subrange(0, 6));
        assert(seq![48u8, 55, 48, 55, 48, 49] =~= seq![0x30u8, 0x37, 0x30, 0x37, 0x30, 0x31]);
        orders_of_bytes(0, body[0], body[1], body[2], body[3]);
        assert(body.take(4) =~= seq![body[0], body[1], body[2], body[3]]);
        let rest = body.skip(4);
        assert(rest.take(2)[0] == body[4] && rest.take(2)[1] == body[5]);
        if body[4] == 0x1F && body[5] == 0x8B {
            assert(rest.take(2) =~= mark);
        }
        if body.subrange(0, 6) == seq![48u8, 55, 48, 55, 48, 49] {
            assert(body[0] == body.subrange(0, 6)[0]);
        }
    }
}

/// An upload of more than the limit is refused before its files are looked at.
pub proof fn uploads_have_a_limit(body: Seq<u8>, content_type: Seq<char>, limit: u64, data: Seq<u8>)
    requires
        upload_data(body, content_type) == Some(data),
    ensures
        data.len() > limit ==> upload_files(body, content_type, limit) == Some(
            Err::<Seq<EntryView>, ErrorView>(ErrorView::TooLarge),
        ),
        data.len() <= limit < u64::MAX ==> upload_files(body, content_type, limit) == Some(
            read_archive(data, 0, limit),
        ),
{
}

/// A list of streams is read stream by stream, each behind its length in four
/// bytes, the highest first; the length zero ends it.
pub proof fn lists_are_read_stream_by_stream(stream: Seq<u8>, rest: Seq<u8>, data: Seq<u8>)
    requires
        0 < stream.len() <= 16 * 1024 * 1024,
        stream_data(stream) == Some(data),
    ensures
        dvzip_data(be(stream.len(), 4) + stream + rest) == data + dvzip_data(rest),
        dvzip_data(seq![0u8, 0, 0, 0] + rest) == Seq::<u8>::empty(),
        dvzip_data(Seq::empty()) == Seq::<u8>::empty(),
{
    lemma_pow256();
    lemma_be(stream.len(), 4);
    let all = be(stream.len(), 4) + stream + rest;
    assert(all.take(4) =~= be(stream.len(), 4));
    assert(all.skip(4) =~= stream + rest);
    assert((stream + rest).take(stream.len() as int) =~= stream);
    assert((stream + rest).skip(stream.len() as int) =~= rest);
    let end = seq![0u8, 0, 0, 0] + rest;
    assert(end.take(4) =~= seq![0u8, 0, 0, 0]);
    orders_of_bytes(0, 0, 0, 0, 0);
}

/// A stream of a list is gzip where it begins so and zlib otherwise.
pub proof fn streams_are_told_apart(stream: Seq<u8>)
    ensures
        ({
            let gzip = stream.len() >= 2 && stream[0] == 0x1F && stream[1] == 0x8B;
            &&& stream_data(stream) matches Some(data) ==> Some(data) == if gzip {
                gunzipped(stream)
            } else {
                unzlibbed(stream)
            }
            &&& gzip && gunzipped(stream) is None ==> stream_data(stream) is None
            &&& !gzip && unzlibbed(stream) is None ==> stream_data(stream) is None
            &&& !gzip && unzlibbed(stream) is Some && unzlibbed(stream)->0.len() <= 0xFFFF_FFFF
                ==> stream_data(stream) is Some
        }),
{
    let mark = seq![0x1Fu8, 0x8Bu8];
    if stream.len() >= 2 {
        assert(stream.take(2)[0] == stream[0] && stream.take(2)[1] == stream[1]);
        assert(mark[0] == 0x1F && mark[1] == 0x8B);
        if stream[0] == 0x1F && stream[1] == 0x8B {
            assert(stream.take(2) =~= mark);
        }
    }
}

/// A list of streams holds an archive in pieces of 64 kibibytes, of which the last
/// may be shorter, and ends with the length zero.
pub proof fn lists_are_written_piece_by_piece(piece: Seq<u8>, rest: Seq<u8>)
    requires
        0 < piece.len() <= 0x1_0000,
        piece.len() < 0x1_0000 ==> rest.len() == 0,
    ensures
        dvzip_bytes(Seq::empty()) == seq![0u8, 0, 0, 0],
        dvzip_bytes(piece + rest) == be(zlibbed(piece).len(), 4) + zlibbed(piece) + dvzip_bytes(
            rest,
        ),
{
    orders_of_bytes(0, 0, 0, 0, 0);
    let none = Seq::<u8>::empty();
    assert(streams_of(none) =~= none);
    assert(dvzip_bytes(none) =~= seq![0u8, 0, 0, 0]);
    let raw = piece + rest;
    assert(piece_len(raw) == piece.len());
    assert(raw.take(piece.len() as int) =~= piece);
    assert(raw.skip(piece.len() as int) =~= rest);
    let stream = zlibbed(piece);
    assert(dvzip_bytes(raw) =~= be(stream.len(), 4) + stream + dvzip_bytes(rest));
}

/// A member without a name, with one of more than 1024 bytes, or that goes beyond
/// the end of the archive is refused.
pub proof fn broken_members_are_refused(bytes: Seq<u8>, total: nat, limit: u64, n: nat, size: nat)
    requires
        bytes.len() >= 110,
        bytes.subrange(0, 6) == seq![48u8, 55, 48, 55, 48, 49],
        bytes[94] != 43,
        bytes[54] != 43,
        digits_value(bytes.subrange(94, 102)) == Some(n),
        digits_value(bytes.subrange(54, 62)) == Some(size),
    ensures
        n == 0 || n > 1024 ==> read_member(bytes, total, limit) is Err,
        bytes.len() < 110 + n + padding(110 + n) + size ==> read_member(bytes, total, limit) is Err,
        total + size > limit ==> read_member(bytes, total, limit) is Err,
{
    reveal(read_member);
    assert(bytes.take(6) =~= bytes.subrange(0, 6));
    assert(seq![48u8, 55, 48, 55, 48, 49] =~= seq![0x30u8, 0x37, 0x30, 0x37, 0x30, 0x31]);
    assert(bytes.subrange(94, 102)[0] == bytes[94]);
    assert(bytes.subrange(54, 62)[0] == bytes[54]);
}

/// A header with something else than digits for a length is refused.
pub proof fn lengths_of_members_are_numbers(bytes: Seq<u8>, total: nat, limit: u64)
    requires
        bytes.len() >= 110,
        bytes[94] != 43,
        bytes[54] != 43,
        digits_value(bytes.subrange(94, 102)) is None || digits_value(bytes.subrange(54, 62))
            is None,
    ensures
        read_member(bytes, total, limit) is Err,
{
    reveal(read_member);
    assert(bytes.subrange(94, 102)[0] == bytes[94]);
    assert(bytes.subrange(54, 62)[0] == bytes[54]);
}

} // verus!
