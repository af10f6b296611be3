//! Control messages.
//!
//! The client opens one bidirectional stream and writes the eight bytes of
//! [`MAGIC`], then length-prefixed messages. The server writes length-prefixed
//! messages on the same stream and does not repeat the magic. Each file is a
//! stream of its own: `u32` file id, `u64` size, `size` bytes, then a 32-byte
//! BLAKE3 digest. Integers are little-endian.

use crate::bytes::{
    array16, get_le, le, le_value, lemma_le, lemma_le_len, lemma_le_of_value, lemma_le_value_bound,
    lemma_pow256, pow256, put_le,
};
use crate::error::{Error, ErrorView, Result};
use crate::text::{decimal, decimal_text, from_utf8, seq_view};
use vstd::prelude::*;
use vstd::utf8::*;

verus! {

pub const MAGIC: [u8; 8] = [0x57, 0x48, 0x4F, 0x4F, 0x53, 0x48, 0x30, 0x31];
pub const MAX_NAME: usize = 1024;
pub const MAX_FILES: usize = 4096;
pub const MAX_MIME: usize = 128;
pub const MAX_REASON: usize = 512;

/// The longest pin of an offer, in bytes.
pub const MAX_PIN: usize = 16;

pub const HELLO: u8 = 1;
pub const OFFER: u8 = 2;
pub const ACCEPT: u8 = 3;
pub const REJECT: u8 = 4;
pub const DONE: u8 = 5;

pub const FLAG_PIN: u8 = 1;

#[derive(Debug, Clone, PartialEq, Eq)]
pub struct Hello {
    pub name: String,
    pub device_id: [u8; 16],
    pub pin_required: bool,
}

#[derive(Debug, Clone, PartialEq, Eq)]
pub struct FileOffer {
    pub id: u32,
    pub size: u64,
    pub name: String,
    pub mime: String,
}

#[derive(Debug, Clone, PartialEq, Eq)]
pub struct Offer {
    pub transfer_id: [u8; 16],
    pub pin: String,
    pub files: Vec<FileOffer>,
}

#[derive(Debug, Clone, PartialEq, Eq)]
pub enum Control {
    Hello(Hello),
    Offer(Offer),
    Accept { transfer_id: [u8; 16] },
    Reject { transfer_id: [u8; 16], reason: String },
    Done { transfer_id: [u8; 16] },
}

pub ghost struct HelloView {
    pub name: Seq<char>,
    pub device_id: Seq<u8>,
    pub pin_required: bool,
}

pub ghost struct FileOfferView {
    pub id: u32,
    pub size: u64,
    pub name: Seq<char>,
    pub mime: Seq<char>,
}

pub ghost struct OfferView {
    pub transfer_id: Seq<u8>,
    pub pin: Seq<char>,
    pub files: Seq<FileOfferView>,
}

pub ghost enum ControlView {
    Hello(HelloView),
    Offer(OfferView),
    Accept { transfer_id: Seq<u8> },
    Reject { transfer_id: Seq<u8>, reason: Seq<char> },
    Done { transfer_id: Seq<u8> },
}

impl View for Hello {
    type V = HelloView;

    open spec fn view(&self) -> HelloView {
        HelloView {
            name: self.name@,
            device_id: self.device_id@,
            pin_required: self.pin_required,
        }
    }
}

impl View for FileOffer {
    type V = FileOfferView;

    open spec fn view(&self) -> FileOfferView {
        FileOfferView { id: self.id, size: self.size, name: self.name@, mime: self.mime@ }
    }
}

impl View for Offer {
    type V = OfferView;

    open spec fn view(&self) -> OfferView {
        OfferView {
            transfer_id: self.transfer_id@,
            pin: self.pin@,
            files: seq_view(self.files@),
        }
    }
}

impl View for Control {
    type V = ControlView;

    open spec fn view(&self) -> ControlView {
        match *self {
            Control::Hello(hello) => ControlView::Hello(hello@),
            Control::Offer(offer) => ControlView::Offer(offer@),
            Control::Accept { transfer_id } => ControlView::Accept { transfer_id: transfer_id@ },
            Control::Reject { transfer_id, reason } => ControlView::Reject {
                transfer_id: transfer_id@,
                reason: reason@,
            },
            Control::Done { transfer_id } => ControlView::Done { transfer_id: transfer_id@ },
        }
    }
}

impl ControlView {
    /// Identifiers are 16 bytes long.
    pub open spec fn wf(self) -> bool {
        match self {
            ControlView::Hello(hello) => hello.device_id.len() == 16,
            ControlView::Offer(offer) => offer.transfer_id.len() == 16,
            ControlView::Accept { transfer_id } => transfer_id.len() == 16,
            ControlView::Reject { transfer_id, .. } => transfer_id.len() == 16,
            ControlView::Done { transfer_id } => transfer_id.len() == 16,
        }
    }
}

/// The text fits in a field of `max` bytes.
pub open spec fn fits(text: Seq<char>, max: nat) -> bool {
    encode_utf8(text).len() <= max
}

/// A text field: its length in two bytes, then its bytes.
pub open spec fn text_bytes(text: Seq<char>) -> Seq<u8> {
    le(encode_utf8(text).len(), 2) + encode_utf8(text)
}

pub open spec fn file_fits(file: FileOfferView) -> bool {
    fits(file.name, MAX_NAME as nat) && fits(file.mime, MAX_MIME as nat)
}

pub open spec fn file_bytes(file: FileOfferView) -> Seq<u8> {
    le(file.id as nat, 4) + le(file.size as nat, 8) + text_bytes(file.name) + text_bytes(file.mime)
}

pub open spec fn files_bytes(files: Seq<FileOfferView>) -> Seq<u8>
    decreases files.len(),
{
    if files.len() == 0 {
        Seq::empty()
    } else {
        file_bytes(files[0]) + files_bytes(files.skip(1))
    }
}

/// Why a message cannot be written.
pub open spec fn unwritable(message: ControlView) -> Option<ErrorView> {
    let too_long = Some(ErrorView::Protocol("field too long"@));
    match message {
        ControlView::Hello(hello) => if fits(hello.name, MAX_NAME as nat) {
            None
        } else {
            too_long
        },
        ControlView::Offer(offer) => if !fits(offer.pin, MAX_PIN as nat) {
            too_long
        } else if offer.files.len() > MAX_FILES {
            Some(ErrorView::Protocol("too many files"@))
        } else if forall|i: int| 0 <= i < offer.files.len() ==> file_fits(#[trigger] offer.files[i]) {
            None
        } else {
            too_long
        },
        ControlView::Reject { reason, .. } => if fits(reason, MAX_REASON as nat) {
            None
        } else {
            too_long
        },
        _ => None,
    }
}

/// A message behind its length.
pub open spec fn body_bytes(message: ControlView) -> Seq<u8> {
    match message {
        ControlView::Hello(hello) => seq![HELLO] + text_bytes(hello.name) + hello.device_id + seq![
            if hello.pin_required {
                FLAG_PIN
            } else {
                0
            },
        ],
        ControlView::Offer(offer) => seq![OFFER] + offer.transfer_id + text_bytes(offer.pin) + le(
            offer.files.len(),
            4,
        ) + files_bytes(offer.files),
        ControlView::Accept { transfer_id } => seq![ACCEPT] + transfer_id,
        ControlView::Reject { transfer_id, reason } => seq![REJECT] + transfer_id + text_bytes(
            reason,
        ),
        ControlView::Done { transfer_id } => seq![DONE] + transfer_id,
    }
}

/// A message as it is written.
pub open spec fn frame_bytes(message: ControlView) -> Seq<u8> {
    le(body_bytes(message).len(), 4) + body_bytes(message)
}

pub open spec fn truncated<T>() -> std::result::Result<(T, Seq<u8>), ErrorView> {
    Err(ErrorView::Protocol("truncated"@))
}

/// The number in the first `width` bytes, and what follows.
pub open spec fn read_number(bytes: Seq<u8>, width: nat) -> std::result::Result<
    (nat, Seq<u8>),
    ErrorView,
> {
    if bytes.len() < width {
        truncated()
    } else {
        Ok((le_value(bytes.take(width as int)), bytes.skip(width as int)))
    }
}

/// The first 16 bytes, and what follows.
pub open spec fn read_id(bytes: Seq<u8>) -> std::result::Result<(Seq<u8>, Seq<u8>), ErrorView> {
    if bytes.len() < 16 {
        truncated()
    } else {
        Ok((bytes.take(16), bytes.skip(16)))
    }
}

/// The text field of at most `max` bytes in front, and what follows.
#[verifier::opaque]
pub open spec fn read_text(bytes: Seq<u8>, max: nat) -> std::result::Result<
    (Seq<char>, Seq<u8>),
    ErrorView,
> {
    match read_number(bytes, 2) {
        Err(error) => Err(error),
        Ok((len, rest)) => if len > max {
            Err(ErrorView::Protocol("field too long"@))
        } else if rest.len() < len {
            truncated()
        } else if !valid_utf8(rest.take(len as int)) {
            Err(ErrorView::Protocol("name is not utf-8"@))
        } else {
            Ok((decode_utf8(rest.take(len as int)), rest.skip(len as int)))
        },
    }
}

/// The file in front, and what follows.
#[verifier::opaque]
pub open spec fn read_file(bytes: Seq<u8>) -> std::result::Result<
    (FileOfferView, Seq<u8>),
    ErrorView,
> {
    match read_number(bytes, 4) {
        Err(error) => Err(error),
        Ok((id, bytes)) => match read_number(bytes, 8) {
            Err(error) => Err(error),
            Ok((size, bytes)) => match read_text(bytes, MAX_NAME as nat) {
                Err(error) => Err(error),
                Ok((name, bytes)) => match read_text(bytes, MAX_MIME as nat) {
                    Err(error) => Err(error),
                    Ok((mime, bytes)) => Ok(
                        (FileOfferView { id: id as u32, size: size as u64, name, mime }, bytes),
                    ),
                },
            },
        },
    }
}

/// The next `count` files, and what follows.
pub open spec fn read_files(bytes: Seq<u8>, count: nat) -> std::result::Result<
    (Seq<FileOfferView>, Seq<u8>),
    ErrorView,
>
    decreases count,
{
    if count == 0 {
        Ok((Seq::empty(), bytes))
    } else {
        match read_file(bytes) {
            Err(error) => Err(error),
            Ok((file, bytes)) => match read_files(bytes, (count - 1) as nat) {
                Err(error) => Err(error),
                Ok((files, bytes)) => Ok((seq![file] + files, bytes)),
            },
        }
    }
}

pub open spec fn read_hello(bytes: Seq<u8>) -> std::result::Result<
    (ControlView, Seq<u8>),
    ErrorView,
> {
    match read_text(bytes, MAX_NAME as nat) {
        Err(error) => Err(error),
        Ok((name, bytes)) => match read_id(bytes) {
            Err(error) => Err(error),
            Ok((device_id, bytes)) => match read_number(bytes, 1) {
                Err(error) => Err(error),
                Ok((flags, bytes)) => Ok(
                    (
                        ControlView::Hello(
                            HelloView { name, device_id, pin_required: flags % 2 == 1 },
                        ),
                        bytes,
                    ),
                ),
            },
        },
    }
}

pub open spec fn read_offer(bytes: Seq<u8>) -> std::result::Result<
    (ControlView, Seq<u8>),
    ErrorView,
> {
    match read_id(bytes) {
        Err(error) => Err(error),
        Ok((transfer_id, bytes)) => match read_text(bytes, MAX_PIN as nat) {
            Err(error) => Err(error),
            Ok((pin, bytes)) => match read_number(bytes, 4) {
                Err(error) => Err(error),
                Ok((count, bytes)) => if count > MAX_FILES {
                    Err(ErrorView::Protocol("too many files"@))
                } else {
                    match read_files(bytes, count) {
                        Err(error) => Err(error),
                        Ok((files, bytes)) => Ok(
                            (ControlView::Offer(OfferView { transfer_id, pin, files }), bytes),
                        ),
                    }
                },
            },
        },
    }
}

pub open spec fn read_reject(bytes: Seq<u8>) -> std::result::Result<
    (ControlView, Seq<u8>),
    ErrorView,
> {
    match read_id(bytes) {
        Err(error) => Err(error),
        Ok((transfer_id, bytes)) => match read_text(bytes, MAX_REASON as nat) {
            Err(error) => Err(error),
            Ok((reason, bytes)) => Ok((ControlView::Reject { transfer_id, reason }, bytes)),
        },
    }
}

/// The message that a body holds, and what follows it.
pub open spec fn read_body(body: Seq<u8>) -> std::result::Result<(ControlView, Seq<u8>), ErrorView> {
    let tag = body[0];
    let bytes = body.skip(1);
    if tag == HELLO {
        read_hello(bytes)
    } else if tag == OFFER {
        read_offer(bytes)
    } else if tag == ACCEPT {
        match read_id(bytes) {
            Err(error) => Err(error),
            Ok((transfer_id, bytes)) => Ok((ControlView::Accept { transfer_id }, bytes)),
        }
    } else if tag == REJECT {
        read_reject(bytes)
    } else if tag == DONE {
        match read_id(bytes) {
            Err(error) => Err(error),
            Ok((transfer_id, bytes)) => Ok((ControlView::Done { transfer_id }, bytes)),
        }
    } else {
        Err(ErrorView::Protocol("unknown control tag "@ + decimal_text(tag as nat)))
    }
}

/// The message in front of `bytes`, and how many bytes it takes.
pub open spec fn read_frame(bytes: Seq<u8>) -> std::result::Result<(ControlView, nat), ErrorView> {
    if bytes.len() < 4 {
        Err(ErrorView::Protocol("short control frame"@))
    } else {
        let len = le_value(bytes.take(4));
        if bytes.len() < 4 + len || len == 0 {
            Err(ErrorView::Protocol("truncated control frame"@))
        } else {
            match read_body(bytes.subrange(4, (4 + len) as int)) {
                Err(error) => Err(error),
                Ok((message, rest)) => if rest.len() > 0 {
                    Err(ErrorView::Protocol("trailing control bytes"@))
                } else {
                    Ok((message, 4 + len))
                },
            }
        }
    }
}

/// The value and the rest that an exec reader took, by their views.
pub open spec fn took<T: View>(taken: Result<(T, &[u8])>) -> std::result::Result<
    (T::V, Seq<u8>),
    ErrorView,
> {
    match taken {
        Ok((value, rest)) => Ok((value@, rest@)),
        Err(error) => Err(error@),
    }
}

proof fn lemma_file_bytes_len(file: FileOfferView)
    requires
        file_fits(file),
    ensures
        file_bytes(file).len() <= 16 + MAX_NAME + MAX_MIME,
{
    lemma_le_len(file.id as nat, 4);
    lemma_le_len(file.size as nat, 8);
    lemma_le_len(encode_utf8(file.name).len(), 2);
    lemma_le_len(encode_utf8(file.mime).len(), 2);
}

proof fn lemma_files_bytes_len(files: Seq<FileOfferView>)
    requires
        forall|i: int| 0 <= i < files.len() ==> file_fits(#[trigger] files[i]),
    ensures
        files_bytes(files).len() <= files.len() * (16 + MAX_NAME + MAX_MIME),
    decreases files.len(),
{
    if files.len() > 0 {
        lemma_file_bytes_len(files[0]);
        lemma_files_bytes_len(files.skip(1));
        assert(files.len() * (16 + MAX_NAME + MAX_MIME) == (files.len() - 1) * (16 + MAX_NAME
            + MAX_MIME) + (16 + MAX_NAME + MAX_MIME)) by (nonlinear_arith);
    }
}

/// The body of a message that can be written is short enough for its length
/// field.
proof fn lemma_body_len(message: ControlView)
    requires
        message.wf(),
        unwritable(message) is None,
    ensures
        1 <= body_bytes(message).len() <= 0x100_0000,
{
    match message {
        ControlView::Hello(hello) => {
            lemma_le_len(encode_utf8(hello.name).len(), 2);
        },
        ControlView::Offer(offer) => {
            lemma_le_len(encode_utf8(offer.pin).len(), 2);
            lemma_le_len(offer.files.len(), 4);
            lemma_files_bytes_len(offer.files);
            assert(offer.files.len() * (16 + MAX_NAME + MAX_MIME) <= MAX_FILES * (16 + MAX_NAME
                + MAX_MIME)) by (nonlinear_arith)
                requires
                    offer.files.len() <= MAX_FILES,
            ;
        },
        ControlView::Reject { reason, .. } => {
            lemma_le_len(encode_utf8(reason).len(), 2);
        },
        _ => {},
    }
}

/// Writes a message.
pub fn encode(message: &Control) -> (framed: Result<Vec<u8>>)
    ensures
        match unwritable(message@) {
            Some(error) => framed is Err && framed->Err_0@ == error,
            None => framed is Ok && framed->Ok_0@ == frame_bytes(message@),
        },
{
    let mut body: Vec<u8> = Vec::new();
    match message {
        Control::Hello(hello) => {
            body.push(HELLO);
            write_str(&mut body, hello.name.as_str(), MAX_NAME)?;
            body.extend_from_slice(&hello.device_id);
            body.push(
                if hello.pin_required {
                    FLAG_PIN
                } else {
                    0
                },
            );
        },
        Control::Offer(offer) => {
            body.push(OFFER);
            body.extend_from_slice(&offer.transfer_id);
            write_str(&mut body, offer.pin.as_str(), MAX_PIN)?;
            if offer.files.len() > MAX_FILES {
                return Err(Error::protocol("too many files"));
            }
            put_le(&mut body, offer.files.len() as u64, 4);
            let ghost head = body@;
            let ghost files = seq_view(offer.files@);
            assert(files.skip(0) =~= files);
            assert(body@ + files_bytes(files) =~= head + files_bytes(files));
            for i in 0..offer.files.len()
                invariant
                    message@ == ControlView::Offer(offer@),
                    fits(offer@.pin, MAX_PIN as nat),
                    files == seq_view(offer.files@),
                    files.len() <= MAX_FILES,
                    body@ + files_bytes(files.skip(i as int)) == head + files_bytes(files),
                    forall|j: int| 0 <= j < i ==> file_fits(#[trigger] files[j]),
            {
                let ghost before = body@;
                assert(files.skip(i as int)[0] == files[i as int]);
                assert(files.skip(i as int).skip(1) =~= files.skip(i + 1));
                assert(!file_fits(files[i as int]) ==> unwritable(message@) == Some(
                    ErrorView::Protocol("field too long"@),
                ));
                let file = &offer.files[i];
                put_le(&mut body, file.id as u64, 4);
                put_le(&mut body, file.size, 8);
                write_str(&mut body, file.name.as_str(), MAX_NAME)?;
                write_str(&mut body, file.mime.as_str(), MAX_MIME)?;
                assert(body@ =~= before + file_bytes(file@));
                assert(body@ + files_bytes(files.skip(i + 1)) =~= before + files_bytes(
                    files.skip(i as int),
                ));
            }
            assert(files.skip(files.len() as int) =~= Seq::empty());
            assert(body@ + Seq::<u8>::empty() =~= body@);
        },
        Control::Accept { transfer_id } => {
            body.push(ACCEPT);
            body.extend_from_slice(transfer_id);
        },
        Control::Reject { transfer_id, reason } => {
            body.push(REJECT);
            body.extend_from_slice(transfer_id);
            write_str(&mut body, reason.as_str(), MAX_REASON)?;
        },
        Control::Done { transfer_id } => {
            body.push(DONE);
            body.extend_from_slice(transfer_id);
        },
    }
    assert(body@ =~= body_bytes(message@));
    let mut framed: Vec<u8> = Vec::new();
    put_le(&mut framed, body.len() as u64, 4);
    framed.extend_from_slice(body.as_slice());
    assert(framed@ =~= frame_bytes(message@));
    Ok(framed)
}

/// Reads the message in front of `bytes` and says how many bytes it takes.
pub fn decode(bytes: &[u8]) -> (decoded: Result<(Control, usize)>)
    ensures
        match decoded {
            Ok((message, used)) => read_frame(bytes@) == Ok::<(ControlView, nat), ErrorView>(
                (message@, used as nat),
            ),
            Err(error) => read_frame(bytes@) == Err::<(ControlView, nat), ErrorView>(error@),
        },
{
    if bytes.len() < 4 {
        return Err(Error::protocol("short control frame"));
    }
    let (prefix, rest) = bytes.split_at(4);
    let len: u64 = get_le(prefix);
    if (rest.len() as u64) < len || len == 0 {
        return Err(Error::protocol("truncated control frame"));
    }
    let len: usize = len as usize;
    let (body, _) = rest.split_at(len);
    assert(body@ =~= bytes@.subrange(4, 4 + len));
    let (message, left) = take_body(body)?;
    if left.len() > 0 {
        return Err(Error::protocol("trailing control bytes"));
    }
    Ok((message, 4 + len))
}

fn take_body(body: &[u8]) -> (taken: Result<(Control, &[u8])>)
    requires
        body@.len() > 0,
    ensures
        took(taken) == read_body(body@),
{
    let (head, bytes) = body.split_at(1);
    assert(bytes@ =~= body@.skip(1));
    let tag: u8 = head[0];
    if tag == HELLO {
        let (name, bytes) = take_str(bytes, MAX_NAME)?;
        let (device_id, bytes) = take_id(bytes)?;
        let (flags, bytes) = take_number(bytes, 1)?;
        Ok((Control::Hello(Hello { name, device_id, pin_required: flags % 2 == 1 }), bytes))
    } else if tag == OFFER {
        let (transfer_id, bytes) = take_id(bytes)?;
        let (pin, bytes) = take_str(bytes, MAX_PIN)?;
        let (count, bytes) = take_number(bytes, 4)?;
        if count > MAX_FILES as u64 {
            return Err(Error::protocol("too many files"));
        }
        let (files, bytes) = take_files(bytes, count as usize)?;
        Ok((Control::Offer(Offer { transfer_id, pin, files }), bytes))
    } else if tag == ACCEPT {
        let (transfer_id, bytes) = take_id(bytes)?;
        Ok((Control::Accept { transfer_id }, bytes))
    } else if tag == REJECT {
        let (transfer_id, bytes) = take_id(bytes)?;
        let (reason, bytes) = take_str(bytes, MAX_REASON)?;
        Ok((Control::Reject { transfer_id, reason }, bytes))
    } else if tag == DONE {
        let (transfer_id, bytes) = take_id(bytes)?;
        Ok((Control::Done { transfer_id }, bytes))
    } else {
        let mut message = "unknown control tag ".to_owned();
        message.append(decimal(tag as u64).as_str());
        Err(Error::Protocol(message))
    }
}

fn take_files(bytes: &[u8], count: usize) -> (taken: Result<(Vec<FileOffer>, &[u8])>)
    ensures
        match taken {
            Ok((files, rest)) => read_files(bytes@, count as nat) == Ok::<
                (Seq<FileOfferView>, Seq<u8>),
                ErrorView,
            >((seq_view(files@), rest@)),
            Err(error) => read_files(bytes@, count as nat) == Err::<
                (Seq<FileOfferView>, Seq<u8>),
                ErrorView,
            >(error@),
        },
{
    let mut files: Vec<FileOffer> = Vec::new();
    let mut rest: &[u8] = bytes;
    proof {
        if let Ok((all, end)) = read_files(bytes@, count as nat) {
            assert(seq_view(files@) + all =~= all);
        }
    }
    for i in 0..count
        invariant
            read_files(bytes@, count as nat) == match read_files(rest@, (count - i) as nat) {
                Ok((more, end)) => Ok((seq_view(files@) + more, end)),
                Err(error) => Err(error),
            },
    {
        let ghost before = seq_view(files@);
        let (file, after) = take_file(rest)?;
        files.push(file);
        rest = after;
        proof {
            assert(seq_view(files@) =~= before.push(file@));
            if let Ok((more, end)) = read_files(rest@, (count - i - 1) as nat) {
                assert(before + (seq![file@] + more) =~= seq_view(files@) + more);
            }
        }
    }
    assert(seq_view(files@) + Seq::empty() =~= seq_view(files@));
    Ok((files, rest))
}

fn take_file(bytes: &[u8]) -> (taken: Result<(FileOffer, &[u8])>)
    ensures
        took(taken) == read_file(bytes@),
{
    proof {
        reveal(read_file);
        lemma_pow256();
        lemma_le_value_bound(bytes@.take(4));
        lemma_le_value_bound(bytes@.skip(4).take(8));
    }
    let (id, bytes) = take_number(bytes, 4)?;
    let (size, bytes) = take_number(bytes, 8)?;
    let (name, bytes) = take_str(bytes, MAX_NAME)?;
    let (mime, bytes) = take_str(bytes, MAX_MIME)?;
    Ok((FileOffer { id: id as u32, size, name, mime }, bytes))
}

fn write_str(out: &mut Vec<u8>, value: &str, max: usize) -> (written: Result<()>)
    requires
        max <= 0xffff,
    ensures
        fits(value@, max as nat) ==> written is Ok && final(out)@ == old(out)@ + text_bytes(value@),
        !fits(value@, max as nat) ==> written is Err && written->Err_0@ == ErrorView::Protocol(
            "field too long"@,
        ),
{
    let bytes = value.as_bytes();
    if bytes.len() > max {
        return Err(Error::protocol("field too long"));
    }
    put_le(out, bytes.len() as u64, 2);
    out.extend_from_slice(bytes);
    assert(out@ =~= old(out)@ + text_bytes(value@));
    Ok(())
}

fn take_number(bytes: &[u8], width: usize) -> (taken: Result<(u64, &[u8])>)
    requires
        width <= 8,
    ensures
        match taken {
            Ok((value, rest)) => read_number(bytes@, width as nat) == Ok::<
                (nat, Seq<u8>),
                ErrorView,
            >((value as nat, rest@)),
            Err(error) => read_number(bytes@, width as nat) == Err::<(nat, Seq<u8>), ErrorView>(
                error@,
            ),
        },
{
    if bytes.len() < width {
        return Err(Error::protocol("truncated"));
    }
    let (head, rest) = bytes.split_at(width);
    assert(head@ =~= bytes@.take(width as int));
    assert(rest@ =~= bytes@.skip(width as int));
    Ok((get_le(head), rest))
}

fn take_id(bytes: &[u8]) -> (taken: Result<([u8; 16], &[u8])>)
    ensures
        took(taken) == read_id(bytes@),
{
    if bytes.len() < 16 {
        return Err(Error::protocol("truncated"));
    }
    let (head, rest) = bytes.split_at(16);
    assert(head@ =~= bytes@.take(16));
    assert(rest@ =~= bytes@.skip(16));
    Ok((array16(head), rest))
}

fn take_str(bytes: &[u8], max: usize) -> (taken: Result<(String, &[u8])>)
    ensures
        took(taken) == read_text(bytes@, max as nat),
{
    proof {
        reveal(read_text);
    }
    let (len, rest) = take_number(bytes, 2)?;
    if len > max as u64 {
        return Err(Error::protocol("field too long"));
    }
    if (rest.len() as u64) < len {
        return Err(Error::protocol("truncated"));
    }
    let (text, after) = rest.split_at(len as usize);
    assert(text@ =~= rest@.take(len as int));
    assert(after@ =~= rest@.skip(len as int));
    match from_utf8(text) {
        Some(text) => Ok((text, after)),
        None => Err(Error::protocol("name is not utf-8")),
    }
}

/// The header of a file's stream.
pub open spec fn file_header(file_id: u32, size: u64) -> Seq<u8> {
    le(file_id as nat, 4) + le(size as nat, 8)
}

pub fn encode_file_header(file_id: u32, size: u64) -> (header: [u8; 12])
    ensures
        header@ == file_header(file_id, size),
{
    let mut bytes: Vec<u8> = Vec::new();
    put_le(&mut bytes, file_id as u64, 4);
    put_le(&mut bytes, size, 8);
    proof {
        lemma_le_len(file_id as nat, 4);
        lemma_le_len(size as nat, 8);
    }
    let mut header = [0u8; 12];
    for i in 0..12
        invariant
            bytes@.len() == 12,
            forall|j: int| 0 <= j < i ==> header@[j] == bytes@[j],
    {
        header[i] = bytes[i];
    }
    assert(header@ =~= bytes@);
    assert(bytes@ =~= file_header(file_id, size));
    header
}

proof fn lemma_number_read(value: nat, width: nat, rest: Seq<u8>)
    requires
        value < pow256(width),
    ensures
        read_number(le(value, width) + rest, width) == Ok::<(nat, Seq<u8>), ErrorView>(
            (value, rest),
        ),
{
    lemma_le(value, width);
    assert((le(value, width) + rest).take(width as int) =~= le(value, width));
    assert((le(value, width) + rest).skip(width as int) =~= rest);
}

proof fn lemma_text_read(text: Seq<char>, max: nat, rest: Seq<u8>)
    requires
        fits(text, max),
        max <= 0xffff,
    ensures
        read_text(text_bytes(text) + rest, max) == Ok::<(Seq<char>, Seq<u8>), ErrorView>(
            (text, rest),
        ),
{
    reveal(read_text);
    let bytes = encode_utf8(text);
    lemma_pow256();
    lemma_number_read(bytes.len(), 2, bytes + rest);
    assert(text_bytes(text) + rest =~= le(bytes.len(), 2) + (bytes + rest));
    assert((bytes + rest).take(bytes.len() as int) =~= bytes);
    assert((bytes + rest).skip(bytes.len() as int) =~= rest);
    encode_utf8_valid_utf8(text);
    encode_utf8_decode_utf8(text);
}

proof fn lemma_id_read(id: Seq<u8>, rest: Seq<u8>)
    requires
        id.len() == 16,
    ensures
        read_id(id + rest) == Ok::<(Seq<u8>, Seq<u8>), ErrorView>((id, rest)),
{
    assert((id + rest).take(16) =~= id);
    assert((id + rest).skip(16) =~= rest);
}

proof fn lemma_file_read(file: FileOfferView, rest: Seq<u8>)
    requires
        file_fits(file),
    ensures
        read_file(file_bytes(file) + rest) == Ok::<(FileOfferView, Seq<u8>), ErrorView>(
            (file, rest),
        ),
{
    reveal(read_file);
    lemma_pow256();
    let after_mime = rest;
    let after_name = text_bytes(file.mime) + after_mime;
    let after_size = text_bytes(file.name) + after_name;
    let after_id = le(file.size as nat, 8) + after_size;
    assert(file_bytes(file) + rest =~= le(file.id as nat, 4) + after_id);
    lemma_number_read(file.id as nat, 4, after_id);
    lemma_number_read(file.size as nat, 8, after_size);
    lemma_text_read(file.name, MAX_NAME as nat, after_name);
    lemma_text_read(file.mime, MAX_MIME as nat, after_mime);
}

proof fn lemma_files_read(files: Seq<FileOfferView>, rest: Seq<u8>)
    requires
        forall|i: int| 0 <= i < files.len() ==> file_fits(#[trigger] files[i]),
    ensures
        read_files(files_bytes(files) + rest, files.len()) == Ok::<
            (Seq<FileOfferView>, Seq<u8>),
            ErrorView,
        >((files, rest)),
    decreases files.len(),
{
    if files.len() > 0 {
        let tail = files.skip(1);
        lemma_files_read(tail, rest);
        lemma_file_read(files[0], files_bytes(tail) + rest);
        assert(files_bytes(files) + rest =~= file_bytes(files[0]) + (files_bytes(tail) + rest));
        assert(seq![files[0]] + tail =~= files);
    } else {
        assert(files_bytes(files) + rest =~= rest);
        assert(files =~= Seq::empty());
    }
}

proof fn lemma_body_read(message: ControlView)
    requires
        message.wf(),
        unwritable(message) is None,
    ensures
        read_body(body_bytes(message)) == Ok::<(ControlView, Seq<u8>), ErrorView>(
            (message, Seq::empty()),
        ),
{
    let none = Seq::<u8>::empty();
    let body = body_bytes(message);
    let bytes = body.skip(1);
    lemma_pow256();
    match message {
        ControlView::Hello(hello) => {
            let flag: u8 = if hello.pin_required {
                FLAG_PIN
            } else {
                0
            };
            let after_name = hello.device_id + (le(flag as nat, 1) + none);
            reveal_with_fuel(le, 2);
            assert(le(flag as nat, 1) =~= seq![flag]);
            assert(bytes =~= text_bytes(hello.name) + after_name);
            lemma_text_read(hello.name, MAX_NAME as nat, after_name);
            lemma_id_read(hello.device_id, le(flag as nat, 1) + none);
            lemma_number_read(flag as nat, 1, none);
        },
        ControlView::Offer(offer) => {
            let after_count = files_bytes(offer.files) + none;
            let after_pin = le(offer.files.len(), 4) + after_count;
            let after_id = text_bytes(offer.pin) + after_pin;
            assert(bytes =~= offer.transfer_id + after_id);
            lemma_id_read(offer.transfer_id, after_id);
            lemma_text_read(offer.pin, MAX_PIN as nat, after_pin);
            lemma_number_read(offer.files.len(), 4, after_count);
            lemma_files_read(offer.files, none);
        },
        ControlView::Reject { transfer_id, reason } => {
            assert(bytes =~= transfer_id + (text_bytes(reason) + none));
            lemma_id_read(transfer_id, text_bytes(reason) + none);
            lemma_text_read(reason, MAX_REASON as nat, none);
        },
        ControlView::Accept { transfer_id } => {
            assert(bytes =~= transfer_id + none);
            lemma_id_read(transfer_id, none);
        },
        ControlView::Done { transfer_id } => {
            assert(bytes =~= transfer_id + none);
            lemma_id_read(transfer_id, none);
        },
    }
}

/// Every message that can be written is read back, whatever follows it, and
/// takes as many bytes as were written.
pub proof fn frame_roundtrip(message: ControlView, more: Seq<u8>)
    requires
        message.wf(),
        unwritable(message) is None,
    ensures
        read_frame(frame_bytes(message) + more) == Ok::<(ControlView, nat), ErrorView>(
            (message, frame_bytes(message).len()),
        ),
{
    let body = body_bytes(message);
    let all = frame_bytes(message) + more;
    lemma_body_len(message);
    lemma_pow256();
    lemma_le(body.len(), 4);
    assert(all.take(4) =~= le(body.len(), 4));
    assert(all.subrange(4, (4 + body.len()) as int) =~= body);
    lemma_body_read(message);
}

/// A frame that lacks its last byte or more is refused.
pub proof fn truncated_frame_is_refused(message: ControlView, len: nat)
    requires
        message.wf(),
        unwritable(message) is None,
        len < frame_bytes(message).len(),
    ensures
        read_frame(frame_bytes(message).take(len as int)) is Err,
{
    let body = body_bytes(message);
    lemma_body_len(message);
    lemma_pow256();
    lemma_le(body.len(), 4);
    let part = frame_bytes(message).take(len as int);
    if len >= 4 {
        assert(part.take(4) =~= le(body.len(), 4));
    }
}

proof fn lemma_number_written(bytes: Seq<u8>, width: nat)
    requires
        read_number(bytes, width) is Ok,
    ensures
        ({
            let (value, rest) = read_number(bytes, width)->Ok_0;
            &&& value < pow256(width)
            &&& bytes == le(value, width) + rest
        }),
{
    let head = bytes.take(width as int);
    lemma_le_value_bound(head);
    lemma_le_of_value(head);
    assert(bytes =~= head + bytes.skip(width as int));
}

proof fn lemma_text_written(bytes: Seq<u8>, max: nat)
    requires
        read_text(bytes, max) is Ok,
    ensures
        ({
            let (text, rest) = read_text(bytes, max)->Ok_0;
            &&& fits(text, max)
            &&& bytes == text_bytes(text) + rest
        }),
{
    reveal(read_text);
    lemma_number_written(bytes, 2);
    let (len, after) = read_number(bytes, 2)->Ok_0;
    let raw = after.take(len as int);
    decode_utf8_encode_utf8(raw);
    assert(bytes =~= le(len, 2) + raw + after.skip(len as int));
}

proof fn lemma_file_written(bytes: Seq<u8>)
    requires
        read_file(bytes) is Ok,
    ensures
        ({
            let (file, rest) = read_file(bytes)->Ok_0;
            &&& file_fits(file)
            &&& bytes == file_bytes(file) + rest
        }),
{
    reveal(read_file);
    lemma_pow256();
    lemma_number_written(bytes, 4);
    let (id, one) = read_number(bytes, 4)->Ok_0;
    lemma_number_written(one, 8);
    let (size, two) = read_number(one, 8)->Ok_0;
    lemma_text_written(two, MAX_NAME as nat);
    let (name, three) = read_text(two, MAX_NAME as nat)->Ok_0;
    lemma_text_written(three, MAX_MIME as nat);
    let (file, rest) = read_file(bytes)->Ok_0;
    assert(bytes =~= file_bytes(file) + rest);
}

proof fn lemma_files_written(bytes: Seq<u8>, count: nat)
    requires
        read_files(bytes, count) is Ok,
    ensures
        ({
            let (files, rest) = read_files(bytes, count)->Ok_0;
            &&& files.len() == count
            &&& forall|i: int| 0 <= i < files.len() ==> file_fits(#[trigger] files[i])
            &&& bytes == files_bytes(files) + rest
        }),
    decreases count,
{
    let (files, rest) = read_files(bytes, count)->Ok_0;
    if count > 0 {
        lemma_file_written(bytes);
        let (file, after) = read_file(bytes)->Ok_0;
        lemma_files_written(after, (count - 1) as nat);
        let tail = read_files(after, (count - 1) as nat)->Ok_0.0;
        assert(files.skip(1) =~= tail);
        assert forall|i: int| 0 <= i < files.len() implies file_fits(#[trigger] files[i]) by {
            if i > 0 {
                assert(files[i] == tail[i - 1]);
            }
        }
        assert(bytes =~= files_bytes(files) + rest);
    } else {
        assert(bytes =~= files_bytes(files) + rest);
    }
}

proof fn lemma_body_written(body: Seq<u8>)
    requires
        body.len() > 0,
        read_body(body) is Ok,
        read_body(body)->Ok_0.1.len() == 0,
    ensures
        ({
            let message = read_body(body)->Ok_0.0;
            &&& message.wf()
            &&& unwritable(message) is None
            &&& body_bytes(message) == if message is Hello {
                body.drop_last().push(body.last() % 2)
            } else {
                body
            }
        }),
{
    let (message, end) = read_body(body)->Ok_0;
    let bytes = body.skip(1);
    lemma_pow256();
    match message {
        ControlView::Hello(hello) => {
            lemma_text_written(bytes, MAX_NAME as nat);
            let (name, one) = read_text(bytes, MAX_NAME as nat)->Ok_0;
            let (device_id, two) = read_id(one)->Ok_0;
            let (flags, rest) = read_number(two, 1)->Ok_0;
            reveal_with_fuel(le_value, 2);
            assert(two.take(1).skip(1) =~= Seq::empty());
            assert(flags == two[0] as nat);
            assert(rest == end);
            assert(two.len() == 1);
            assert(one =~= device_id + two);
            assert(bytes =~= text_bytes(name) + device_id + two);
            assert(bytes[bytes.len() - 1] == two[0]);
            assert(body.last() == two[0]);
            let flag: u8 = if hello.pin_required {
                FLAG_PIN
            } else {
                0
            };
            assert(flag == body.last() % 2);
            let front = seq![HELLO] + text_bytes(name) + device_id;
            assert(body =~= seq![body[0]] + bytes);
            assert(body.drop_last() =~= front);
            assert(body_bytes(message) =~= front + seq![flag]);
            assert(body_bytes(message) =~= body.drop_last().push(body.last() % 2));
        },
        ControlView::Offer(offer) => {
            let (transfer_id, one) = read_id(bytes)->Ok_0;
            lemma_text_written(one, MAX_PIN as nat);
            let (pin, two) = read_text(one, MAX_PIN as nat)->Ok_0;
            lemma_number_written(two, 4);
            let (count, three) = read_number(two, 4)->Ok_0;
            lemma_files_written(three, count);
            let (files, rest) = read_files(three, count)->Ok_0;
            assert(rest == end);
            assert(three =~= files_bytes(files));
            assert(one =~= text_bytes(pin) + (le(count, 4) + three));
            assert(bytes =~= transfer_id + one);
            assert(body_bytes(message) =~= seq![body[0]] + bytes);
            assert(body =~= seq![body[0]] + bytes);
        },
        ControlView::Reject { transfer_id, reason } => {
            let (id, one) = read_id(bytes)->Ok_0;
            lemma_text_written(one, MAX_REASON as nat);
            assert(bytes =~= id + one);
            assert(body_bytes(message) =~= body);
        },
        ControlView::Accept { transfer_id } => {
            assert(body_bytes(message) =~= body);
        },
        ControlView::Done { transfer_id } => {
            assert(body_bytes(message) =~= body);
        },
    }
}

/// A message that was read is written as the bytes that it was read from, but for
/// the flags of a greeting, of which the lowest bit alone is kept.
pub proof fn read_message_is_written_back(bytes: Seq<u8>)
    requires
        read_frame(bytes) is Ok,
    ensures
        ({
            let (message, used) = read_frame(bytes)->Ok_0;
            &&& message.wf()
            &&& unwritable(message) is None
            &&& used == 4 + le_value(bytes.take(4))
            &&& 4 < used <= bytes.len()
            &&& frame_bytes(message).len() == used
            &&& frame_bytes(message) == if message is Hello {
                bytes.take(used - 1).push(bytes[used - 1] % 2)
            } else {
                bytes.take(used as int)
            }
        }),
{
    let (message, used) = read_frame(bytes)->Ok_0;
    let body = bytes.subrange(4, used as int);
    lemma_body_written(body);
    lemma_le_of_value(bytes.take(4));
    assert(body_bytes(message).len() == body.len());
    assert(frame_bytes(message) =~= if message is Hello {
        bytes.take(used - 1).push(bytes[used - 1] % 2)
    } else {
        bytes.take(used as int)
    });
}

} // verus!
