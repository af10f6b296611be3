//! The protobuf wire format: a message is a list of fields, each a key and a
//! value.

use crate::text::{from_utf8, opt_view, seq_view};
use vstd::prelude::*;
use vstd::slice::slice_to_vec;
use vstd::utf8::*;

verus! {

/// `prost::DecodeError`, which says why bytes are no message.
#[verifier::external_type_specification]
#[verifier::external_body]
pub struct ExDecodeError(prost::DecodeError);

/// The bytes are no well-formed message of the wanted type.
#[derive(Debug, Clone, Copy, PartialEq, Eq, Structural)]
pub struct Malformed;

/// The base-128 form of a number: seven bits a byte, the low ones first, the
/// high bit set on every byte but the last.
pub open spec fn varint(value: nat) -> Seq<u8>
    decreases value,
{
    if value < 128 {
        seq![value as u8]
    } else {
        seq![(value % 128 + 128) as u8] + varint(value / 128)
    }
}

/// The number at the front of `bytes` and how many bytes it takes, if one is
/// complete within `room` bytes. The last byte of the room holds one bit.
pub open spec fn parse_varint(bytes: Seq<u8>, room: nat) -> Option<(nat, nat)>
    decreases room,
{
    if bytes.len() == 0 || room == 0 {
        None
    } else if bytes[0] < 128 {
        if room == 1 && bytes[0] >= 2 {
            None
        } else {
            Some((bytes[0] as nat, 1))
        }
    } else {
        match parse_varint(bytes.skip(1), (room - 1) as nat) {
            Some((high, used)) => Some(((bytes[0] - 128 + 128 * high) as nat, used + 1)),
            None => None,
        }
    }
}

/// A varint takes ten bytes at most.
pub const VARINT_ROOM: usize = 10;

/// How much of `bytes` the group that was opened with `tag` takes, up to and
/// with its closing key.
pub uninterp spec fn group_extent(tag: nat, bytes: Seq<u8>) -> Option<nat>;

/// How much of `bytes` a value of fixed width takes.
pub open spec fn fixed_extent(wire_type: nat, bytes: Seq<u8>) -> Option<nat> {
    if wire_type == 1 && bytes.len() >= 8 {
        Some(8)
    } else if wire_type == 5 && bytes.len() >= 4 {
        Some(4)
    } else {
        None
    }
}

pub ghost enum ValueView {
    Varint(u64),
    Bytes(Seq<u8>),
    Skipped,
}

pub ghost struct FieldView {
    pub tag: nat,
    pub value: ValueView,
}

/// A key names the field and the form of its value.
pub open spec fn key(tag: nat, wire_type: nat) -> nat {
    tag * 8 + wire_type
}

/// The field at the front of `bytes` and how many bytes it takes.
pub open spec fn first_field(bytes: Seq<u8>) -> Option<(FieldView, nat)> {
    match parse_varint(bytes, VARINT_ROOM as nat) {
        None => None,
        Some((key, used)) => {
            let tag = key / 8;
            let rest = bytes.skip(used as int);
            if key > u32::MAX || tag == 0 {
                None
            } else if key % 8 == 0 {
                match parse_varint(rest, VARINT_ROOM as nat) {
                    Some((value, more)) => Some(
                        (FieldView { tag, value: ValueView::Varint(value as u64) }, used + more),
                    ),
                    None => None,
                }
            } else if key % 8 == 2 {
                match parse_varint(rest, VARINT_ROOM as nat) {
                    Some((len, more)) => if more + len <= rest.len() {
                        Some(
                            (
                                FieldView {
                                    tag,
                                    value: ValueView::Bytes(
                                        rest.subrange(more as int, (more + len) as int),
                                    ),
                                },
                                used + more + len,
                            ),
                        )
                    } else {
                        None
                    },
                    None => None,
                }
            } else {
                match if key % 8 == 3 {
                    group_extent(tag, rest)
                } else {
                    fixed_extent(key % 8, rest)
                } {
                    Some(more) => Some((FieldView { tag, value: ValueView::Skipped }, used + more)),
                    None => None,
                }
            }
        },
    }
}

/// The fields of a message, in their order.
pub open spec fn fields(bytes: Seq<u8>) -> Option<Seq<FieldView>>
    decreases bytes.len(),
{
    if bytes.len() == 0 {
        Some(Seq::empty())
    } else {
        match first_field(bytes) {
            Some((field, used)) => if 0 < used <= bytes.len() {
                match fields(bytes.skip(used as int)) {
                    Some(rest) => Some(seq![field] + rest),
                    None => None,
                }
            } else {
                None
            },
            None => None,
        }
    }
}

/// The bytes of one field.
pub open spec fn field_bytes(field: FieldView) -> Seq<u8> {
    match field.value {
        ValueView::Varint(value) => varint(key(field.tag, 0)) + varint(value as nat),
        ValueView::Bytes(body) => varint(key(field.tag, 2)) + varint(body.len()) + body,
        ValueView::Skipped => Seq::empty(),
    }
}

/// The bytes of a list of fields.
pub open spec fn fields_bytes(list: Seq<FieldView>) -> Seq<u8>
    decreases list.len(),
{
    if list.len() == 0 {
        Seq::empty()
    } else {
        field_bytes(list[0]) + fields_bytes(list.skip(1))
    }
}

/// The field can be written: its tag is in range and its length fits.
pub open spec fn writable(field: FieldView) -> bool {
    &&& 1 <= field.tag < 0x2000_0000
    &&& match field.value {
        ValueView::Varint(_) => true,
        ValueView::Bytes(body) => body.len() <= u64::MAX,
        ValueView::Skipped => false,
    }
}

pub open spec fn all_writable(list: Seq<FieldView>) -> bool {
    forall|i: int| 0 <= i < list.len() ==> writable(#[trigger] list[i])
}

/// The room that `room` varint bytes give.
spec fn varint_limit(room: nat) -> nat
    decreases room,
{
    if room <= 1 {
        2
    } else {
        128 * varint_limit((room - 1) as nat)
    }
}

proof fn lemma_varint_parses(value: nat, rest: Seq<u8>, room: nat)
    requires
        1 <= room,
        value < varint_limit(room),
    ensures
        parse_varint(varint(value) + rest, room) == Some((value, varint(value).len())),
        varint(value).len() > 0,
    decreases value,
{
    let all = varint(value) + rest;
    if value >= 128 {
        assert(room > 1);
        assert(value / 128 < varint_limit((room - 1) as nat)) by (nonlinear_arith)
            requires
                value < 128 * varint_limit((room - 1) as nat),
        ;
        lemma_varint_parses(value / 128, rest, (room - 1) as nat);
        assert(all.skip(1) =~= varint(value / 128) + rest);
        assert(all[0] == (value % 128 + 128) as u8);
    } else {
        assert(all[0] == value as u8);
    }
}

proof fn lemma_varint_limit()
    ensures
        varint_limit(10) == 0x1_0000_0000_0000_0000,
{
    reveal_with_fuel(varint_limit, 11);
}

/// Every 64-bit number is read back from its base-128 form, whatever follows.
pub proof fn lemma_varint_roundtrip(value: u64, rest: Seq<u8>)
    ensures
        parse_varint(varint(value as nat) + rest, VARINT_ROOM as nat) == Some(
            (value as nat, varint(value as nat).len()),
        ),
{
    lemma_varint_limit();
    lemma_varint_parses(value as nat, rest, 10);
}

/// What a varint holds and takes is bounded by its room.
proof fn lemma_parse_varint_bounds(bytes: Seq<u8>, room: nat)
    requires
        room > 0,
    ensures
        parse_varint(bytes, room) matches Some((value, used)) ==> {
            &&& value < varint_limit(room)
            &&& 1 <= used <= bytes.len()
            &&& used <= room
        },
    decreases room,
{
    reveal_with_fuel(parse_varint, 2);
    if bytes.len() > 0 && bytes[0] >= 128 && room > 1 {
        lemma_parse_varint_bounds(bytes.skip(1), (room - 1) as nat);
    }
    if bytes.len() > 0 && bytes[0] < 128 && room > 1 {
        lemma_limit_at_least(room);
    }
}

proof fn lemma_limit_at_least(room: nat)
    requires
        room > 1,
    ensures
        varint_limit(room) >= 256,
    decreases room,
{
    if room > 2 {
        lemma_limit_at_least((room - 1) as nat);
    } else {
        reveal_with_fuel(varint_limit, 3);
    }
}

proof fn lemma_first_field(field: FieldView, rest: Seq<u8>)
    requires
        writable(field),
    ensures
        first_field(field_bytes(field) + rest) == Some((field, field_bytes(field).len())),
        field_bytes(field).len() > 0,
{
    let all = field_bytes(field) + rest;
    let wire: nat = if field.value is Varint { 0 } else { 2 };
    let k = key(field.tag, wire);
    assert(k <= u32::MAX);
    let head = varint(k);
    let tail = all.skip(head.len() as int);
    assert(all =~= head + tail);
    lemma_varint_roundtrip(k as u64, tail);
    lemma_varint_limit();
    lemma_varint_parses(k, tail, 10);
    match field.value {
        ValueView::Varint(value) => {
            assert(tail =~= varint(value as nat) + rest);
            lemma_varint_roundtrip(value, rest);
        },
        ValueView::Bytes(body) => {
            assert(tail =~= varint(body.len()) + (body + rest));
            lemma_varint_roundtrip(body.len() as u64, body + rest);
            let more = varint(body.len()).len();
            assert(tail.subrange(more as int, (more + body.len()) as int) =~= body);
        },
        ValueView::Skipped => {},
    }
}

/// A list of writable fields is read back from its bytes.
pub proof fn lemma_fields_roundtrip(list: Seq<FieldView>)
    requires
        all_writable(list),
    ensures
        fields(fields_bytes(list)) == Some(list),
    decreases list.len(),
{
    if list.len() > 0 {
        let rest = list.skip(1);
        assert forall|i: int| 0 <= i < rest.len() implies writable(#[trigger] rest[i]) by {
            assert(rest[i] == list[i + 1]);
        }
        lemma_fields_roundtrip(rest);
        let tail = fields_bytes(rest);
        lemma_first_field(list[0], tail);
        let all = fields_bytes(list);
        assert(all.skip(field_bytes(list[0]).len() as int) =~= tail);
        assert(seq![list[0]] + rest =~= list);
    }
}

/// Calls `prost::encoding::encode_varint`, which appends the base-128 form of
/// the value.
#[verifier::external_body]
fn put_varint(out: &mut Vec<u8>, value: u64)
    ensures
        final(out)@ == old(out)@ + varint(value as nat),
{
    prost::encoding::encode_varint(value, out);
}

/// Calls `prost::encoding::decode_varint`, which takes one varint of at most
/// ten bytes and 64 bits off the front of the bytes.
#[verifier::external_body]
fn take_varint(bytes: &[u8]) -> (taken: Result<(u64, &[u8]), prost::DecodeError>)
    ensures
        match parse_varint(bytes@, VARINT_ROOM as nat) {
            Some((value, used)) => {
                &&& taken is Ok
                &&& taken->Ok_0.0 == value
                &&& taken->Ok_0.1@ == bytes@.skip(used as int)
            },
            None => taken is Err,
        },
{
    let mut rest = bytes;
    let value = prost::encoding::decode_varint(&mut rest)?;
    Ok((value, rest))
}

/// Calls `prost::encoding::skip_field` on a value that is neither a varint nor
/// length-delimited. Eight-byte and four-byte values are stepped over, a group
/// up to its end; a closing key and the two unused wire types are refused. Groups
/// may be nested a hundred deep, counted from the value, whatever message it
/// stands in.
#[verifier::external_body]
fn skip_value(wire_type: u64, tag: u32, bytes: &[u8]) -> (rest: Result<&[u8], prost::DecodeError>)
    requires
        wire_type != 0,
        wire_type != 2,
    ensures
        match if wire_type == 3 {
            group_extent(tag as nat, bytes@)
        } else {
            fixed_extent(wire_type as nat, bytes@)
        } {
            Some(used) => {
                &&& rest is Ok
                &&& used <= bytes@.len()
                &&& rest->Ok_0@ == bytes@.skip(used as int)
            },
            None => rest is Err,
        },
{
    let mut rest = bytes;
    let form = prost::encoding::WireType::try_from(wire_type)?;
    prost::encoding::skip_field(form, tag, &mut rest, prost::encoding::DecodeContext::default())?;
    Ok(rest)
}

/// The value of a field.
pub enum FieldValue {
    Varint(u64),
    Bytes(Vec<u8>),
    Skipped,
}

pub struct Field {
    pub tag: u32,
    pub value: FieldValue,
}

impl View for Field {
    type V = FieldView;

    open spec fn view(&self) -> FieldView {
        FieldView {
            tag: self.tag as nat,
            value: self.value.view_of(),
        }
    }
}

/// A list of fields.
pub struct Fields {
    pub list: Vec<Field>,
}

impl View for Fields {
    type V = Seq<FieldView>;

    open spec fn view(&self) -> Seq<FieldView> {
        seq_view(self.list@)
    }
}

/// The field list of an integer that may be absent.
pub open spec fn int_field(tag: nat, value: Option<u64>) -> Seq<FieldView> {
    match value {
        Some(value) => seq![FieldView { tag, value: ValueView::Varint(value) }],
        None => Seq::empty(),
    }
}

/// The field list of a byte string that may be absent.
pub open spec fn bytes_field(tag: nat, body: Option<Seq<u8>>) -> Seq<FieldView> {
    match body {
        Some(body) => seq![FieldView { tag, value: ValueView::Bytes(body) }],
        None => Seq::empty(),
    }
}

/// The unsigned 64-bit form of a signed number.
pub open spec fn int_to_wire(value: int) -> u64 {
    if value >= 0 {
        value as u64
    } else {
        (value + 0x1_0000_0000_0000_0000) as u64
    }
}

/// The signed number that the low 32 bits hold.
pub open spec fn wire_to_i32(wire: u64) -> i32 {
    let low = wire as int % 0x1_0000_0000;
    if low < 0x8000_0000 {
        low as i32
    } else {
        (low - 0x1_0000_0000) as i32
    }
}

/// The signed number that the 64 bits hold.
pub open spec fn wire_to_i64(wire: u64) -> i64 {
    if wire < 0x8000_0000_0000_0000 {
        wire as i64
    } else {
        (wire - 0x1_0000_0000_0000_0000) as i64
    }
}

pub open spec fn i32_wire(value: Option<i32>) -> Option<u64> {
    match value {
        Some(value) => Some(int_to_wire(value as int)),
        None => None,
    }
}

pub open spec fn i64_wire(value: Option<i64>) -> Option<u64> {
    match value {
        Some(value) => Some(int_to_wire(value as int)),
        None => None,
    }
}

pub open spec fn text_bytes(text: Option<Seq<char>>) -> Option<Seq<u8>> {
    match text {
        Some(text) => Some(encode_utf8(text)),
        None => None,
    }
}

/// A 32-bit integer field read from its value.
pub open spec fn read_i32(value: ValueView) -> Option<i32> {
    match value {
        ValueView::Varint(wire) => Some(wire_to_i32(wire)),
        _ => None,
    }
}

/// A 64-bit integer field read from its value.
pub open spec fn read_i64(value: ValueView) -> Option<i64> {
    match value {
        ValueView::Varint(wire) => Some(wire_to_i64(wire)),
        _ => None,
    }
}

/// A byte string read from a field's value.
pub open spec fn read_bytes(value: ValueView) -> Option<Seq<u8>> {
    match value {
        ValueView::Bytes(body) => Some(body),
        _ => None,
    }
}

/// The integers of a packed list.
pub open spec fn packed(bytes: Seq<u8>) -> Option<Seq<i32>>
    decreases bytes.len(),
{
    if bytes.len() == 0 {
        Some(Seq::empty())
    } else {
        match parse_varint(bytes, VARINT_ROOM as nat) {
            Some((wire, used)) => if 0 < used <= bytes.len() {
                match packed(bytes.skip(used as int)) {
                    Some(rest) => Some(seq![wire_to_i32(wire as u64)] + rest),
                    None => None,
                }
            } else {
                None
            },
            None => None,
        }
    }
}

/// The integers that one occurrence of a repeated field holds: one, or a
/// packed list.
pub open spec fn read_ints(value: ValueView) -> Option<Seq<i32>> {
    match value {
        ValueView::Varint(wire) => Some(seq![wire_to_i32(wire)]),
        ValueView::Bytes(body) => packed(body),
        ValueView::Skipped => None,
    }
}

/// A text read from a field's value.
pub open spec fn read_text(value: ValueView) -> Option<Seq<char>> {
    match value {
        ValueView::Bytes(body) => if valid_utf8(body) {
            Some(decode_utf8(body))
        } else {
            None
        },
        _ => None,
    }
}

fn to_wire(value: i64) -> (wire: u64)
    ensures
        wire == int_to_wire(value as int),
{
    if value >= 0 {
        value as u64
    } else {
        u64::MAX - (-(value + 1)) as u64
    }
}

/// The signed number that the 64 bits hold.
pub fn from_wire(wire: u64) -> (value: i64)
    ensures
        value == wire_to_i64(wire),
{
    if wire < 0x8000_0000_0000_0000 {
        wire as i64
    } else {
        -1 - (u64::MAX - wire) as i64
    }
}

impl FieldValue {
    pub open spec fn view_of(self) -> ValueView {
        match self {
            FieldValue::Varint(value) => ValueView::Varint(value),
            FieldValue::Bytes(body) => ValueView::Bytes(body@),
            FieldValue::Skipped => ValueView::Skipped,
        }
    }

    pub fn as_i32(&self) -> (read: Result<i32, Malformed>)
        ensures
            match read_i32(self.view_of()) {
                Some(value) => read == Ok::<i32, Malformed>(value),
                None => read is Err,
            },
    {
        match self {
            FieldValue::Varint(wire) => {
                let low: i64 = (*wire % 0x1_0000_0000) as i64;
                if low < 0x8000_0000 {
                    Ok(low as i32)
                } else {
                    Ok((low - 0x1_0000_0000) as i32)
                }
            },
            _ => Err(Malformed),
        }
    }

    pub fn as_ints(&self) -> (read: Result<Vec<i32>, Malformed>)
        ensures
            match read_ints(self.view_of()) {
                Some(values) => read is Ok && read->Ok_0@ == values,
                None => read is Err,
            },
    {
        let mut found: Vec<i32> = Vec::new();
        match self {
            FieldValue::Bytes(body) => {
                let mut rest: &[u8] = body.as_slice();
                while rest.len() > 0
                    invariant
                        self.view_of() == ValueView::Bytes(body@),
                        match packed(rest@) {
                            Some(values) => packed(body@) == Some(found@ + values),
                            None => packed(body@) is None,
                        },
                    decreases rest@.len(),
                {
                    proof {
                        lemma_parse_varint_bounds(rest@, VARINT_ROOM as nat);
                        lemma_varint_limit();
                    }
                    let ghost before = found@;
                    let (wire, left) = match take_varint(rest) {
                        Ok(taken) => taken,
                        Err(_) => return Err(Malformed),
                    };
                    found.push(FieldValue::Varint(wire).as_i32()?);
                    rest = left;
                    proof {
                        if let Some(values) = packed(rest@) {
                            assert(before + (seq![wire_to_i32(wire)] + values) =~= found@ + values);
                        }
                    }
                }
                assert(found@ + Seq::<i32>::empty() =~= found@);
            },
            _ => {
                found.push(self.as_i32()?);
                assert(found@ =~= seq![found@[0]]);
            },
        }
        Ok(found)
    }

    pub fn as_i64(&self) -> (read: Result<i64, Malformed>)
        ensures
            match read_i64(self.view_of()) {
                Some(value) => read == Ok::<i64, Malformed>(value),
                None => read is Err,
            },
    {
        match self {
            FieldValue::Varint(wire) => Ok(from_wire(*wire)),
            _ => Err(Malformed),
        }
    }

    pub fn as_bytes(&self) -> (read: Result<&[u8], Malformed>)
        ensures
            match read_bytes(self.view_of()) {
                Some(body) => read is Ok && read->Ok_0@ == body,
                None => read is Err,
            },
    {
        match self {
            FieldValue::Bytes(body) => Ok(body.as_slice()),
            _ => Err(Malformed),
        }
    }

    pub fn as_text(&self) -> (read: Result<String, Malformed>)
        ensures
            match read_text(self.view_of()) {
                Some(text) => read is Ok && read->Ok_0@ == text,
                None => read is Err,
            },
    {
        match from_utf8(self.as_bytes()?) {
            Some(text) => Ok(text),
            None => Err(Malformed),
        }
    }
}

/// The field list of repeated integers, one field each.
pub open spec fn int_fields(tag: nat, values: Seq<i32>) -> Seq<FieldView> {
    Seq::new(
        values.len(),
        |i: int| FieldView { tag, value: ValueView::Varint(int_to_wire(values[i] as int)) },
    )
}

impl Fields {
    pub fn new() -> (fields: Self)
        ensures
            fields@ == Seq::<FieldView>::empty(),
    {
        let fields = Fields { list: Vec::new() };
        assert(fields@ =~= Seq::<FieldView>::empty());
        fields
    }

    fn push(&mut self, field: Field)
        ensures
            final(self)@ == old(self)@.push(field@),
    {
        self.list.push(field);
        assert(self@ =~= old(self)@.push(field@));
    }

    /// Splits a message into its fields.
    pub fn parse(bytes: &[u8]) -> (parsed: Result<Self, Malformed>)
        ensures
            match fields(bytes@) {
                Some(list) => parsed is Ok && parsed->Ok_0@ == list,
                None => parsed is Err,
            },
    {
        let mut rest: &[u8] = bytes;
        let mut found = Fields::new();
        while rest.len() > 0
            invariant
                match fields(rest@) {
                    Some(list) => fields(bytes@) == Some(found@ + list),
                    None => fields(bytes@) is None,
                },
            decreases rest@.len(),
        {
            proof {
                lemma_parse_varint_bounds(rest@, VARINT_ROOM as nat);
                lemma_varint_limit();
            }
            let (key, after) = match take_varint(rest) {
                Ok(taken) => taken,
                Err(_) => return Err(Malformed),
            };
            proof {
                lemma_parse_varint_bounds(after@, VARINT_ROOM as nat);
            }
            let tag: u64 = key / 8;
            if key > 0xffff_ffff || tag == 0 {
                return Err(Malformed);
            }
            let ghost before = found@;
            let ghost start = rest@;
            if key % 8 == 0 {
                let (value, left) = match take_varint(after) {
                    Ok(taken) => taken,
                    Err(_) => return Err(Malformed),
                };
                found.push(Field { tag: tag as u32, value: FieldValue::Varint(value) });
                rest = left;
            } else if key % 8 == 2 {
                let (len, left) = match take_varint(after) {
                    Ok(taken) => taken,
                    Err(_) => return Err(Malformed),
                };
                if len > left.len() as u64 {
                    return Err(Malformed);
                }
                let ghost more = after@.len() - left@.len();
                let (body, left) = left.split_at(len as usize);
                assert(body@ =~= after@.subrange(more, more + len));
                found.push(Field { tag: tag as u32, value: FieldValue::Bytes(slice_to_vec(body)) });
                rest = left;
            } else {
                let left = match skip_value(key % 8, tag as u32, after) {
                    Ok(left) => left,
                    Err(_) => return Err(Malformed),
                };
                found.push(Field { tag: tag as u32, value: FieldValue::Skipped });
                rest = left;
            }
            proof {
                let (field, used) = first_field(start)->0;
                assert(rest@ =~= start.skip(used as int));
                assert(found@ == before.push(field));
                if let Some(list) = fields(rest@) {
                    assert(before + (seq![field] + list) =~= found@ + list);
                }
            }
        }
        assert(found@ + Seq::<FieldView>::empty() =~= found@);
        Ok(found)
    }

    /// Adds an integer field, unless the value is absent.
    pub fn put_int(&mut self, tag: u32, value: Option<u64>)
        ensures
            final(self)@ == old(self)@ + int_field(tag as nat, value),
            all_writable(old(self)@) && 1 <= tag < 0x2000_0000 ==> all_writable(final(self)@),
    {
        if let Some(value) = value {
            self.push(Field { tag, value: FieldValue::Varint(value) });
        }
        assert(self@ =~= old(self)@ + int_field(tag as nat, value));
    }

    /// Adds a length-delimited field, unless the body is absent.
    pub fn put_bytes(&mut self, tag: u32, body: Option<Vec<u8>>)
        ensures
            final(self)@ == old(self)@ + bytes_field(tag as nat, opt_view(body)),
            all_writable(old(self)@) && 1 <= tag < 0x2000_0000 ==> all_writable(final(self)@),
    {
        if let Some(body) = body {
            let _len: usize = body.len();
            self.push(Field { tag, value: FieldValue::Bytes(body) });
        }
        assert(self@ =~= old(self)@ + bytes_field(tag as nat, opt_view(body)));
    }

    pub fn put_i32(&mut self, tag: u32, value: Option<i32>)
        ensures
            final(self)@ == old(self)@ + int_field(tag as nat, i32_wire(value)),
            all_writable(old(self)@) && 1 <= tag < 0x2000_0000 ==> all_writable(final(self)@),
    {
        match value {
            Some(value) => self.put_int(tag, Some(to_wire(value as i64))),
            None => self.put_int(tag, None),
        }
    }

    pub fn put_i64(&mut self, tag: u32, value: Option<i64>)
        ensures
            final(self)@ == old(self)@ + int_field(tag as nat, i64_wire(value)),
            all_writable(old(self)@) && 1 <= tag < 0x2000_0000 ==> all_writable(final(self)@),
    {
        match value {
            Some(value) => self.put_int(tag, Some(to_wire(value))),
            None => self.put_int(tag, None),
        }
    }

    pub fn put_data(&mut self, tag: u32, body: &Option<Vec<u8>>)
        ensures
            final(self)@ == old(self)@ + bytes_field(tag as nat, opt_view(*body)),
            all_writable(old(self)@) && 1 <= tag < 0x2000_0000 ==> all_writable(final(self)@),
    {
        match body {
            Some(body) => self.put_bytes(tag, Some(slice_to_vec(body.as_slice()))),
            None => self.put_bytes(tag, None),
        }
    }

    pub fn put_text(&mut self, tag: u32, text: &Option<String>)
        ensures
            final(self)@ == old(self)@ + bytes_field(tag as nat, text_bytes(opt_view(*text))),
            all_writable(old(self)@) && 1 <= tag < 0x2000_0000 ==> all_writable(final(self)@),
    {
        match text {
            Some(text) => self.put_bytes(tag, Some(slice_to_vec(text.as_str().as_bytes()))),
            None => self.put_bytes(tag, None),
        }
    }

    /// Writes the fields one after the other.
    pub fn encode(&self) -> (out: Vec<u8>)
        requires
            all_writable(self@),
        ensures
            out@ == fields_bytes(self@),
            fields(out@) == Some(self@),
    {
        let mut out: Vec<u8> = Vec::new();
        assert(self@.skip(0) =~= self@);
        assert(out@ + fields_bytes(self@) =~= fields_bytes(self@));
        for i in 0..self.list.len()
            invariant
                out@ + fields_bytes(self@.skip(i as int)) == fields_bytes(self@),
                all_writable(self@),
        {
            let ghost before = out@;
            let ghost left = self@.skip(i as int);
            assert(writable(self@[i as int]));
            let field = &self.list[i];
            assert(left[0] == field@);
            assert(left.skip(1) =~= self@.skip(i as int + 1));
            match &field.value {
                FieldValue::Varint(value) => {
                    put_varint(&mut out, field.tag as u64 * 8);
                    put_varint(&mut out, *value);
                },
                FieldValue::Bytes(body) => {
                    put_varint(&mut out, field.tag as u64 * 8 + 2);
                    put_varint(&mut out, body.len() as u64);
                    out.extend_from_slice(body);
                },
                FieldValue::Skipped => {},
            }
            assert(out@ =~= before + field_bytes(field@));
            assert(out@ + fields_bytes(self@.skip(i as int + 1)) =~= before + fields_bytes(left));
        }
        proof {
            assert(self@.skip(self@.len() as int) =~= Seq::<FieldView>::empty());
            assert(out@ + Seq::<u8>::empty() =~= out@);
            lemma_fields_roundtrip(self@);
        }
        out
    }
}

/// What a message type declares of its fields.
pub trait Schema: Sized + View {
    /// The message without any field.
    spec fn blank() -> <Self as View>::V;

    /// The message `m` after one more field; `None` where the field's form is
    /// not the declared one.
    spec fn step(m: <Self as View>::V, field: FieldView) -> Option<<Self as View>::V>;

    /// The fields that are written for `m`.
    spec fn listed(m: <Self as View>::V) -> Seq<FieldView>;
}

/// The message `m` after all fields of `list`.
pub open spec fn absorb<M: Schema>(m: M::V, list: Seq<FieldView>) -> Option<M::V>
    decreases list.len(),
{
    if list.len() == 0 {
        Some(m)
    } else {
        match M::step(m, list[0]) {
            Some(next) => absorb::<M>(next, list.skip(1)),
            None => None,
        }
    }
}

/// The message `m` after the fields that `bytes` hold.
pub open spec fn merged_with<M: Schema>(m: M::V, bytes: Seq<u8>) -> Option<M::V> {
    match fields(bytes) {
        Some(list) => absorb::<M>(m, list),
        None => None,
    }
}

/// Taking in two lists one after the other is taking in their concatenation.
pub proof fn lemma_absorb_concat<M: Schema>(m: M::V, a: Seq<FieldView>, b: Seq<FieldView>)
    ensures
        absorb::<M>(m, a + b) == match absorb::<M>(m, a) {
            Some(next) => absorb::<M>(next, b),
            None => None,
        },
    decreases a.len(),
{
    if a.len() == 0 {
        assert(a + b =~= b);
    } else {
        assert((a + b).skip(1) =~= a.skip(1) + b);
        if let Some(next) = M::step(m, a[0]) {
            lemma_absorb_concat::<M>(next, a.skip(1), b);
        }
    }
}

/// Taking in a list and then one optional integer field.
pub proof fn lemma_absorb_int<M: Schema>(m: M::V, done: Seq<FieldView>, tag: nat, value: Option<u64>)
    ensures
        absorb::<M>(m, done + int_field(tag, value)) == match (absorb::<M>(m, done), value) {
            (Some(next), Some(value)) => M::step(
                next,
                FieldView { tag, value: ValueView::Varint(value) },
            ),
            (next, _) => next,
        },
{
    reveal_with_fuel(absorb, 2);
    lemma_absorb_concat::<M>(m, done, int_field(tag, value));
}

/// Taking in a list and then one optional length-delimited field.
pub proof fn lemma_absorb_bytes<M: Schema>(
    m: M::V,
    done: Seq<FieldView>,
    tag: nat,
    body: Option<Seq<u8>>,
)
    ensures
        absorb::<M>(m, done + bytes_field(tag, body)) == match (absorb::<M>(m, done), body) {
            (Some(next), Some(body)) => M::step(
                next,
                FieldView { tag, value: ValueView::Bytes(body) },
            ),
            (next, _) => next,
        },
{
    reveal_with_fuel(absorb, 2);
    lemma_absorb_concat::<M>(m, done, bytes_field(tag, body));
}

/// Integers and texts are read back from their values.
pub broadcast proof fn lemma_i32_wire(value: i32)
    ensures
        #[trigger] wire_to_i32(int_to_wire(value as int)) == value,
{
}

pub broadcast proof fn lemma_i64_wire(value: i64)
    ensures
        #[trigger] wire_to_i64(int_to_wire(value as int)) == value,
{
}

pub broadcast proof fn lemma_text_wire(text: Seq<char>)
    ensures
        valid_utf8(#[trigger] encode_utf8(text)),
        decode_utf8(encode_utf8(text)) == text,
{
    encode_utf8_valid_utf8(text);
    encode_utf8_decode_utf8(text);
}

pub broadcast group group_wire {
    lemma_i32_wire,
    lemma_i64_wire,
    lemma_text_wire,
}

/// The bytes of the message `m`.
pub open spec fn message_bytes<M: Schema>(m: M::V) -> Seq<u8> {
    fields_bytes(M::listed(m))
}

/// The field list of repeated messages.
pub open spec fn message_fields<M: Schema>(tag: nat, items: Seq<M::V>) -> Seq<FieldView> {
    Seq::new(
        items.len(),
        |i: int| FieldView { tag, value: ValueView::Bytes(message_bytes::<M>(items[i])) },
    )
}

/// A nested message after one more occurrence of its field.
pub open spec fn read_nested<M: Schema>(held: Option<M::V>, value: ValueView) -> Option<M::V> {
    match value {
        ValueView::Bytes(body) => merged_with::<M>(
            match held {
                Some(inner) => inner,
                None => M::blank(),
            },
            body,
        ),
        _ => None,
    }
}

/// The bytes of a nested message that may be absent.
pub open spec fn nested_bytes<M: Schema>(held: Option<M::V>) -> Option<Seq<u8>> {
    match held {
        Some(inner) => Some(message_bytes::<M>(inner)),
        None => None,
    }
}

/// A message of the wire format.
pub trait Message: Schema {
    fn empty() -> (message: Self)
        ensures
            message@ == Self::blank(),
    ;

    fn merge_field(&mut self, field: &Field) -> (merged: Result<(), Malformed>)
        ensures
            match Self::step(old(self)@, field@) {
                Some(next) => merged is Ok && final(self)@ == next,
                None => merged is Err,
            },
    ;

    fn to_fields(&self) -> (fields: Fields)
        ensures
            fields@ == Self::listed(self@),
            all_writable(fields@),
            absorb::<Self>(Self::blank(), fields@) == Some(self@),
    ;

    /// Takes the fields of `bytes` into the message.
    fn merge(&mut self, bytes: &[u8]) -> (merged: Result<(), Malformed>)
        ensures
            match merged_with::<Self>(old(self)@, bytes@) {
                Some(next) => merged is Ok && final(self)@ == next,
                None => merged is Err,
            },
    {
        let fields = Fields::parse(bytes)?;
        assert(fields@.skip(0) =~= fields@);
        for i in 0..fields.list.len()
            invariant
                fields@ == seq_view(fields.list@),
                absorb::<Self>(self@, fields@.skip(i as int)) == absorb::<Self>(
                    old(self)@,
                    fields@,
                ),
                merged_with::<Self>(old(self)@, bytes@) == absorb::<Self>(old(self)@, fields@),
        {
            assert(fields@.skip(i as int)[0] == fields.list@[i as int]@);
            assert(fields@.skip(i as int).skip(1) =~= fields@.skip(i as int + 1));
            self.merge_field(&fields.list[i])?;
        }
        Ok(())
    }

    /// Reads a message. Fields that it does not declare are passed over.
    fn decode(bytes: &[u8]) -> (decoded: Result<Self, Malformed>)
        ensures
            match merged_with::<Self>(Self::blank(), bytes@) {
                Some(message) => decoded is Ok && decoded->Ok_0@ == message,
                None => decoded is Err,
            },
    {
        let mut message = Self::empty();
        message.merge(bytes)?;
        Ok(message)
    }

    /// Writes the message; reading the bytes gives it back.
    fn encode_to_vec(&self) -> (out: Vec<u8>)
        ensures
            out@ == message_bytes::<Self>(self@),
            merged_with::<Self>(Self::blank(), out@) == Some(self@),
    {
        self.to_fields().encode()
    }
}

/// Takes one more occurrence of a nested message's field into the message.
pub fn merge_nested<M: Message>(held: &mut Option<M>, value: &FieldValue) -> (merged: Result<
    (),
    Malformed,
>)
    ensures
        match read_nested::<M>(opt_view(*old(held)), value.view_of()) {
            Some(next) => merged is Ok && opt_view(*final(held)) == Some(next),
            None => merged is Err,
        },
{
    let body = value.as_bytes()?;
    let mut inner = match held.take() {
        Some(inner) => inner,
        None => M::empty(),
    };
    inner.merge(body)?;
    *held = Some(inner);
    Ok(())
}

/// Writes a nested message, unless it is absent.
pub fn encode_nested<M: Message>(held: &Option<M>) -> (body: Option<Vec<u8>>)
    ensures
        opt_view(body) == nested_bytes::<M>(opt_view(*held)),
        held is Some ==> merged_with::<M>(M::blank(), body->0@) == Some(held->0@),
{
    match held {
        Some(inner) => Some(inner.encode_to_vec()),
        None => None,
    }
}

} // verus!
