//! One news item and its binary message: five fields, each written behind a
//! key that holds its number, fields at their default value left out.

use crate::wire::{
    bytes_field, lemma_parse_bytes_field, lemma_parse_field_bounds, lemma_parse_varint_field,
    parse_field, read_field, varint_field, write_bytes_field, write_varint_field, FieldModel,
    Payload, MAX_TAG, WIRE_BYTES, WIRE_VARINT,
};
use vstd::prelude::*;
use vstd::slice::{slice_subrange, slice_to_vec};
use vstd::utf8::{decode_utf8, encode_utf8, valid_utf8};

verus! {

/// Field number of the identifier.
pub const TAG_ID: u32 = 1;

/// Field number of the timestamp.
pub const TAG_TIMESTAMP: u32 = 2;

/// Field number of the type tag.
pub const TAG_TYPE: u32 = 3;

/// Field number of the title.
pub const TAG_TITLE: u32 = 4;

/// Field number of the score.
pub const TAG_SCORE: u32 = 5;

/// The two kinds of item.
#[derive(Clone, Copy, Debug, PartialEq, Eq, Structural)]
pub enum RowType {
    Story,
    Comment,
}

impl RowType {
    /// The number that stands for the kind in a message.
    pub open spec fn discriminant(self) -> u64 {
        match self {
            RowType::Story => 0,
            RowType::Comment => 1,
        }
    }

    /// The number that stands for the kind in a message.
    pub fn number(self) -> (n: u64)
        ensures
            n == self.discriminant(),
    {
        match self {
            RowType::Story => 0,
            RowType::Comment => 1,
        }
    }
}

/// The kind that a type-tag text stands for: "story" is a story, every other
/// text a comment.
pub open spec fn classify_text(text: Seq<char>) -> RowType {
    if text == "story"@ {
        RowType::Story
    } else {
        RowType::Comment
    }
}

/// Whether two slices hold the same bytes.
pub fn same_bytes(a: &[u8], b: &[u8]) -> (same: bool)
    ensures
        same == (a@ == b@),
{
    if a.len() != b.len() {
        return false;
    }
    let mut i: usize = 0;
    while i < a.len()
        invariant
            a@.len() == b@.len(),
            i <= a@.len(),
            forall|j: int| 0 <= j < i ==> a@[j] == b@[j],
        decreases a@.len() - i,
    {
        if a[i] != b[i] {
            return false;
        }
        i += 1;
    }
    assert(a@ =~= b@);
    true
}

/// The kind that a type-tag text stands for.
pub fn classify(text: &str) -> (kind: RowType)
    ensures
        kind == classify_text(text@),
{
    let story = "story";
    let same = same_bytes(text.as_bytes(), story.as_bytes());
    proof {
        vstd::utf8::encode_utf8_decode_utf8(text@);
        vstd::utf8::encode_utf8_decode_utf8(story@);
    }
    if same {
        RowType::Story
    } else {
        RowType::Comment
    }
}

/// One news item.
#[derive(Clone, Debug, PartialEq, Eq)]
pub struct Row {
    pub id: u32,
    pub timestamp: u64,
    pub row_type: RowType,
    pub title: String,
    pub score: u32,
}

/// What a `Row` stands for.
pub struct RowModel {
    pub id: u32,
    pub timestamp: u64,
    pub row_type: RowType,
    pub title: Seq<char>,
    pub score: u32,
}

impl View for Row {
    type V = RowModel;

    open spec fn view(&self) -> RowModel {
        RowModel {
            id: self.id,
            timestamp: self.timestamp,
            row_type: self.row_type,
            title: self.title@,
            score: self.score,
        }
    }
}

/// The item whose every field has its default value.
pub open spec fn default_row() -> RowModel {
    RowModel { id: 0, timestamp: 0, row_type: RowType::Story, title: Seq::empty(), score: 0 }
}

impl Default for Row {
    /// The item whose every field has its default value.
    fn default() -> (row: Row)
        ensures
            row@ == default_row(),
    {
        Row { id: 0, timestamp: 0, row_type: RowType::Story, title: String::new(), score: 0 }
    }
}

/// An integer field, or nothing where the value is 0.
pub open spec fn optional_varint_field(tag: u32, value: u64) -> Seq<u8> {
    if value != 0 {
        varint_field(tag, value)
    } else {
        Seq::empty()
    }
}

/// The title's field, or nothing where the title is empty.
pub open spec fn optional_text_field(tag: u32, text: Seq<char>) -> Seq<u8> {
    if text.len() != 0 {
        bytes_field(tag, encode_utf8(text))
    } else {
        Seq::empty()
    }
}

/// The message of an item: its fields in the order of their numbers, each
/// left out where it has its default value.
pub open spec fn encode_row(row: RowModel) -> Seq<u8> {
    optional_varint_field(TAG_ID, row.id as u64) + optional_varint_field(
        TAG_TIMESTAMP,
        row.timestamp,
    ) + optional_varint_field(TAG_TYPE, row.row_type.discriminant()) + optional_text_field(
        TAG_TITLE,
        row.title,
    ) + optional_varint_field(TAG_SCORE, row.score as u64)
}

/// Writes the message of `row`.
pub fn serialize_hackernews_row(row: Row) -> (buf: Vec<u8>)
    ensures
        buf@ == encode_row(row@),
{
    let mut buf: Vec<u8> = Vec::new();
    if row.id != 0 {
        write_varint_field(TAG_ID, row.id as u64, &mut buf);
    }
    if row.timestamp != 0 {
        write_varint_field(TAG_TIMESTAMP, row.timestamp, &mut buf);
    }
    let kind = row.row_type.number();
    if kind != 0 {
        write_varint_field(TAG_TYPE, kind, &mut buf);
    }
    let title = row.title.as_str();
    if !title.is_empty() {
        write_bytes_field(TAG_TITLE, title.as_bytes(), &mut buf);
    }
    if row.score != 0 {
        write_varint_field(TAG_SCORE, row.score as u64, &mut buf);
    }
    assert(buf@ =~= encode_row(row@));
    buf
}

/// Why a sequence of bytes is no message of an item.
#[derive(Clone, Copy, Debug, PartialEq, Eq, Structural)]
pub enum DecodeError {
    /// The bytes do not divide into fields.
    Malformed,
    /// One of the five fields has a wire type that is not its own.
    WireType,
    /// The title is not UTF-8.
    Text,
    /// The type tag is neither of the two kinds.
    Kind,
}

/// The low 32 bits of `value`.
pub open spec fn low32(value: u64) -> u32 {
    (value % 0x1_0000_0000) as u32
}

/// The item `acc` with one field that was read put in: a field with one of
/// the five numbers replaces the value held so far, any other is passed over.
pub open spec fn merge_field(acc: RowModel, field: FieldModel) -> Result<RowModel, DecodeError> {
    if field.tag == TAG_ID {
        match field.payload {
            Payload::Varint(value) => Ok(RowModel { id: low32(value), ..acc }),
            _ => Err(DecodeError::WireType),
        }
    } else if field.tag == TAG_TIMESTAMP {
        match field.payload {
            Payload::Varint(value) => Ok(RowModel { timestamp: value, ..acc }),
            _ => Err(DecodeError::WireType),
        }
    } else if field.tag == TAG_TYPE {
        match field.payload {
            Payload::Varint(value) => if low32(value) == 0 {
                Ok(RowModel { row_type: RowType::Story, ..acc })
            } else if low32(value) == 1 {
                Ok(RowModel { row_type: RowType::Comment, ..acc })
            } else {
                Err(DecodeError::Kind)
            },
            _ => Err(DecodeError::WireType),
        }
    } else if field.tag == TAG_TITLE {
        match field.payload {
            Payload::Bytes(bytes) => if valid_utf8(bytes) {
                Ok(RowModel { title: decode_utf8(bytes), ..acc })
            } else {
                Err(DecodeError::Text)
            },
            _ => Err(DecodeError::WireType),
        }
    } else if field.tag == TAG_SCORE {
        match field.payload {
            Payload::Varint(value) => Ok(RowModel { score: low32(value), ..acc }),
            _ => Err(DecodeError::WireType),
        }
    } else {
        Ok(acc)
    }
}

/// Reads `bytes` field by field into `acc`, to the end.
pub open spec fn decode_from(bytes: Seq<u8>, acc: RowModel) -> Result<RowModel, DecodeError>
    decreases bytes.len(),
    via decode_from_decreases
{
    if bytes.len() == 0 {
        Ok(acc)
    } else {
        match parse_field(bytes) {
            None => Err(DecodeError::Malformed),
            Some((field, taken)) => match merge_field(acc, field) {
                Err(e) => Err(e),
                Ok(next) => decode_from(bytes.skip(taken as int), next),
            },
        }
    }
}

#[via_fn]
proof fn decode_from_decreases(bytes: Seq<u8>, acc: RowModel) {
    if parse_field(bytes) is Some {
        lemma_parse_field_bounds(bytes);
    }
}

/// The item that a message stands for: every field at its default value but
/// those that the message holds, and of a field that it holds more than once
/// the last.
pub open spec fn decode_row_model(bytes: Seq<u8>) -> Result<RowModel, DecodeError> {
    decode_from(bytes, default_row())
}

/// Calls `String::from_utf8`, which hands the bytes back as a string where
/// they are UTF-8 and fails where they are not.
#[verifier::external_body]
fn text_from_utf8(bytes: Vec<u8>) -> (r: Option<String>)
    ensures
        match r {
            Some(text) => valid_utf8(bytes@) && text@ == decode_utf8(bytes@),
            None => !valid_utf8(bytes@),
        },
{
    String::from_utf8(bytes).ok()
}

/// Reads a message back into the item it stands for.
pub fn decode_row(input: &[u8]) -> (r: Result<Row, DecodeError>)
    ensures
        match r {
            Ok(row) => decode_row_model(input@) == Ok::<RowModel, DecodeError>(row@),
            Err(e) => decode_row_model(input@) == Err::<RowModel, DecodeError>(e),
        },
{
    let mut row = Row::default();
    let mut pos: usize = 0;
    assert(input@.skip(0) =~= input@);
    while pos < input.len()
        invariant
            pos <= input@.len(),
            decode_row_model(input@) == decode_from(input@.skip(pos as int), row@),
        decreases input@.len() - pos,
    {
        let ghost bytes = input@.skip(pos as int);
        let field = match read_field(input, pos) {
            None => { return Err(DecodeError::Malformed); },
            Some(field) => field,
        };
        assert(bytes.skip(field.end - pos) =~= input@.skip(field.end as int));
        if field.tag == TAG_ID {
            if field.wire != WIRE_VARINT {
                return Err(DecodeError::WireType);
            }
            row.id = (field.value % 0x1_0000_0000) as u32;
        } else if field.tag == TAG_TIMESTAMP {
            if field.wire != WIRE_VARINT {
                return Err(DecodeError::WireType);
            }
            row.timestamp = field.value;
        } else if field.tag == TAG_TYPE {
            if field.wire != WIRE_VARINT {
                return Err(DecodeError::WireType);
            }
            let kind = (field.value % 0x1_0000_0000) as u32;
            if kind == 0 {
                row.row_type = RowType::Story;
            } else if kind == 1 {
                row.row_type = RowType::Comment;
            } else {
                return Err(DecodeError::Kind);
            }
        } else if field.tag == TAG_TITLE {
            if field.wire != WIRE_BYTES {
                return Err(DecodeError::WireType);
            }
            let bytes = slice_to_vec(slice_subrange(input, field.start, field.end));
            match text_from_utf8(bytes) {
                None => { return Err(DecodeError::Text); },
                Some(text) => { row.title = text; },
            }
        } else if field.tag == TAG_SCORE {
            if field.wire != WIRE_VARINT {
                return Err(DecodeError::WireType);
            }
            row.score = (field.value % 0x1_0000_0000) as u32;
        }
        pos = field.end;
    }
    Ok(row)
}

/// Reading a message that starts with an integer field puts that field in
/// and goes on with what follows it.
pub proof fn lemma_decode_varint_field(tag: u32, value: u64, rest: Seq<u8>, acc: RowModel)
    requires
        1 <= tag <= MAX_TAG,
    ensures
        decode_from(varint_field(tag, value) + rest, acc) == match merge_field(
            acc,
            FieldModel { tag, payload: Payload::Varint(value) },
        ) {
            Ok(next) => decode_from(rest, next),
            Err(e) => Err(e),
        },
{
    let field = varint_field(tag, value);
    lemma_parse_varint_field(tag, value, rest);
    lemma_parse_field_bounds(field + rest);
    assert((field + rest).skip(field.len() as int) =~= rest);
}

/// Reading a message that starts with a field of bytes puts that field in and
/// goes on with what follows it.
pub proof fn lemma_decode_bytes_field(tag: u32, payload: Seq<u8>, rest: Seq<u8>, acc: RowModel)
    requires
        1 <= tag <= MAX_TAG,
        payload.len() <= u64::MAX,
    ensures
        decode_from(bytes_field(tag, payload) + rest, acc) == match merge_field(
            acc,
            FieldModel { tag, payload: Payload::Bytes(payload) },
        ) {
            Ok(next) => decode_from(rest, next),
            Err(e) => Err(e),
        },
{
    let field = bytes_field(tag, payload);
    lemma_parse_bytes_field(tag, payload, rest);
    lemma_parse_field_bounds(field + rest);
    assert((field + rest).skip(field.len() as int) =~= rest);
}

/// Reading a message that starts with an integer field, or with none where
/// the value is 0, goes on with what follows, the value put in.
pub proof fn lemma_decode_optional_varint_field(
    tag: u32,
    value: u64,
    rest: Seq<u8>,
    acc: RowModel,
    next: RowModel,
)
    requires
        1 <= tag <= MAX_TAG,
        merge_field(acc, FieldModel { tag, payload: Payload::Varint(value) }) == Ok::<
            RowModel,
            DecodeError,
        >(next),
        value == 0 ==> next == acc,
    ensures
        decode_from(optional_varint_field(tag, value) + rest, acc) == decode_from(rest, next),
{
    if value != 0 {
        lemma_decode_varint_field(tag, value, rest, acc);
    } else {
        assert(optional_varint_field(tag, value) + rest =~= rest);
    }
}

/// Reading a message that starts with a text field, or with none where the
/// text is empty, goes on with what follows, the text put in.
pub proof fn lemma_decode_optional_text_field(
    tag: u32,
    text: Seq<char>,
    rest: Seq<u8>,
    acc: RowModel,
    next: RowModel,
)
    requires
        1 <= tag <= MAX_TAG,
        encode_utf8(text).len() <= u64::MAX,
        merge_field(acc, FieldModel { tag, payload: Payload::Bytes(encode_utf8(text)) }) == Ok::<
            RowModel,
            DecodeError,
        >(next),
        text.len() == 0 ==> next == acc,
    ensures
        decode_from(optional_text_field(tag, text) + rest, acc) == decode_from(rest, next),
{
    if text.len() != 0 {
        lemma_decode_bytes_field(tag, encode_utf8(text), rest, acc);
    } else {
        assert(optional_text_field(tag, text) + rest =~= rest);
    }
}

/// An identifier or a score that was written is read back as it was.
proof fn lemma_low32_of_u32(value: u32)
    ensures
        low32(value as u64) == value,
{
}

/// A title that was written is valid UTF-8 and is read back as it was.
proof fn lemma_merge_title(acc: RowModel, title: Seq<char>)
    ensures
        merge_field(
            acc,
            FieldModel { tag: TAG_TITLE, payload: Payload::Bytes(encode_utf8(title)) },
        ) == Ok::<RowModel, DecodeError>(RowModel { title, ..acc }),
{
    vstd::utf8::encode_utf8_valid_utf8(title);
    vstd::utf8::encode_utf8_decode_utf8(title);
}

/// The fields of a message from field `tag` on, in the order of their
/// numbers.
spec fn encode_row_from(row: RowModel, tag: u32) -> Seq<u8>
    decreases 6 - tag,
{
    if tag == TAG_ID {
        optional_varint_field(TAG_ID, row.id as u64) + encode_row_from(row, TAG_TIMESTAMP)
    } else if tag == TAG_TIMESTAMP {
        optional_varint_field(TAG_TIMESTAMP, row.timestamp) + encode_row_from(row, TAG_TYPE)
    } else if tag == TAG_TYPE {
        optional_varint_field(TAG_TYPE, row.row_type.discriminant()) + encode_row_from(
            row,
            TAG_TITLE,
        )
    } else if tag == TAG_TITLE {
        optional_text_field(TAG_TITLE, row.title) + encode_row_from(row, TAG_SCORE)
    } else if tag == TAG_SCORE {
        optional_varint_field(TAG_SCORE, row.score as u64)
    } else {
        Seq::empty()
    }
}

/// A message is its first field followed by the rest.
proof fn lemma_encode_row_from_first(row: RowModel)
    ensures
        encode_row(row) == encode_row_from(row, TAG_ID),
{
    reveal_with_fuel(encode_row_from, 5);
    let f1 = optional_varint_field(TAG_ID, row.id as u64);
    let f2 = optional_varint_field(TAG_TIMESTAMP, row.timestamp);
    let f3 = optional_varint_field(TAG_TYPE, row.row_type.discriminant());
    let f4 = optional_text_field(TAG_TITLE, row.title);
    let f5 = optional_varint_field(TAG_SCORE, row.score as u64);
    assert(f1 + f2 + f3 + f4 + f5 =~= f1 + (f2 + (f3 + (f4 + f5))));
}

/// The fields from the title on are read back into an item that holds the
/// fields before them.
proof fn lemma_decode_from_title(row: RowModel)
    requires
        encode_utf8(row.title).len() <= u64::MAX,
    ensures
        decode_from(
            encode_row_from(row, TAG_TITLE),
            RowModel { title: Seq::empty(), score: 0, ..row },
        ) == Ok::<RowModel, DecodeError>(row),
{
    let a3 = RowModel { title: Seq::empty(), score: 0, ..row };
    let a4 = RowModel { score: 0, ..row };
    let r5 = encode_row_from(row, TAG_SCORE);
    let none = Seq::<u8>::empty();
    lemma_merge_title(a3, row.title);
    assert(row.title.len() == 0 ==> row.title =~= Seq::<char>::empty());
    lemma_decode_optional_text_field(TAG_TITLE, row.title, r5, a3, a4);
    lemma_low32_of_u32(row.score);
    assert(r5 =~= r5 + none);
    lemma_decode_optional_varint_field(TAG_SCORE, row.score as u64, none, a4, row);
}

/// Round trip: the message of an item is read back as that item, field for
/// field. A field that was left out because it had its default value comes
/// back with that value.
pub proof fn lemma_decode_encode(row: RowModel)
    requires
        encode_utf8(row.title).len() <= u64::MAX,
    ensures
        decode_row_model(encode_row(row)) == Ok::<RowModel, DecodeError>(row),
{
    let a0 = default_row();
    let a1 = RowModel { id: row.id, ..a0 };
    let a2 = RowModel { timestamp: row.timestamp, ..a1 };
    let a3 = RowModel { row_type: row.row_type, ..a2 };
    let r2 = encode_row_from(row, TAG_TIMESTAMP);
    let r3 = encode_row_from(row, TAG_TYPE);
    let r4 = encode_row_from(row, TAG_TITLE);
    lemma_encode_row_from_first(row);
    lemma_low32_of_u32(row.id);
    lemma_decode_optional_varint_field(TAG_ID, row.id as u64, r2, a0, a1);
    lemma_decode_optional_varint_field(TAG_TIMESTAMP, row.timestamp, r3, a1, a2);
    lemma_decode_optional_varint_field(TAG_TYPE, row.row_type.discriminant(), r4, a2, a3);
    assert(a3 == RowModel { title: Seq::empty(), score: 0, ..row });
    lemma_decode_from_title(row);
}

/// No two items share a message.
pub proof fn lemma_encode_injective(a: RowModel, b: RowModel)
    requires
        encode_utf8(a.title).len() <= u64::MAX,
        encode_utf8(b.title).len() <= u64::MAX,
        encode_row(a) == encode_row(b),
    ensures
        a == b,
{
    lemma_decode_encode(a);
    lemma_decode_encode(b);
}

} // verus!
