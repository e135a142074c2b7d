use producer::row::{
    classify, decode_row, same_bytes, serialize_hackernews_row, DecodeError, Row, RowType,
};
use prost::bytes::{Buf, BufMut};
use prost::encoding::{DecodeContext, WireType};
use prost::Message;

/// The same message, described to prost by hand.
#[derive(Clone, Debug, Default, PartialEq)]
struct WireRow {
    id: u32,
    timestamp: u64,
    kind: i32,
    title: String,
    score: u32,
}

impl Message for WireRow {
    fn encode_raw(&self, buf: &mut impl BufMut) {
        if self.id != 0 {
            prost::encoding::uint32::encode(1, &self.id, buf);
        }
        if self.timestamp != 0 {
            prost::encoding::uint64::encode(2, &self.timestamp, buf);
        }
        if self.kind != 0 {
            prost::encoding::int32::encode(3, &self.kind, buf);
        }
        if !self.title.is_empty() {
            prost::encoding::string::encode(4, &self.title, buf);
        }
        if self.score != 0 {
            prost::encoding::uint32::encode(5, &self.score, buf);
        }
    }

    fn merge_field(
        &mut self,
        tag: u32,
        wire_type: WireType,
        buf: &mut impl Buf,
        ctx: DecodeContext,
    ) -> Result<(), prost::DecodeError> {
        match tag {
            1 => prost::encoding::uint32::merge(wire_type, &mut self.id, buf, ctx),
            2 => prost::encoding::uint64::merge(wire_type, &mut self.timestamp, buf, ctx),
            3 => prost::encoding::int32::merge(wire_type, &mut self.kind, buf, ctx),
            4 => prost::encoding::string::merge(wire_type, &mut self.title, buf, ctx),
            5 => prost::encoding::uint32::merge(wire_type, &mut self.score, buf, ctx),
            _ => prost::encoding::skip_field(wire_type, tag, buf, ctx),
        }
    }

    fn encoded_len(&self) -> usize {
        let mut len = 0;
        if self.id != 0 {
            len += prost::encoding::uint32::encoded_len(1, &self.id);
        }
        if self.timestamp != 0 {
            len += prost::encoding::uint64::encoded_len(2, &self.timestamp);
        }
        if self.kind != 0 {
            len += prost::encoding::int32::encoded_len(3, &self.kind);
        }
        if !self.title.is_empty() {
            len += prost::encoding::string::encoded_len(4, &self.title);
        }
        if self.score != 0 {
            len += prost::encoding::uint32::encoded_len(5, &self.score);
        }
        len
    }

    fn clear(&mut self) {
        *self = WireRow::default();
    }
}

fn wire_row(row: &Row) -> WireRow {
    WireRow {
        id: row.id,
        timestamp: row.timestamp,
        kind: match row.row_type {
            RowType::Story => 0,
            RowType::Comment => 1,
        },
        title: row.title.clone(),
        score: row.score,
    }
}

fn row(id: u32, timestamp: u64, row_type: RowType, title: &str, score: u32) -> Row {
    Row { id, timestamp, row_type, title: title.to_string(), score }
}

fn sample_rows() -> Vec<Row> {
    vec![
        row(0, 0, RowType::Story, "", 0),
        row(1, 0, RowType::Story, "", 5),
        row(2, 1000, RowType::Comment, "hi", 0),
        row(0, 0, RowType::Comment, "", 0),
        row(0, 0, RowType::Story, "only a title", 0),
        row(127, 128, RowType::Story, "a", 16384),
        row(u32::MAX, u64::MAX, RowType::Comment, "Ask HN: what is the largest row?", u32::MAX),
        row(8863, 1175714200, RowType::Story, "My YC app: Dropbox - Throw away your USB drive", 111),
        row(42, 1, RowType::Comment, "h\u{e9}llo \u{2713} \u{1F600}", 1),
        row(7, 1u64 << 63, RowType::Story, &"x".repeat(300), 1 << 31),
    ]
}

#[test]
fn type_tag_story_is_a_story() {
    assert_eq!(classify("story"), RowType::Story);
}

#[test]
fn type_tag_of_any_other_text_is_a_comment() {
    assert_eq!(classify("comment"), RowType::Comment);
    assert_eq!(classify("poll"), RowType::Comment);
    assert_eq!(classify(""), RowType::Comment);
    assert_eq!(classify("Story"), RowType::Comment);
    assert_eq!(classify("STORY"), RowType::Comment);
    assert_eq!(classify("story "), RowType::Comment);
    assert_eq!(classify(" story"), RowType::Comment);
    assert_eq!(classify("stor"), RowType::Comment);
    assert_eq!(classify("stories"), RowType::Comment);
    assert_eq!(classify("st\u{f6}ry"), RowType::Comment);
}

#[test]
fn kinds_have_their_numbers() {
    assert_eq!(RowType::Story.number(), 0);
    assert_eq!(RowType::Comment.number(), 1);
}

#[test]
fn same_bytes_compares_contents() {
    assert!(same_bytes(b"", b""));
    assert!(same_bytes(b"story", b"story"));
    assert!(!same_bytes(b"story", b"stor"));
    assert!(!same_bytes(b"stor", b"story"));
    assert!(!same_bytes(b"story", b"storY"));
    assert!(!same_bytes(b"", b"s"));
}

#[test]
fn message_leaves_out_fields_at_their_default() {
    let bytes = serialize_hackernews_row(row(1, 0, RowType::Story, "", 5));
    assert_eq!(bytes, vec![0x08, 0x01, 0x28, 0x05]);
}

#[test]
fn message_of_a_comment_with_a_title() {
    let bytes = serialize_hackernews_row(row(2, 1000, RowType::Comment, "hi", 0));
    assert_eq!(
        bytes,
        vec![0x08, 0x02, 0x10, 0xE8, 0x07, 0x18, 0x01, 0x22, 0x02, 0x68, 0x69]
    );
}

#[test]
fn message_of_the_default_row_is_empty() {
    assert_eq!(Row::default(), row(0, 0, RowType::Story, "", 0));
    assert_eq!(serialize_hackernews_row(Row::default()), Vec::<u8>::new());
    assert_eq!(serialize_hackernews_row(row(0, 0, RowType::Story, "", 0)), Vec::<u8>::new());
    assert_eq!(decode_row(&[]), Ok(row(0, 0, RowType::Story, "", 0)));
}

#[test]
fn message_of_a_full_row() {
    let bytes = serialize_hackernews_row(row(300, 1, RowType::Comment, "\u{e9}", u32::MAX));
    assert_eq!(
        bytes,
        vec![
            0x08, 0xAC, 0x02, 0x10, 0x01, 0x18, 0x01, 0x22, 0x02, 0xC3, 0xA9, 0x28, 0xFF, 0xFF,
            0xFF, 0xFF, 0x0F
        ]
    );
}

#[test]
fn message_is_read_back_as_the_row() {
    for row in sample_rows() {
        let bytes = serialize_hackernews_row(row.clone());
        assert_eq!(decode_row(&bytes), Ok(row));
    }
}

#[test]
fn message_is_the_one_that_prost_writes() {
    for row in sample_rows() {
        let expected = wire_row(&row).encode_to_vec();
        assert_eq!(serialize_hackernews_row(row), expected);
    }
}

#[test]
fn message_is_read_by_prost_as_the_row() {
    for row in sample_rows() {
        let bytes = serialize_hackernews_row(row.clone());
        assert_eq!(WireRow::decode(&bytes[..]), Ok(wire_row(&row)));
    }
}

#[test]
fn decode_passes_over_fields_with_other_numbers() {
    let bytes = [
        0x08, 0x07, // id 7
        0x30, 0x2A, // field 6, an integer
        0x3A, 0x03, 0x01, 0x02, 0x03, // field 7, three bytes
        0x41, 1, 2, 3, 4, 5, 6, 7, 8, // field 8, eight bytes
        0x4D, 1, 2, 3, 4, // field 9, four bytes
        0x28, 0x09, // score 9
    ];
    assert_eq!(decode_row(&bytes), Ok(row(7, 0, RowType::Story, "", 9)));
    assert_eq!(
        WireRow::decode(&bytes[..]),
        Ok(wire_row(&row(7, 0, RowType::Story, "", 9)))
    );
}

#[test]
fn decode_takes_fields_in_any_order() {
    let bytes = [0x28, 0x05, 0x22, 0x02, 0x68, 0x69, 0x18, 0x01, 0x10, 0x03, 0x08, 0x02];
    assert_eq!(decode_row(&bytes), Ok(row(2, 3, RowType::Comment, "hi", 5)));
}

#[test]
fn decode_keeps_the_last_of_a_repeated_field() {
    let bytes = [0x08, 0x01, 0x08, 0x02, 0x22, 0x01, 0x61, 0x22, 0x01, 0x62, 0x18, 0x01, 0x18, 0x00];
    assert_eq!(decode_row(&bytes), Ok(row(2, 0, RowType::Story, "b", 0)));
    let bytes = [0x22, 0x02, 0x68, 0x69, 0x22, 0x00];
    assert_eq!(decode_row(&bytes), Ok(row(0, 0, RowType::Story, "", 0)));
}

#[test]
fn decode_keeps_the_low_bits_of_a_wide_integer() {
    // id 2^32 + 5 and score 2^32
    let bytes = [0x08, 0x85, 0x80, 0x80, 0x80, 0x10, 0x28, 0x80, 0x80, 0x80, 0x80, 0x10];
    assert_eq!(decode_row(&bytes), Ok(row(5, 0, RowType::Story, "", 0)));
    assert_eq!(WireRow::decode(&bytes[..]).map(|r| (r.id, r.score)), Ok((5, 0)));
    // type tag 2^32 + 1
    let bytes = [0x18, 0x81, 0x80, 0x80, 0x80, 0x10];
    assert_eq!(decode_row(&bytes), Ok(row(0, 0, RowType::Comment, "", 0)));
}

#[test]
fn decode_refuses_bytes_that_are_no_fields() {
    assert_eq!(decode_row(&[0x08]), Err(DecodeError::Malformed));
    assert_eq!(decode_row(&[0x08, 0x01, 0x22, 0x05, 0x68]), Err(DecodeError::Malformed));
    assert_eq!(decode_row(&[0x00, 0x01]), Err(DecodeError::Malformed));
    assert_eq!(decode_row(&[0x0F, 0x01]), Err(DecodeError::Malformed));
    assert_eq!(decode_row(&[0x08, 0x01, 0x0B, 0x0C]), Err(DecodeError::Malformed));
    assert_eq!(decode_row(&[0xFF; 12]), Err(DecodeError::Malformed));
}

#[test]
fn decode_refuses_a_wire_type_that_is_not_the_fields_own() {
    assert_eq!(decode_row(&[0x0A, 0x01, 0x61]), Err(DecodeError::WireType));
    assert_eq!(decode_row(&[0x12, 0x00]), Err(DecodeError::WireType));
    assert_eq!(decode_row(&[0x1D, 0, 0, 0, 0]), Err(DecodeError::WireType));
    assert_eq!(decode_row(&[0x20, 0x01]), Err(DecodeError::WireType));
    assert_eq!(decode_row(&[0x29, 0, 0, 0, 0, 0, 0, 0, 0]), Err(DecodeError::WireType));
    assert!(WireRow::decode(&[0x0A, 0x01, 0x61][..]).is_err());
    assert!(WireRow::decode(&[0x20, 0x01][..]).is_err());
}

#[test]
fn decode_refuses_a_title_that_is_not_utf8() {
    assert_eq!(decode_row(&[0x22, 0x01, 0xFF]), Err(DecodeError::Text));
    assert_eq!(decode_row(&[0x22, 0x02, 0xC3, 0x28]), Err(DecodeError::Text));
    assert_eq!(decode_row(&[0x22, 0x03, 0xED, 0xA0, 0x80]), Err(DecodeError::Text));
    assert_eq!(decode_row(&[0x22, 0x01, 0xC3]), Err(DecodeError::Text));
    assert!(WireRow::decode(&[0x22, 0x01, 0xFF][..]).is_err());
}

#[test]
fn decode_refuses_a_kind_that_is_neither() {
    assert_eq!(decode_row(&[0x18, 0x02]), Err(DecodeError::Kind));
    assert_eq!(decode_row(&[0x18, 0xFF, 0xFF, 0xFF, 0xFF, 0x0F]), Err(DecodeError::Kind));
    assert_eq!(decode_row(&[0x08, 0x01, 0x18, 0x07, 0x28, 0x01]), Err(DecodeError::Kind));
}

#[test]
fn decode_reports_the_first_fault() {
    // a wrong wire type before a kind that is neither
    assert_eq!(decode_row(&[0x0A, 0x00, 0x18, 0x02]), Err(DecodeError::WireType));
    // a kind that is neither before bytes that are no field
    assert_eq!(decode_row(&[0x18, 0x02, 0x08]), Err(DecodeError::Kind));
    // a title that is not UTF-8 before a wrong wire type
    assert_eq!(decode_row(&[0x22, 0x01, 0x80, 0x0A, 0x00]), Err(DecodeError::Text));
}

#[test]
fn decode_reads_what_prost_writes() {
    for row in sample_rows() {
        let bytes = wire_row(&row).encode_to_vec();
        assert_eq!(decode_row(&bytes), Ok(row));
    }
}
