//! The field-tag wire format: base-128 integers, field keys, and the fields
//! that a message is a sequence of.

use vstd::prelude::*;
use vstd::slice::slice_subrange;

verus! {

/// Wire type of a field that carries one base-128 integer.
pub const WIRE_VARINT: u8 = 0;

/// Wire type of a field that carries eight bytes.
pub const WIRE_FIXED64: u8 = 1;

/// Wire type of a field that carries a length and that many bytes.
pub const WIRE_BYTES: u8 = 2;

/// Wire type of a field that carries four bytes.
pub const WIRE_FIXED32: u8 = 5;

/// The largest field number that a key can hold.
pub const MAX_TAG: u32 = 536870911;

/// The base-128 encoding of `n`: seven bits per byte, least significant group
/// first, the high bit set on every byte but the last.
pub open spec fn varint(n: nat) -> Seq<u8>
    decreases n,
{
    if n < 128 {
        seq![n as u8]
    } else {
        seq![(128 + n % 128) as u8] + varint(n / 128)
    }
}

/// Reads a base-128 integer of at most `limit` bytes from the front of `bytes`:
/// the number it stands for and the count of bytes it takes, or `None` where
/// no byte among the first `limit` ends it.
pub open spec fn varint_prefix(bytes: Seq<u8>, limit: nat) -> Option<(nat, nat)>
    decreases limit,
{
    if limit == 0 || bytes.len() == 0 {
        None
    } else if bytes[0] < 128 {
        Some((bytes[0] as nat, 1nat))
    } else {
        match varint_prefix(bytes.skip(1), (limit - 1) as nat) {
            Some((rest, taken)) => Some((((bytes[0] - 128) + 128 * rest) as nat, taken + 1)),
            None => None,
        }
    }
}

/// What a reader makes of the front of `bytes`: a base-128 integer of at most
/// ten bytes whose value fits in 64 bits, with the count of bytes it takes.
pub open spec fn parse_varint(bytes: Seq<u8>) -> Option<(u64, nat)> {
    match varint_prefix(bytes, 10) {
        Some((value, taken)) => if value <= u64::MAX {
            Some((value as u64, taken))
        } else {
            None
        },
        None => None,
    }
}

/// The number that stands in front of a field: its tag and, in the low three
/// bits, its wire type.
pub open spec fn field_key(tag: u32, wire: u8) -> nat {
    (tag * 8 + wire) as nat
}

/// A field that carries the integer `value`.
pub open spec fn varint_field(tag: u32, value: u64) -> Seq<u8> {
    varint(field_key(tag, WIRE_VARINT)) + varint(value as nat)
}

/// A field that carries `payload` behind its length.
pub open spec fn bytes_field(tag: u32, payload: Seq<u8>) -> Seq<u8> {
    varint(field_key(tag, WIRE_BYTES)) + varint(payload.len()) + payload
}

/// What a field carries, by wire type.
pub enum Payload {
    Varint(u64),
    Fixed64(Seq<u8>),
    Bytes(Seq<u8>),
    Fixed32(Seq<u8>),
}

/// One field of a message: its tag and what it carries.
pub struct FieldModel {
    pub tag: u32,
    pub payload: Payload,
}

/// Reads a key from the front of `bytes`: the tag, the wire type and the count
/// of bytes taken. A key wider than 32 bits, a wire type above 5 and the tag 0
/// are refused.
pub open spec fn parse_key(bytes: Seq<u8>) -> Option<(u32, u8, nat)> {
    match parse_varint(bytes) {
        Some((key, taken)) => if key > u32::MAX || key % 8 > 5 || key / 8 < 1 {
            None
        } else {
            Some(((key / 8) as u32, (key % 8) as u8, taken))
        },
        None => None,
    }
}

/// Reads one field from the front of `bytes`: the field and the count of bytes
/// that it takes, key included. Wire types 3 and 4, which open and close a
/// group, are refused, and so is a payload that runs past the end.
pub open spec fn parse_field(bytes: Seq<u8>) -> Option<(FieldModel, nat)> {
    match parse_key(bytes) {
        None => None,
        Some((tag, wire, k)) => {
            let rest = bytes.skip(k as int);
            if wire == WIRE_VARINT {
                match parse_varint(rest) {
                    Some((value, n)) => Some(
                        (FieldModel { tag, payload: Payload::Varint(value) }, k + n),
                    ),
                    None => None,
                }
            } else if wire == WIRE_FIXED64 {
                if rest.len() >= 8 {
                    Some(
                        (
                            FieldModel { tag, payload: Payload::Fixed64(rest.subrange(0, 8)) },
                            k + 8,
                        ),
                    )
                } else {
                    None
                }
            } else if wire == WIRE_BYTES {
                match parse_varint(rest) {
                    Some((len, n)) => if len <= rest.len() - n {
                        Some(
                            (
                                FieldModel {
                                    tag,
                                    payload: Payload::Bytes(rest.subrange(n as int, n + len)),
                                },
                                k + n + len as nat,
                            ),
                        )
                    } else {
                        None
                    },
                    None => None,
                }
            } else if wire == WIRE_FIXED32 {
                if rest.len() >= 4 {
                    Some(
                        (
                            FieldModel { tag, payload: Payload::Fixed32(rest.subrange(0, 4)) },
                            k + 4,
                        ),
                    )
                } else {
                    None
                }
            } else {
                None
            }
        },
    }
}

/// The number of values that `k` groups of seven bits can tell apart.
pub open spec fn capacity(k: nat) -> nat
    decreases k,
{
    if k == 0 {
        1
    } else {
        128 * capacity((k - 1) as nat)
    }
}

/// An encoding has at least one byte, and no more than it takes to hold the
/// number seven bits at a time.
pub proof fn lemma_varint_len(n: nat, k: nat)
    requires
        k >= 1,
        n < capacity(k),
    ensures
        1 <= varint(n).len() <= k,
    decreases n,
{
    if n >= 128 {
        assert(capacity(k) == 128 * capacity((k - 1) as nat));
        assert(capacity(1) == 128) by {
            reveal_with_fuel(capacity, 2);
        }
        if k == 1 {
            assert(false);
        }
        assert(n / 128 < capacity((k - 1) as nat)) by (nonlinear_arith)
            requires
                n < 128 * capacity((k - 1) as nat),
        ;
        lemma_varint_len(n / 128, (k - 1) as nat);
    }
}

/// Every 64-bit number is encoded in one to ten bytes.
pub proof fn lemma_varint_len_u64(value: u64)
    ensures
        1 <= varint(value as nat).len() <= 10,
{
    assert(capacity(10) == 0x40_0000_0000_0000_0000) by {
        reveal_with_fuel(capacity, 11);
    }
    lemma_varint_len(value as nat, 10);
}

/// Reading takes at least one byte, no more than the limit and no more than
/// there are, and yields a number that fits in the groups read.
pub proof fn lemma_varint_prefix_bounds(bytes: Seq<u8>, limit: nat)
    requires
        varint_prefix(bytes, limit) is Some,
    ensures
        1 <= varint_prefix(bytes, limit).unwrap().1 <= limit,
        varint_prefix(bytes, limit).unwrap().1 <= bytes.len(),
        varint_prefix(bytes, limit).unwrap().0 < capacity(varint_prefix(bytes, limit).unwrap().1),
    decreases limit,
{
    reveal_with_fuel(capacity, 2);
    if bytes[0] >= 128 {
        let inner = varint_prefix(bytes.skip(1), (limit - 1) as nat);
        lemma_varint_prefix_bounds(bytes.skip(1), (limit - 1) as nat);
        let (rest, taken) = inner.unwrap();
        assert(capacity(taken + 1) == 128 * capacity(taken));
        assert((bytes[0] - 128) + 128 * rest < 128 * capacity(taken)) by (nonlinear_arith)
            requires
                0 <= bytes[0] - 128 < 128,
                rest < capacity(taken),
        ;
    }
}

/// Reading back what was written: the encoding of `n`, whatever follows it,
/// is read as `n` and as no more bytes than were written.
pub proof fn lemma_varint_prefix_of_varint(n: nat, rest: Seq<u8>, limit: nat)
    requires
        varint(n).len() <= limit,
    ensures
        varint_prefix(varint(n) + rest, limit) == Some((n, varint(n).len())),
    decreases n,
{
    let bytes = varint(n) + rest;
    if n < 128 {
        assert(bytes[0] == n as u8);
    } else {
        let tail = varint(n / 128);
        assert(bytes[0] == (128 + n % 128) as u8);
        assert(bytes.skip(1) =~= tail + rest);
        lemma_varint_prefix_of_varint(n / 128, rest, (limit - 1) as nat);
        assert((bytes[0] - 128) + 128 * (n / 128) == n);
    }
}

/// A 64-bit number that was written is read back, with the length written.
pub proof fn lemma_parse_varint_of_varint(value: u64, rest: Seq<u8>)
    ensures
        parse_varint(varint(value as nat) + rest) == Some(
            (value, varint(value as nat).len()),
        ),
{
    lemma_varint_len_u64(value);
    lemma_varint_prefix_of_varint(value as nat, rest, 10);
}

/// What `parse_varint` takes is at least one byte and no more than there are.
pub proof fn lemma_parse_varint_bounds(bytes: Seq<u8>)
    requires
        parse_varint(bytes) is Some,
    ensures
        1 <= parse_varint(bytes).unwrap().1 <= 10,
        parse_varint(bytes).unwrap().1 <= bytes.len(),
{
    lemma_varint_prefix_bounds(bytes, 10);
}

/// A key that was written is read back as the tag and wire type it was made
/// of.
pub proof fn lemma_parse_key_of_key(tag: u32, wire: u8, rest: Seq<u8>)
    requires
        1 <= tag <= MAX_TAG,
        wire <= 5,
    ensures
        parse_key(varint(field_key(tag, wire)) + rest) == Some(
            (tag, wire, varint(field_key(tag, wire)).len()),
        ),
{
    let key: u64 = (tag * 8 + wire) as u64;
    lemma_parse_varint_of_varint(key, rest);
}

/// What `parse_field` takes is at least two bytes and no more than there are.
pub proof fn lemma_parse_field_bounds(bytes: Seq<u8>)
    requires
        parse_field(bytes) is Some,
    ensures
        2 <= parse_field(bytes).unwrap().1 <= bytes.len(),
{
    let (tag, wire, k) = parse_key(bytes).unwrap();
    lemma_parse_varint_bounds(bytes);
    let rest = bytes.skip(k as int);
    if wire == WIRE_VARINT || wire == WIRE_BYTES {
        lemma_parse_varint_bounds(rest);
    }
}

/// An integer field that was written is read back.
pub proof fn lemma_parse_varint_field(tag: u32, value: u64, rest: Seq<u8>)
    requires
        1 <= tag <= MAX_TAG,
    ensures
        parse_field(varint_field(tag, value) + rest) == Some(
            (
                FieldModel { tag, payload: Payload::Varint(value) },
                varint_field(tag, value).len(),
            ),
        ),
{
    let key = varint(field_key(tag, WIRE_VARINT));
    let body = varint(value as nat);
    let bytes = varint_field(tag, value) + rest;
    assert(bytes =~= key + (body + rest));
    lemma_parse_key_of_key(tag, WIRE_VARINT, body + rest);
    assert(bytes.skip(key.len() as int) =~= body + rest);
    lemma_parse_varint_of_varint(value, rest);
}

/// A field of bytes that was written is read back.
pub proof fn lemma_parse_bytes_field(tag: u32, payload: Seq<u8>, rest: Seq<u8>)
    requires
        1 <= tag <= MAX_TAG,
        payload.len() <= u64::MAX,
    ensures
        parse_field(bytes_field(tag, payload) + rest) == Some(
            (
                FieldModel { tag, payload: Payload::Bytes(payload) },
                bytes_field(tag, payload).len(),
            ),
        ),
{
    let key = varint(field_key(tag, WIRE_BYTES));
    let len = varint(payload.len());
    let bytes = bytes_field(tag, payload) + rest;
    assert(bytes =~= key + (len + payload + rest));
    lemma_parse_key_of_key(tag, WIRE_BYTES, len + payload + rest);
    let after_key = bytes.skip(key.len() as int);
    assert(after_key =~= len + (payload + rest));
    lemma_parse_varint_of_varint(payload.len() as u64, payload + rest);
    assert(after_key.subrange(len.len() as int, (len.len() + payload.len()) as int) =~= payload);
}

/// Calls `prost::encoding::encode_varint`, which appends the base-128 encoding
/// of `value` to the buffer and leaves what the buffer held before in place.
#[verifier::external_body]
fn put_varint(value: u64, buf: &mut Vec<u8>)
    ensures
        final(buf)@ == old(buf)@ + varint(value as nat),
{
    prost::encoding::encode_varint(value, buf);
}

/// Calls `prost::encoding::decode_varint` on a copy of the slice reference.
/// The call reads at most ten bytes from the front and fails where none of
/// them ends the integer or where the tenth carries more than the one bit that
/// is left of 64, which is to say where the value does not fit. The result is
/// the value, if any, and the number of bytes that remain behind it.
#[verifier::external_body]
fn take_varint(input: &[u8]) -> (r: (Option<u64>, usize))
    ensures
        match r.0 {
            Some(value) => r.1 <= input@.len() && parse_varint(input@) == Some(
                (value, (input@.len() - r.1) as nat),
            ),
            None => parse_varint(input@) is None,
        },
{
    let mut rest = input;
    let value = prost::encoding::decode_varint(&mut rest).ok();
    (value, rest.len())
}

/// Appends a field that carries the integer `value`.
pub fn write_varint_field(tag: u32, value: u64, buf: &mut Vec<u8>)
    requires
        1 <= tag <= MAX_TAG,
    ensures
        final(buf)@ == old(buf)@ + varint_field(tag, value),
{
    let key: u64 = tag as u64 * 8 + WIRE_VARINT as u64;
    put_varint(key, buf);
    put_varint(value, buf);
    assert(buf@ =~= old(buf)@ + varint_field(tag, value));
}

/// Appends a field that carries `payload` behind its length.
pub fn write_bytes_field(tag: u32, payload: &[u8], buf: &mut Vec<u8>)
    requires
        1 <= tag <= MAX_TAG,
    ensures
        final(buf)@ == old(buf)@ + bytes_field(tag, payload@),
{
    let key: u64 = tag as u64 * 8 + WIRE_BYTES as u64;
    put_varint(key, buf);
    put_varint(payload.len() as u64, buf);
    buf.extend_from_slice(payload);
    assert(buf@ =~= old(buf)@ + bytes_field(tag, payload@));
}

/// Reads a base-128 integer that starts at `pos`: the value and the position
/// behind it. There is none at a position beyond the end.
pub fn read_varint(input: &[u8], pos: usize) -> (r: Option<(u64, usize)>)
    ensures
        match r {
            Some((value, next)) => pos < next <= input@.len() && parse_varint(
                input@.skip(pos as int),
            ) == Some((value, (next - pos) as nat)),
            None => pos > input@.len() || parse_varint(input@.skip(pos as int)) is None,
        },
{
    if pos > input.len() {
        return None;
    }
    let rest = slice_subrange(input, pos, input.len());
    assert(rest@ =~= input@.skip(pos as int));
    let (value, remaining) = take_varint(rest);
    match value {
        Some(v) => {
            proof {
                lemma_parse_varint_bounds(rest@);
            }
            Some((v, input.len() - remaining))
        },
        None => None,
    }
}

/// One field as it was found in an input: its tag and wire type, the integer
/// it carries where the wire type is 0, and where its payload stands in the
/// input otherwise. `end` is the position behind the field.
#[derive(Clone, Copy, Debug, PartialEq, Eq)]
pub struct Field {
    pub tag: u32,
    pub wire: u8,
    pub value: u64,
    pub start: usize,
    pub end: usize,
}

impl Field {
    /// Whether the parts fit together: the wire type is one of the four, an
    /// integer field has no payload, and any other field has its payload's
    /// length for `value`.
    pub open spec fn well_formed(self) -> bool {
        &&& self.start <= self.end
        &&& self.wire == WIRE_VARINT || self.wire == WIRE_FIXED64 || self.wire == WIRE_BYTES
            || self.wire == WIRE_FIXED32
        &&& self.wire == WIRE_VARINT ==> self.start == self.end
        &&& self.wire != WIRE_VARINT ==> self.value == self.end - self.start
    }

    /// The field as the format describes it, its payload taken from `input`.
    pub open spec fn model(self, input: Seq<u8>) -> FieldModel {
        let span = input.subrange(self.start as int, self.end as int);
        FieldModel {
            tag: self.tag,
            payload: if self.wire == WIRE_VARINT {
                Payload::Varint(self.value)
            } else if self.wire == WIRE_FIXED64 {
                Payload::Fixed64(span)
            } else if self.wire == WIRE_BYTES {
                Payload::Bytes(span)
            } else {
                Payload::Fixed32(span)
            },
        }
    }
}

/// Reads a key that starts at `pos`: the tag, the wire type and the position
/// behind the key. There is none at a position beyond the end.
pub fn read_key(input: &[u8], pos: usize) -> (r: Option<(u32, u8, usize)>)
    ensures
        match r {
            Some((tag, wire, next)) => pos < next <= input@.len() && parse_key(
                input@.skip(pos as int),
            ) == Some((tag, wire, (next - pos) as nat)),
            None => pos > input@.len() || parse_key(input@.skip(pos as int)) is None,
        },
{
    match read_varint(input, pos) {
        None => None,
        Some((key, next)) => {
            if key > u32::MAX as u64 || key % 8 > 5 || key / 8 < 1 {
                None
            } else {
                Some(((key / 8) as u32, (key % 8) as u8, next))
            }
        },
    }
}

/// Reads the field that starts at `pos`. There is none at a position beyond
/// the end.
pub fn read_field(input: &[u8], pos: usize) -> (r: Option<Field>)
    ensures
        match r {
            Some(field) => {
                &&& field.well_formed()
                &&& pos < field.start <= field.end <= input@.len()
                &&& parse_field(input@.skip(pos as int)) == Some(
                    (field.model(input@), (field.end - pos) as nat),
                )
            },
            None => pos > input@.len() || parse_field(input@.skip(pos as int)) is None,
        },
{
    let ghost bytes = input@.skip(pos as int);
    let (tag, wire, body) = match read_key(input, pos) {
        None => { return None; },
        Some(key) => key,
    };
    let ghost rest = bytes.skip(body - pos);
    assert(rest =~= input@.skip(body as int));
    let left: usize = input.len() - body;
    if wire == WIRE_VARINT {
        match read_varint(input, body) {
            None => None,
            Some((value, next)) => Some(Field { tag, wire, value, start: next, end: next }),
        }
    } else if wire == WIRE_FIXED64 {
        if left >= 8 {
            assert(rest.subrange(0, 8) =~= input@.subrange(body as int, body + 8));
            Some(Field { tag, wire, value: 8, start: body, end: body + 8 })
        } else {
            None
        }
    } else if wire == WIRE_BYTES {
        match read_varint(input, body) {
            None => None,
            Some((len, start)) => {
                if len <= (input.len() - start) as u64 {
                    let end: usize = start + len as usize;
                    assert(rest.subrange(start - body, start - body + len) =~= input@.subrange(
                        start as int,
                        end as int,
                    ));
                    Some(Field { tag, wire, value: len, start, end })
                } else {
                    None
                }
            },
        }
    } else if wire == WIRE_FIXED32 {
        if left >= 4 {
            assert(rest.subrange(0, 4) =~= input@.subrange(body as int, body + 4));
            Some(Field { tag, wire, value: 4, start: body, end: body + 4 })
        } else {
            None
        }
    } else {
        None
    }
}

} // verus!
