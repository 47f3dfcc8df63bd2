//! The protobuf wire layer: what a varint, a field key and a length-delimited
//! text field look like in bytes, and the calls into `prost` that write and
//! read them.

use prost::DecodeError;
use prost::encoding::DecodeContext;
use vstd::prelude::*;
use vstd::utf8::*;

verus! {

/// The error that `prost` returns when bytes do not decode.
#[verifier::external_type_specification]
#[verifier::external_body]
pub struct ExDecodeError(DecodeError);

/// The wire type carried in the low three bits of a field key.
#[derive(Clone, Copy, Debug, PartialEq, Eq, Structural)]
pub enum WireType {
    Varint,
    SixtyFourBit,
    LengthDelimited,
    StartGroup,
    EndGroup,
    ThirtyTwoBit,
}

impl WireType {
    /// The number that stands for this wire type inside a key.
    pub open spec fn code(self) -> nat {
        match self {
            WireType::Varint => 0,
            WireType::SixtyFourBit => 1,
            WireType::LengthDelimited => 2,
            WireType::StartGroup => 3,
            WireType::EndGroup => 4,
            WireType::ThirtyTwoBit => 5,
        }
    }

    /// The wire type that a number below six stands for.
    pub open spec fn of_code(c: nat) -> WireType {
        if c == 0 {
            WireType::Varint
        } else if c == 1 {
            WireType::SixtyFourBit
        } else if c == 2 {
            WireType::LengthDelimited
        } else if c == 3 {
            WireType::StartGroup
        } else if c == 4 {
            WireType::EndGroup
        } else {
            WireType::ThirtyTwoBit
        }
    }
}

/// Why a buffer did not decode into a record identifier.
#[derive(Clone, Copy, Debug, PartialEq, Eq, Structural)]
pub enum DecodeFailure {
    /// The identifier field came with a wire type other than length-delimited.
    WireType,
    /// The identifier field's text holds no separator.
    Separator,
    /// The bytes are not well-formed on the wire: a bad varint or key, a
    /// length that runs past the buffer, text that is not UTF-8, a stray group end.
    Malformed,
}

/// The smallest field number.
pub const MIN_TAG: u32 = 1;

/// The largest field number: a key is the number shifted left by three bits
/// and must fit in 32 bits.
pub const MAX_TAG: u32 = 536870911;

/// The base-128 encoding of `v`, low group first, the high bit set on every
/// byte but the last.
pub open spec fn varint(v: nat) -> Seq<u8>
    decreases v,
{
    if v < 128 {
        seq![v as u8]
    } else {
        seq![(v % 128 + 128) as u8] + varint(v / 128)
    }
}

/// The key of a field: its number and wire type in one varint.
pub open spec fn key(tag: u32, wire_type: WireType) -> Seq<u8> {
    varint(tag as nat * 8 + wire_type.code())
}

/// A length-delimited text field: key, byte length, then the UTF-8 bytes.
pub open spec fn string_field(tag: u32, text: Seq<char>) -> Seq<u8> {
    key(tag, WireType::LengthDelimited) + varint(encode_utf8(text).len()) + encode_utf8(text)
}

/// Reads a varint from the front of `b`, looking at no more than `room`
/// bytes: the value and the number of bytes it took. The last byte allowed
/// may carry one bit only, so that a full ten-byte varint stays below 2^64.
pub open spec fn varint_at(b: Seq<u8>, room: nat) -> Option<(nat, nat)>
    decreases room,
{
    if room == 0 || b.len() == 0 {
        None
    } else if b[0] < 128 {
        if room == 1 && b[0] >= 2 {
            None
        } else {
            Some((b[0] as nat, 1nat))
        }
    } else {
        match varint_at(b.skip(1), (room - 1) as nat) {
            Some((v, n)) => Some(((b[0] - 128) as nat + 128 * v, n + 1)),
            None => None,
        }
    }
}

/// Reads a field key from the front of `b`: field number, wire type and the
/// number of bytes the key took.
pub open spec fn key_at(b: Seq<u8>) -> Option<(u32, WireType, nat)> {
    match varint_at(b, 10) {
        Some((k, n)) => if k <= u32::MAX && k % 8 <= 5 && k / 8 >= 1 {
            Some(((k / 8) as u32, WireType::of_code(k % 8), n))
        } else {
            None
        },
        None => None,
    }
}

/// Reads the payload of a length-delimited text field from the front of `b`:
/// the text and the number of bytes that length and text took together.
pub open spec fn string_at(b: Seq<u8>) -> Option<(Seq<char>, nat)> {
    match varint_at(b, 10) {
        Some((len, n)) => if n + len <= b.len() && valid_utf8(
            b.subrange(n as int, (n + len) as int),
        ) {
            Some((decode_utf8(b.subrange(n as int, (n + len) as int)), n + len))
        } else {
            None
        },
        None => None,
    }
}

/// How deep `prost` follows fields into groups before it gives up.
pub const RECURSION_LIMIT: u32 = 100;

/// The number of bytes that the payload of a field with the given wire type
/// takes at the front of `b`, where groups may still be entered `depth`
/// times: a varint, four bytes, eight bytes, a length and that many bytes,
/// or a group up to its end. A group end on its own has no payload.
pub open spec fn span_within(wire_type: WireType, tag: u32, b: Seq<u8>, depth: nat) -> Option<nat>
    decreases depth, b.len(), 1nat,
{
    if depth == 0 {
        None
    } else {
        match wire_type {
            WireType::Varint => match varint_at(b, 10) {
                Some((_, n)) => Some(n),
                None => None,
            },
            WireType::SixtyFourBit => if 8 <= b.len() {
                Some(8nat)
            } else {
                None
            },
            WireType::ThirtyTwoBit => if 4 <= b.len() {
                Some(4nat)
            } else {
                None
            },
            WireType::LengthDelimited => match varint_at(b, 10) {
                Some((len, n)) => if n + len <= b.len() {
                    Some(n + len)
                } else {
                    None
                },
                None => None,
            },
            WireType::StartGroup => group_at(tag, b, depth),
            WireType::EndGroup => None,
        }
    }
}

/// The number of bytes that the rest of a group takes at the front of `b`:
/// field after field, each with its key, up to the group end that carries
/// the number `tag` under which the group was opened.
pub open spec fn group_at(tag: u32, b: Seq<u8>, depth: nat) -> Option<nat>
    decreases depth, b.len(), 0nat,
{
    match key_at(b) {
        Some((inner, wire_type, n)) => if wire_type == WireType::EndGroup {
            if inner == tag {
                Some(n)
            } else {
                None
            }
        } else if depth == 0 {
            None
        } else {
            match span_within(wire_type, inner, b.skip(n as int), (depth - 1) as nat) {
                Some(m) => if 0 < n + m <= b.len() {
                    match group_at(tag, b.skip((n + m) as int), depth) {
                        Some(r) => Some(n + m + r),
                        None => None,
                    }
                } else {
                    None
                },
                None => None,
            }
        },
        None => None,
    }
}

/// The number of bytes that the payload of a field with the given wire type
/// takes at the front of `b`.
pub open spec fn span_at(wire_type: WireType, tag: u32, b: Seq<u8>) -> Option<nat> {
    span_within(wire_type, tag, b, RECURSION_LIMIT as nat)
}

/// The bound below which a varint fits in `room` bytes, the last of which
/// may carry one bit.
pub open spec fn varint_limit(room: nat) -> nat
    decreases room,
{
    if room <= 1 {
        2
    } else {
        128 * varint_limit((room - 1) as nat)
    }
}

/// A varint of ten bytes holds every number below 2^64.
pub proof fn lemma_varint_limit_ten()
    ensures
        varint_limit(10) == 0x1_0000_0000_0000_0000,
{
    assert(varint_limit(1) == 2);
    assert(varint_limit(2) == 0x100);
    assert(varint_limit(3) == 0x8000);
    assert(varint_limit(4) == 0x40_0000);
    assert(varint_limit(5) == 0x2000_0000);
    assert(varint_limit(6) == 0x10_0000_0000);
    assert(varint_limit(7) == 0x800_0000_0000);
    assert(varint_limit(8) == 0x4_0000_0000_0000);
    assert(varint_limit(9) == 0x200_0000_0000_0000);
}

/// A varint that was read took at least one byte, no more than `room` and
/// no more than there are.
pub proof fn lemma_varint_at_bounds(b: Seq<u8>, room: nat)
    ensures
        match varint_at(b, room) {
            Some((_, n)) => 1 <= n <= b.len() && n <= room,
            None => true,
        },
    decreases room,
{
    if room != 0 && b.len() != 0 && b[0] >= 128 {
        lemma_varint_at_bounds(b.skip(1), (room - 1) as nat);
    }
}

/// Reading gives back what was written: at the front of any bytes, the
/// encoding of `v` reads as `v` and takes exactly its own length.
pub proof fn lemma_varint_round_trip(v: nat, room: nat, rest: Seq<u8>)
    requires
        room >= 1,
        v < varint_limit(room),
    ensures
        varint_at(varint(v) + rest, room) == Some((v, varint(v).len())),
    decreases room,
{
    let b = varint(v) + rest;
    if v < 128 {
        assert(varint(v) =~= seq![v as u8]);
        assert(b[0] == v as u8);
    } else {
        let tail = varint(v / 128);
        assert(varint(v) =~= seq![(v % 128 + 128) as u8] + tail);
        assert(b[0] == (v % 128 + 128) as u8);
        assert(b.skip(1) =~= tail + rest);
        assert(room >= 2);
        assert(v / 128 < varint_limit((room - 1) as nat));
        lemma_varint_round_trip(v / 128, (room - 1) as nat, rest);
        assert(varint(v).len() == tail.len() + 1);
        assert((b[0] - 128) as nat + 128 * (v / 128) == v);
    }
}

/// A key that was written reads as the field number and wire type it was
/// made of.
pub proof fn lemma_key_round_trip(tag: u32, wire_type: WireType, rest: Seq<u8>)
    requires
        MIN_TAG <= tag <= MAX_TAG,
    ensures
        key_at(key(tag, wire_type) + rest) == Some((tag, wire_type, key(tag, wire_type).len())),
{
    lemma_varint_limit_ten();
    lemma_varint_round_trip(tag as nat * 8 + wire_type.code(), 10, rest);
}

/// The span of a payload that was read lies within the bytes.
pub proof fn lemma_span_within_bounds(wire_type: WireType, tag: u32, b: Seq<u8>, depth: nat)
    ensures
        match span_within(wire_type, tag, b, depth) {
            Some(n) => n <= b.len(),
            None => true,
        },
    decreases depth, b.len(), 1nat,
{
    lemma_varint_at_bounds(b, 10);
    if depth > 0 && wire_type == WireType::StartGroup {
        lemma_group_at_bounds(tag, b, depth);
    }
}

/// The span of a group that was read lies within the bytes.
pub proof fn lemma_group_at_bounds(tag: u32, b: Seq<u8>, depth: nat)
    ensures
        match group_at(tag, b, depth) {
            Some(n) => n <= b.len(),
            None => true,
        },
    decreases depth, b.len(), 0nat,
{
    lemma_varint_at_bounds(b, 10);
    if let Some((inner, wire_type, n)) = key_at(b) {
        if wire_type != WireType::EndGroup && depth > 0 {
            if let Some(m) = span_within(wire_type, inner, b.skip(n as int), (depth - 1) as nat) {
                if 0 < n + m <= b.len() {
                    lemma_group_at_bounds(tag, b.skip((n + m) as int), depth);
                }
            }
        }
    }
}

/// The span of a payload that was read lies within the bytes.
pub proof fn lemma_span_at_bounds(wire_type: WireType, tag: u32, b: Seq<u8>)
    ensures
        match span_at(wire_type, tag, b) {
            Some(n) => n <= b.len(),
            None => true,
        },
{
    lemma_span_within_bounds(wire_type, tag, b, RECURSION_LIMIT as nat);
}

/// Calls `prost::encoding::string::encode` on a `Vec<u8>`: the key of a
/// length-delimited field, the text's byte length as a varint and the text's
/// UTF-8 bytes are appended, in that order. Field numbers outside the
/// protobuf range are left out, since `prost` asserts the range in debug builds.
#[verifier::external_body]
pub(crate) fn put_string(tag: u32, value: &String, buf: &mut Vec<u8>)
    requires
        MIN_TAG <= tag <= MAX_TAG,
    ensures
        final(buf)@ == old(buf)@ + string_field(tag, value@),
{
    prost::encoding::string::encode(tag, value, buf);
}

/// Calls `prost::encoding::string::encoded_len`: the sum of the lengths of
/// the key, of the length prefix and of the text's bytes, which is the number
/// of bytes that `prost::encoding::string::encode` writes.
#[verifier::external_body]
pub(crate) fn string_len(tag: u32, value: &String) -> (n: usize)
    requires
        MIN_TAG <= tag <= MAX_TAG,
    ensures
        n == string_field(tag, value@).len(),
{
    prost::encoding::string::encoded_len(tag, value)
}

/// Calls `prost::encoding::decode_key` on a slice: it reads one varint of at
/// most ten bytes, rejects a key above 32 bits, a wire type above five and
/// field number zero, and leaves the slice after the key.
#[verifier::external_body]
pub(crate) fn take_key<'a>(buf: &'a [u8]) -> (r: Result<(u32, WireType, &'a [u8]), DecodeError>)
    ensures
        match r {
            Ok((tag, wire_type, rest)) => key_at(buf@) == Some(
                (tag, wire_type, (buf@.len() - rest@.len()) as nat),
            ) && rest@.len() <= buf@.len()
                && rest@ == buf@.skip(buf@.len() - rest@.len()),
            Err(_) => key_at(buf@) is None,
        },
{
    let mut rest = buf;
    let (tag, wire_type) = prost::encoding::decode_key(&mut rest)?;
    let wire_type = match wire_type {
        prost::encoding::WireType::Varint => WireType::Varint,
        prost::encoding::WireType::SixtyFourBit => WireType::SixtyFourBit,
        prost::encoding::WireType::LengthDelimited => WireType::LengthDelimited,
        prost::encoding::WireType::StartGroup => WireType::StartGroup,
        prost::encoding::WireType::EndGroup => WireType::EndGroup,
        prost::encoding::WireType::ThirtyTwoBit => WireType::ThirtyTwoBit,
    };
    Ok((tag, wire_type, rest))
}

/// Calls `prost::encoding::string::merge` for a length-delimited field on a
/// slice: it reads the length, fails where the length runs past the slice or
/// the bytes are not UTF-8, and otherwise hands out the text and the slice
/// after it.
#[verifier::external_body]
pub(crate) fn take_string<'a>(buf: &'a [u8]) -> (r: Result<(String, &'a [u8]), DecodeError>)
    ensures
        match r {
            Ok((text, rest)) => string_at(buf@) == Some((text@, (buf@.len() - rest@.len()) as nat))
                && rest@.len() <= buf@.len()
                && rest@ == buf@.skip(buf@.len() - rest@.len()),
            Err(_) => string_at(buf@) is None,
        },
{
    let mut rest = buf;
    let mut text = String::new();
    let wire_type = prost::encoding::WireType::LengthDelimited;
    prost::encoding::string::merge(wire_type, &mut text, &mut rest, DecodeContext::default())?;
    Ok((text, rest))
}

/// Calls `prost::encoding::skip_field` on a slice, with a fresh decode
/// context: a varint, four bytes, eight bytes or a length and that many bytes
/// are passed over; a group is passed over field by field up to its end,
/// groups inside it being followed as far as the recursion limit; a group end
/// on its own is an error, as is a payload that runs past the slice.
#[verifier::external_body]
pub(crate) fn skip_value<'a>(wire_type: WireType, tag: u32, buf: &'a [u8]) -> (r: Result<
    &'a [u8],
    DecodeError,
>)
    ensures
        match r {
            Ok(rest) => span_at(wire_type, tag, buf@) == Some((buf@.len() - rest@.len()) as nat)
                && rest@.len() <= buf@.len()
                && rest@ == buf@.skip(buf@.len() - rest@.len()),
            Err(_) => span_at(wire_type, tag, buf@) is None,
        },
{
    let mut rest = buf;
    let wire_type = match wire_type {
        WireType::Varint => prost::encoding::WireType::Varint,
        WireType::SixtyFourBit => prost::encoding::WireType::SixtyFourBit,
        WireType::LengthDelimited => prost::encoding::WireType::LengthDelimited,
        WireType::StartGroup => prost::encoding::WireType::StartGroup,
        WireType::EndGroup => prost::encoding::WireType::EndGroup,
        WireType::ThirtyTwoBit => prost::encoding::WireType::ThirtyTwoBit,
    };
    prost::encoding::skip_field(wire_type, tag, &mut rest, DecodeContext::default())?;
    Ok(rest)
}

} // verus!
