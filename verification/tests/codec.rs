use record_id::id::{Gen, Id};
use record_id::thing::{split_text, FieldStep, Thing, FIELD};
use record_id::wire::{DecodeFailure, WireType};

fn person() -> Thing {
    Thing::new("person", Id::String("tobie".to_string()))
}

#[test]
fn encodes_text_as_one_length_delimited_field() {
    let bytes = person().encode_to_vec();
    let mut expected = vec![10u8, 12u8];
    expected.extend_from_slice("person:tobie".as_bytes());
    assert_eq!(bytes, expected);
}

#[test]
fn encode_raw_appends_to_what_is_there() {
    let mut buf = vec![7u8, 7u8];
    person().encode_raw(&mut buf);
    assert_eq!(&buf[..4], &[7u8, 7u8, 10u8, 12u8]);
    assert_eq!(&buf[4..], "person:tobie".as_bytes());
}

#[test]
fn encode_then_decode_gives_table_and_exact_text() {
    let bytes = person().encode_to_vec();
    let back = Thing::decode(&bytes).unwrap();
    assert_eq!(back.tb, "person");
    assert_eq!(back.id, Id::String("tobie".to_string()));
}

#[test]
fn decode_flattens_a_number_to_text() {
    let bytes = Thing::new("person", Id::Number(42)).encode_to_vec();
    let back = Thing::decode(&bytes).unwrap();
    assert_eq!(back.tb, "person");
    assert_eq!(back.id, Id::String("42".to_string()));
    assert_eq!(back.id.to_raw(), Id::Number(42).to_raw());
}

#[test]
fn decode_flattens_a_generator_to_text() {
    let bytes = Thing::new("person", Id::Generate(Gen::Ulid)).encode_to_vec();
    let back = Thing::decode(&bytes).unwrap();
    assert_eq!(back.id, Id::String("ulid()".to_string()));
}

#[test]
fn decode_flattens_a_tuple_to_text() {
    let bytes = Thing::new("person", Id::Array(vec![1, 2])).encode_to_vec();
    let back = Thing::decode(&bytes).unwrap();
    assert_eq!(back.tb, "person");
    assert_eq!(back.id, Id::String("[1, 2]".to_string()));
}

#[test]
fn decode_cuts_at_the_first_separator_only() {
    let bytes = Thing::new("a", Id::String("b:c".to_string())).encode_to_vec();
    let back = Thing::decode(&bytes).unwrap();
    assert_eq!(back.tb, "a");
    assert_eq!(back.id, Id::String("b:c".to_string()));
}

#[test]
fn decode_keeps_the_brackets_of_an_escaped_table() {
    let bytes = Thing::new("a b", Id::Number(1)).encode_to_vec();
    let back = Thing::decode(&bytes).unwrap();
    assert_eq!(back.tb, "\u{27e8}a b\u{27e9}");
    assert_eq!(back.id, Id::String("1".to_string()));
}

#[test]
fn encoded_len_is_the_number_of_bytes_written() {
    let long = "x".repeat(300);
    let things = vec![
        person(),
        Thing::default(),
        Thing::new("t", Id::Number(i64::MIN)),
        Thing::new("t", Id::String(long)),
        Thing::new("caf\u{e9}", Id::String("\u{1f600}".to_string())),
    ];
    for t in things {
        assert_eq!(t.encoded_len(), t.encode_to_vec().len());
    }
}

#[test]
fn long_text_takes_a_two_byte_length() {
    let long = "x".repeat(300);
    let t = Thing::new("t", Id::String(long.clone()));
    let bytes = t.encode_to_vec();
    assert_eq!(bytes.len(), 1 + 2 + 302);
    assert_eq!(&bytes[..3], &[10u8, 0xae, 0x02]);
    let back = Thing::decode(&bytes).unwrap();
    assert_eq!(back.tb, "t");
    assert_eq!(back.id, Id::String(long));
}

#[test]
fn varint_wire_type_on_the_identifier_field_fails() {
    let bytes = person().encode_to_vec();
    let mut wrong = vec![8u8];
    wrong.extend_from_slice(&bytes[1..]);
    assert_eq!(Thing::decode(&wrong), Err(DecodeFailure::WireType));
    let mut t = Thing::default();
    assert_eq!(t.merge_field(FIELD, WireType::Varint, &bytes[1..]), Err(DecodeFailure::WireType));
    assert_eq!(t, Thing::default());
}

#[test]
fn every_other_wire_type_on_the_identifier_field_fails() {
    for w in [
        WireType::Varint,
        WireType::SixtyFourBit,
        WireType::StartGroup,
        WireType::EndGroup,
        WireType::ThirtyTwoBit,
    ] {
        let mut t = person();
        assert_eq!(t.merge_field(FIELD, w, &[0u8; 16]), Err(DecodeFailure::WireType));
        assert_eq!(t, person());
    }
}

#[test]
fn text_without_separator_fails() {
    let mut bytes = vec![10u8, 6u8];
    bytes.extend_from_slice("person".as_bytes());
    assert_eq!(Thing::decode(&bytes), Err(DecodeFailure::Separator));
}

#[test]
fn truncated_text_is_malformed() {
    let bytes = person().encode_to_vec();
    assert_eq!(Thing::decode(&bytes[..bytes.len() - 1]), Err(DecodeFailure::Malformed));
    assert_eq!(Thing::decode(&bytes[..1]), Err(DecodeFailure::Malformed));
}

#[test]
fn text_that_is_not_utf8_is_malformed() {
    let bytes = vec![10u8, 3u8, b'a', b':', 0xff];
    assert_eq!(Thing::decode(&bytes), Err(DecodeFailure::Malformed));
}

#[test]
fn bad_keys_are_malformed() {
    // field number zero
    assert_eq!(Thing::decode(&[2u8, 0u8]), Err(DecodeFailure::Malformed));
    // wire type six
    assert_eq!(Thing::decode(&[14u8, 0u8]), Err(DecodeFailure::Malformed));
    // a varint that never ends
    assert_eq!(Thing::decode(&[0x80u8; 11]), Err(DecodeFailure::Malformed));
    // a key above 32 bits
    assert_eq!(Thing::decode(&[0x8a, 0x80, 0x80, 0x80, 0x10, 0]), Err(DecodeFailure::Malformed));
}

#[test]
fn empty_buffer_decodes_to_the_placeholder() {
    assert_eq!(Thing::decode(&[]), Ok(Thing::default()));
}

#[test]
fn unknown_fields_in_front_are_skipped() {
    let bytes = person().encode_to_vec();
    let expected = Thing::decode(&bytes);
    let fronts: Vec<Vec<u8>> = vec![
        vec![16, 0x96, 0x01],                      // field 2, varint 150
        vec![18, 3, b'a', b':', b'c'],             // field 2, text
        vec![21, 1, 2, 3, 4],                      // field 2, 32 bits
        vec![17, 1, 2, 3, 4, 5, 6, 7, 8],          // field 2, 64 bits
        vec![19, 16, 5, 20],                       // field 2, a group holding a varint
        vec![0xfa, 0xff, 0xff, 0xff, 0x0f, 1, 0],  // the largest field number, text
    ];
    for front in fronts {
        let mut buf = front.clone();
        buf.extend_from_slice(&bytes);
        assert_eq!(Thing::decode(&buf), expected);
    }
}

fn nested_groups(depth: usize) -> Vec<u8> {
    let mut buf = vec![19u8; depth];
    buf.extend_from_slice(&vec![20u8; depth]);
    buf.extend_from_slice(&person().encode_to_vec());
    buf
}

#[test]
fn groups_are_followed_down_to_the_recursion_limit() {
    assert_eq!(Thing::decode(&nested_groups(1)), Ok(person()));
    assert_eq!(Thing::decode(&nested_groups(2)), Ok(person()));
    assert_eq!(Thing::decode(&nested_groups(100)), Ok(person()));
    assert_eq!(Thing::decode(&nested_groups(101)), Err(DecodeFailure::Malformed));
    // a field inside the hundredth group is one level too deep
    let mut buf = vec![19u8; 100];
    buf.extend_from_slice(&[16, 1]);
    buf.extend_from_slice(&vec![20u8; 100]);
    assert_eq!(Thing::decode(&buf), Err(DecodeFailure::Malformed));
    let mut buf = vec![19u8; 99];
    buf.extend_from_slice(&[16, 1]);
    buf.extend_from_slice(&vec![20u8; 99]);
    assert_eq!(Thing::decode(&buf), Ok(Thing::default()));
}

#[test]
fn a_group_holds_fields_of_every_kind() {
    let mut buf = vec![19u8];
    buf.extend_from_slice(&[8, 1]);
    buf.extend_from_slice(&[10, 2, b'a', b'b']);
    buf.extend_from_slice(&[29, 1, 2, 3, 4]);
    buf.extend_from_slice(&[27, 33, 0, 0, 0, 0, 0, 0, 0, 0, 28]);
    buf.push(20);
    buf.extend_from_slice(&person().encode_to_vec());
    assert_eq!(Thing::decode(&buf), Ok(person()));
}

#[test]
fn a_group_must_end_under_its_own_number() {
    assert_eq!(Thing::decode(&[19, 28]), Err(DecodeFailure::Malformed));
    assert_eq!(Thing::decode(&[19, 27, 20, 28]), Err(DecodeFailure::Malformed));
    assert_eq!(Thing::decode(&[19, 27, 28, 20]), Ok(Thing::default()));
    assert_eq!(Thing::decode(&[19]), Err(DecodeFailure::Malformed));
}

#[test]
fn unknown_field_after_the_identifier_is_skipped() {
    let mut buf = person().encode_to_vec();
    buf.extend_from_slice(&[16, 1]);
    assert_eq!(Thing::decode(&buf), Ok(person()));
}

#[test]
fn unknown_field_that_runs_past_the_buffer_is_malformed() {
    assert_eq!(Thing::decode(&[18, 5, b'a']), Err(DecodeFailure::Malformed));
    assert_eq!(Thing::decode(&[21, 1, 2]), Err(DecodeFailure::Malformed));
    assert_eq!(Thing::decode(&[20]), Err(DecodeFailure::Malformed));
    assert_eq!(Thing::decode(&[19, 16, 5]), Err(DecodeFailure::Malformed));
    assert_eq!(Thing::decode(&[19, 28]), Err(DecodeFailure::Malformed));
}

#[test]
fn merge_field_hands_back_what_follows() {
    let mut t = Thing::default();
    let payload = [3u8, b'a', b':', b'b', 99u8, 98u8];
    let rest = t.merge_field(FIELD, WireType::LengthDelimited, &payload).unwrap();
    assert_eq!(rest, &[99u8, 98u8]);
    assert_eq!(t, Thing::new("a", Id::String("b".to_string())));
    let rest = t.merge_field(7, WireType::Varint, &[0x96, 0x01, 5]).unwrap();
    assert_eq!(rest, &[5u8]);
    assert_eq!(t, Thing::new("a", Id::String("b".to_string())));
}

#[test]
fn the_last_identifier_field_wins() {
    let mut buf = person().encode_to_vec();
    buf.extend_from_slice(&Thing::new("pet", Id::Number(7)).encode_to_vec());
    assert_eq!(Thing::decode(&buf), Ok(Thing::new("pet", Id::String("7".to_string()))));
}

#[test]
fn merge_takes_nothing_over_on_an_error() {
    let mut buf = person().encode_to_vec();
    buf.push(8);
    let mut t = Thing::new("pet", Id::Number(1));
    assert_eq!(t.merge(&buf), Err(DecodeFailure::WireType));
    assert_eq!(t, Thing::new("pet", Id::Number(1)));
}

#[test]
fn merge_skips_and_replaces() {
    let mut t = Thing::new("pet", Id::Number(1));
    assert_eq!(t.merge(&[16, 1]), Ok(()));
    assert_eq!(t, Thing::new("pet", Id::Number(1)));
    assert_eq!(t.merge(&person().encode_to_vec()), Ok(()));
    assert_eq!(t, person());
}

#[test]
fn field_step_of_each_number_and_wire_type() {
    assert_eq!(Thing::field_step(FIELD, WireType::LengthDelimited), FieldStep::Text);
    for w in [
        WireType::Varint,
        WireType::SixtyFourBit,
        WireType::StartGroup,
        WireType::EndGroup,
        WireType::ThirtyTwoBit,
    ] {
        assert_eq!(Thing::field_step(FIELD, w), FieldStep::Reject);
        assert_eq!(Thing::field_step(2, w), FieldStep::Skip);
    }
    assert_eq!(Thing::field_step(0, WireType::LengthDelimited), FieldStep::Skip);
    assert_eq!(Thing::field_step(u32::MAX, WireType::LengthDelimited), FieldStep::Skip);
}

#[test]
fn merge_text_cuts_at_the_first_separator() {
    let mut t = person();
    assert_eq!(t.merge_text("a:b:c"), Ok(()));
    assert_eq!(t, Thing::of_strs("a", "b:c"));
    assert_eq!(t.merge_text("abc"), Err(DecodeFailure::Separator));
    assert_eq!(t, Thing::of_strs("a", "b:c"));
    assert_eq!(t.merge_text(":"), Ok(()));
    assert_eq!(t, Thing::of_strs("", ""));
}

#[test]
fn clear_resets_to_the_placeholder() {
    let mut t = person();
    t.clear();
    assert_eq!(t, Thing::default());
    assert_eq!(t.tb, "");
    assert_eq!(t.id, Id::String(String::new()));
}

#[test]
fn split_text_cuts_once() {
    assert_eq!(split_text("a:b:c"), Some(("a".to_string(), "b:c".to_string())));
    assert_eq!(split_text(":"), Some((String::new(), String::new())));
    assert_eq!(split_text("caf\u{e9}:\u{1f600}"), Some(("caf\u{e9}".to_string(), "\u{1f600}".to_string())));
    assert_eq!(split_text("abc"), None);
    assert_eq!(split_text(""), None);
}
