use record_id::id::{Gen, Id};
use record_id::syn::{array, find_comma, id, items, number, thing, unquote};
use record_id::thing::Thing;
use std::str::FromStr;

#[test]
fn parses_table_and_exact_text() {
    let t = thing("person:tobie").unwrap();
    assert_eq!(t.tb, "person");
    assert_eq!(t.id, Id::String("tobie".to_string()));
}

#[test]
fn text_without_separator_does_not_parse() {
    assert_eq!(thing("not a valid identifier"), Err(()));
    assert_eq!(Thing::try_from("not a valid identifier"), Err(()));
    assert_eq!(Thing::from_str("not a valid identifier"), Err(()));
    assert_eq!(Thing::try_from("not a valid identifier".to_string()), Err(()));
}

#[test]
fn trait_entry_points_parse_as_thing_does() {
    let expected = Thing::new("person", Id::String("tobie".to_string()));
    assert_eq!(Thing::try_from("person:tobie"), Ok(expected.clone()));
    assert_eq!(Thing::try_from("person:tobie".to_string()), Ok(expected.clone()));
    assert_eq!(Thing::from_str("person:tobie"), Ok(expected.clone()));
    assert_eq!("person:tobie".parse::<Thing>(), Ok(expected));
}

#[test]
fn rejects_what_the_grammar_does_not_hold() {
    for text in [
        "",
        ":",
        ":tobie",
        "person:",
        "person",
        "a:b:c",
        "a b:c",
        "a-b:c",
        "\u{27e8}\u{27e9}:x",
        "\u{27e8}a b:x",
        "\u{27e8}a b\u{27e9}x",
        "\u{27e8}a b\u{27e9}",
        "\u{27e8}a b\u{27e9}:",
        "\u{27e8}a\\\u{27e9}:x",
        "caf\u{e9}:x",
    ] {
        assert_eq!(thing(text), Err(()), "{:?}", text);
    }
}

#[test]
fn parses_numbers_and_generators() {
    assert_eq!(thing("t:42"), Ok(Thing::new("t", Id::Number(42))));
    assert_eq!(thing("t:-7"), Ok(Thing::new("t", Id::Number(-7))));
    assert_eq!(thing("t:0"), Ok(Thing::new("t", Id::Number(0))));
    assert_eq!(
        thing("t:-9223372036854775808"),
        Ok(Thing::new("t", Id::Number(i64::MIN)))
    );
    assert_eq!(thing("t:rand()"), Ok(Thing::new("t", Id::Generate(Gen::Rand))));
    assert_eq!(thing("t:ulid()"), Ok(Thing::new("t", Id::Generate(Gen::Ulid))));
    assert_eq!(thing("t:uuid()"), Ok(Thing::new("t", Id::Generate(Gen::Uuid))));
}

#[test]
fn parses_tuples() {
    assert_eq!(id("[]"), Id::Array(vec![]));
    assert_eq!(id("[7]"), Id::Array(vec![7]));
    assert_eq!(id("[1, -2, 30]"), Id::Array(vec![1, -2, 30]));
    assert_eq!(thing("reading:[2024, 10]"), Ok(Thing::new("reading", Id::Array(vec![2024, 10]))));
    assert_eq!(array("[1, 2]"), Some(vec![1, 2]));
    assert_eq!(array("1, 2"), None);
    assert_eq!(array("["), None);
    assert_eq!(items("1, 2, 3"), Some(vec![1, 2, 3]));
    assert_eq!(items("5"), Some(vec![5]));
    assert_eq!(items(""), None);
    assert_eq!(items("1,2"), None);
    assert_eq!(items("1, "), None);
    assert_eq!(items("1,"), None);
    assert_eq!(find_comma("ab,c,", 0), 2);
    assert_eq!(find_comma("ab,c,", 3), 4);
    assert_eq!(find_comma("abc", 1), 3);
    assert_eq!(number("-12"), Some(-12));
    assert_eq!(number("012"), None);
    assert_eq!(number("+12"), None);
    assert_eq!(number(""), None);
}

#[test]
fn texts_that_only_look_like_tuples_stay_texts() {
    for text in ["[1,2]", "[1, ]", "[ 1]", "[a]", "[01]", "[1, 2", "1, 2]", "[1,  2]", "[, 1]", "[+1]"] {
        assert_eq!(id(text), Id::String(text.to_string()), "{:?}", text);
    }
}

#[test]
fn texts_that_only_look_like_numbers_stay_texts() {
    for text in ["007", "+5", "-0", "9223372036854775808", "1e3", "-", "12a", "rand", "uuid( )"] {
        assert_eq!(id(text), Id::String(text.to_string()), "{:?}", text);
    }
    assert_eq!(id("12"), Id::Number(12));
    assert_eq!(id(""), Id::String(String::new()));
}

#[test]
fn parses_bracketed_tables() {
    assert_eq!(thing("\u{27e8}a b\u{27e9}:1"), Ok(Thing::new("a b", Id::Number(1))));
    assert_eq!(thing("\u{27e8}a:b\u{27e9}:x"), Ok(Thing::of_strs("a:b", "x")));
    assert_eq!(thing("\u{27e8}a\\\u{27e9}b\u{27e9}:x"), Ok(Thing::of_strs("a\u{27e9}b", "x")));
    assert_eq!(thing("\u{27e8}a\\b\u{27e9}:x"), Ok(Thing::of_strs("a\\b", "x")));
    assert_eq!(thing("\u{27e8}a\\\\b\u{27e9}:x"), Ok(Thing::of_strs("a\\b", "x")));
    assert_eq!(thing("\u{27e8}a \\\\\u{27e9}:x"), Ok(Thing::of_strs("a \\", "x")));
    assert_eq!(thing("\u{27e8}\\\\\\\u{27e9}\u{27e9}:x"), Ok(Thing::of_strs("\\\u{27e9}", "x")));
    assert_eq!(thing("\u{27e8}abc\u{27e9}:x"), Ok(Thing::of_strs("abc", "x")));
}

#[test]
fn unquote_reads_up_to_the_closing_bracket() {
    assert_eq!(unquote("\u{27e8}ab\u{27e9}:x", 1), Some(("ab".to_string(), 4)));
    assert_eq!(unquote("\u{27e9}", 0), Some((String::new(), 1)));
    assert_eq!(unquote("a\\\u{27e9}b\u{27e9}", 0), Some(("a\u{27e9}b".to_string(), 5)));
    assert_eq!(unquote("abc", 0), None);
    assert_eq!(unquote("abc", 3), None);
    assert_eq!(unquote("a\\\u{27e9}", 0), None);
    assert_eq!(unquote("a\\\\\u{27e9}", 0), Some(("a\\".to_string(), 4)));
    assert_eq!(unquote("\\x\u{27e9}", 0), Some(("\\x".to_string(), 3)));
    assert_eq!(unquote("\\", 0), None);
}

fn round_trips(t: Thing) {
    assert_eq!(thing(&t.to_raw()), Ok(t));
}

#[test]
fn parse_undoes_render() {
    round_trips(Thing::of_strs("person", "tobie"));
    round_trips(Thing::new("person", Id::Number(-12)));
    round_trips(Thing::new("person", Id::Generate(Gen::Uuid)));
    round_trips(Thing::new("person", Id::Array(vec![])));
    round_trips(Thing::new("person", Id::Array(vec![i64::MAX, 0, i64::MIN])));
    round_trips(Thing::new("a b", Id::Array(vec![4])));
    round_trips(Thing::of_strs("a b", "x y"));
    round_trips(Thing::of_strs("a:b", "x"));
    round_trips(Thing::of_strs("a\u{27e9}b\u{27e9}", "x"));
    round_trips(Thing::of_strs("\\\u{27e9}a", "\u{1f600}"));
    round_trips(Thing::of_strs("\u{27e8}", "x"));
    round_trips(Thing::of_strs("\\", "x"));
    round_trips(Thing::of_strs("a b\\", "x"));
    round_trips(Thing::of_strs("a\\\\b\\", "x"));
    round_trips(Thing::of_strs("\\\u{27e9}\\", "x"));
    round_trips(Thing::of_strs("a:b\\", "x"));
    round_trips(Thing::of_strs("007", "007"));
}

#[test]
fn parse_does_not_undo_render_outside_the_grammar() {
    // an identifier with a separator, an exact text that reads as a number
    // or as a tuple, an empty part
    let b = Thing::of_strs("a", "x:y");
    assert_eq!(thing(&b.to_raw()), Err(()));
    let c = Thing::of_strs("a", "12");
    assert_eq!(thing(&c.to_raw()), Ok(Thing::new("a", Id::Number(12))));
    let d = Thing::of_strs("a", "[1, 2]");
    assert_eq!(thing(&d.to_raw()), Ok(Thing::new("a", Id::Array(vec![1, 2]))));
    let e = Thing::of_strs("", "x");
    assert_eq!(thing(&e.to_raw()), Err(()));
    assert_eq!(thing(&Thing::default().to_raw()), Err(()));
}
