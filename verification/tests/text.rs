use record_id::escape::{escape_rid, plain, word_char};
use record_id::id::{decimal_string, digit_str, Gen, Id};
use record_id::order::Order;
use record_id::thing::Thing;
use record_id::value::{Step, Value};

#[test]
fn renders_table_separator_identifier() {
    let t = Thing::new("person", Id::String("tobie".to_string()));
    assert_eq!(t.to_raw(), "person:tobie");
}

#[test]
fn renders_numbers_in_decimal() {
    assert_eq!(Id::Number(0).to_raw(), "0");
    assert_eq!(Id::Number(7).to_raw(), "7");
    assert_eq!(Id::Number(-42).to_raw(), "-42");
    assert_eq!(Id::Number(1234567890).to_raw(), "1234567890");
    assert_eq!(Id::Number(i64::MAX).to_raw(), "9223372036854775807");
    assert_eq!(Id::Number(i64::MIN).to_raw(), "-9223372036854775808");
    assert_eq!(Thing::new("t", Id::Number(100)).to_raw(), "t:100");
}

#[test]
fn decimal_text_of_numbers() {
    for n in [0i64, 1, 9, 10, 11, 99, 100, 101, 1000, -1, -9, -10, -100, 4096, i64::MAX, i64::MIN, i64::MIN + 1] {
        assert_eq!(decimal_string(n), n.to_string());
    }
    let digits: Vec<&str> = (0u8..10).map(digit_str).collect();
    assert_eq!(digits, vec!["0", "1", "2", "3", "4", "5", "6", "7", "8", "9"]);
}

#[test]
fn renders_generators_as_calls() {
    assert_eq!(Id::Generate(Gen::Rand).to_raw(), "rand()");
    assert_eq!(Id::Generate(Gen::Ulid).to_raw(), "ulid()");
    assert_eq!(Id::Generate(Gen::Uuid).to_raw(), "uuid()");
}

#[test]
fn renders_tuples_between_square_brackets() {
    assert_eq!(Id::Array(vec![]).to_raw(), "[]");
    assert_eq!(Id::Array(vec![7]).to_raw(), "[7]");
    assert_eq!(Id::Array(vec![1, -2, 30]).to_raw(), "[1, -2, 30]");
    assert_eq!(
        Thing::new("reading", Id::Array(vec![2024, 10, i64::MIN])).to_raw(),
        "reading:[2024, 10, -9223372036854775808]"
    );
}

#[test]
fn exact_text_stands_as_it_is() {
    assert_eq!(Id::String("a b:c".to_string()).to_raw(), "a b:c");
    assert_eq!(Thing::new("t", Id::String("x:y".to_string())).to_raw(), "t:x:y");
}

#[test]
fn placeholder_renders_as_a_lone_separator() {
    assert_eq!(Thing::default().to_raw(), ":");
}

#[test]
fn plain_names_are_not_escaped() {
    assert_eq!(escape_rid("person"), "person");
    assert_eq!(escape_rid("Person_2"), "Person_2");
    assert_eq!(escape_rid("007"), "007");
    assert_eq!(escape_rid(""), "");
}

#[test]
fn other_names_go_between_brackets() {
    assert_eq!(escape_rid("a b"), "\u{27e8}a b\u{27e9}");
    assert_eq!(escape_rid("a:b"), "\u{27e8}a:b\u{27e9}");
    assert_eq!(escape_rid("caf\u{e9}"), "\u{27e8}caf\u{e9}\u{27e9}");
    assert_eq!(escape_rid("a-b"), "\u{27e8}a-b\u{27e9}");
}

#[test]
fn closing_bracket_and_backslash_get_a_backslash() {
    assert_eq!(escape_rid("a\u{27e9}b"), "\u{27e8}a\\\u{27e9}b\u{27e9}");
    assert_eq!(escape_rid("\u{27e9}"), "\u{27e8}\\\u{27e9}\u{27e9}");
    assert_eq!(escape_rid("\u{27e8}"), "\u{27e8}\u{27e8}\u{27e9}");
    assert_eq!(escape_rid("\\"), "\u{27e8}\\\\\u{27e9}");
    assert_eq!(escape_rid("a\\b"), "\u{27e8}a\\\\b\u{27e9}");
    assert_eq!(escape_rid("a b\\"), "\u{27e8}a b\\\\\u{27e9}");
    assert_eq!(escape_rid("\\\u{27e9}"), "\u{27e8}\\\\\\\u{27e9}\u{27e9}");
    assert_eq!(
        Thing::new("a\u{27e9}", Id::Number(1)).to_raw(),
        "\u{27e8}a\\\u{27e9}\u{27e9}:1"
    );
}

#[test]
fn word_characters() {
    for c in ['a', 'z', 'A', 'Z', '0', '9', '_', 'm', 'Q', '5'] {
        assert!(word_char(c));
    }
    for c in [':', ' ', '-', '`', '{', '@', '[', '/', '\u{e9}', '\u{27e8}', '\u{27e9}', '\\'] {
        assert!(!word_char(c));
    }
    assert!(plain("abc_09"));
    assert!(plain(""));
    assert!(!plain("a:b"));
}

#[test]
fn from_pairs() {
    let a = Thing::from(("person".to_string(), Id::Number(3)));
    assert_eq!(a.tb, "person");
    assert_eq!(a.id, Id::Number(3));
    let b = Thing::from(("person".to_string(), "tobie".to_string()));
    assert_eq!(b, Thing::new("person", Id::String("tobie".to_string())));
    assert_eq!(Thing::of_strs("person", "tobie"), b);
    assert_eq!(Thing::from(("person", "tobie")), b);
    assert_eq!(Thing::from(("person", Id::Number(3))), a);
}

#[test]
fn clone_keeps_the_value() {
    let t = Thing::new("person", Id::Generate(Gen::Uuid));
    assert_eq!(t.clone(), t);
    assert_eq!(Id::Number(5).clone(), Id::Number(5));
    assert_eq!(Id::Array(vec![3, 1, 2]).clone(), Id::Array(vec![3, 1, 2]));
}

fn samples() -> Vec<Thing> {
    vec![
        Thing::default(),
        Thing::new("a", Id::Number(-1)),
        Thing::new("a", Id::Number(2)),
        Thing::new("a", Id::String("".to_string())),
        Thing::new("a", Id::String("10".to_string())),
        Thing::new("a", Id::String("9".to_string())),
        Thing::new("a", Id::String("9a".to_string())),
        Thing::new("a", Id::Array(vec![])),
        Thing::new("a", Id::Array(vec![1])),
        Thing::new("a", Id::Array(vec![1, -5])),
        Thing::new("a", Id::Array(vec![1, 2])),
        Thing::new("a", Id::Array(vec![2])),
        Thing::new("a", Id::Generate(Gen::Rand)),
        Thing::new("a", Id::Generate(Gen::Uuid)),
        Thing::new("ab", Id::Number(0)),
        Thing::new("b", Id::Number(0)),
        Thing::new("caf\u{e9}", Id::Number(0)),
        Thing::new("caf\u{1f600}", Id::Number(0)),
        Thing::new("cafz", Id::Number(0)),
    ]
}

#[test]
fn compare_orders_by_table_then_identifier() {
    let a = Thing::new("a", Id::Number(2));
    assert_eq!(a.compare(&Thing::new("b", Id::Number(1))), Order::Less);
    assert_eq!(a.compare(&Thing::new("a", Id::Number(3))), Order::Less);
    assert_eq!(a.compare(&Thing::new("a", Id::Number(2))), Order::Equal);
    assert_eq!(a.compare(&Thing::new("a", Id::Number(1))), Order::Greater);
    assert_eq!(a.compare(&Thing::new("a", Id::String("0".to_string()))), Order::Less);
    assert_eq!(a.compare(&Thing::new("", Id::Generate(Gen::Rand))), Order::Greater);
    let tuple = Thing::new("a", Id::Array(vec![1, 2]));
    assert_eq!(tuple.compare(&Thing::new("a", Id::String("z".to_string()))), Order::Greater);
    assert_eq!(tuple.compare(&Thing::new("a", Id::Generate(Gen::Rand))), Order::Less);
    assert_eq!(tuple.compare(&Thing::new("a", Id::Array(vec![1, 2, 0]))), Order::Less);
    assert_eq!(tuple.compare(&Thing::new("a", Id::Array(vec![1, 1, 9]))), Order::Greater);
    assert_eq!(Thing::new("ab", Id::Number(0)).compare(&Thing::new("a", Id::Number(9))), Order::Greater);
}

#[test]
fn compare_agrees_with_the_operators() {
    let all = samples();
    for x in &all {
        for y in &all {
            let expected = match x.cmp(y) {
                std::cmp::Ordering::Less => Order::Less,
                std::cmp::Ordering::Equal => Order::Equal,
                std::cmp::Ordering::Greater => Order::Greater,
            };
            assert_eq!(x.compare(y), expected);
            assert_eq!(x.compare(y) == Order::Equal, x == y);
        }
    }
}

#[test]
fn exactly_one_of_less_equal_greater() {
    let all = samples();
    for x in &all {
        for y in &all {
            let n = [x < y, x == y, x > y].iter().filter(|b| **b).count();
            assert_eq!(n, 1);
            let m = [
                x.compare(y) == Order::Less,
                x.compare(y) == Order::Equal,
                y.compare(x) == Order::Less,
            ];
            assert_eq!(m.iter().filter(|b| **b).count(), 1);
        }
    }
}

#[test]
fn order_is_transitive() {
    let all = samples();
    for x in &all {
        for y in &all {
            for z in &all {
                if x.compare(y) == Order::Less && y.compare(z) == Order::Less {
                    assert_eq!(x.compare(z), Order::Less);
                }
            }
        }
    }
}

#[test]
fn a_concrete_identifier_resolves_to_itself() {
    let t = Thing::new("person", Id::String("tobie".to_string()));
    assert_eq!(t.compute(), Step::Done(Value::Thing(t.clone())));
    let n = Thing::new("person", Id::Number(4));
    assert_eq!(n.compute(), Step::Done(Value::Thing(n.clone())));
    assert_eq!(n.computed::<()>(Ok(n.id.clone())), Ok(Value::Thing(n.clone())));
}

#[test]
fn a_deferred_identifier_asks_for_its_generator() {
    let t = Thing::new("person", Id::Generate(Gen::Ulid));
    assert_eq!(t.compute(), Step::Evaluate(Gen::Ulid));
    assert!(!t.id.is_concrete());
    assert!(Id::Number(1).is_concrete());
    assert!(Id::Array(vec![1]).is_concrete());
    assert!(Id::String(String::new()).is_concrete());
}

#[test]
fn computed_carries_the_table_and_takes_the_outcome() {
    let t = Thing::new("person", Id::Generate(Gen::Rand));
    let got = t.computed::<String>(Ok(Id::String("k3x".to_string())));
    assert_eq!(got, Ok(Value::Thing(Thing::new("person", Id::String("k3x".to_string())))));
}

#[test]
fn computed_hands_a_failure_on_unchanged() {
    let t = Thing::new("person", Id::Generate(Gen::Rand));
    assert_eq!(t.computed(Err("no entropy".to_string())), Err("no entropy".to_string()));
    assert_eq!(t.computed(Err(17u8)), Err(17u8));
}
