//! What holds between a record identifier, its text form and its binary form.

use crate::escape::{escaped, is_plain, quoted, CLOSE, OPEN};
use crate::id::{
    decimal, digits, joined, lemma_decimal_injective, lemma_digits_are_digits, IdView,
};
use crate::syn::{
    array_of_text, comma_at, comma_index, id_of_text, is_number, items_of_text,
    lemma_unquoted_quoted, number_of, table_at, thing_of_text,
};
use crate::thing::{has_separator, split_index, splits_at, ThingView, FIELD, SEPARATOR};
use crate::wire::{
    key, key_at, lemma_key_round_trip, lemma_varint_at_bounds, lemma_varint_limit_ten,
    lemma_varint_round_trip, span_at, string_at, string_field, varint, DecodeFailure, WireType,
    MAX_TAG, MIN_TAG,
};
use vstd::prelude::*;
use vstd::utf8::*;

verus! {

/// A text whose table is plain is cut where the table ends.
pub proof fn lemma_text_splits(x: ThingView)
    requires
        is_plain(x.tb),
    ensures
        has_separator(x.text()),
        ThingView::of_text(x.text()) == (ThingView { tb: x.tb, id: IdView::String(x.id.text()) }),
{
    let text = x.text();
    let at = x.tb.len() as int;
    assert(escaped(x.tb) == x.tb);
    assert(text[at] == SEPARATOR);
    assert forall|j: int| 0 <= j < at implies text[j] != SEPARATOR by {
        assert(text[j] == x.tb[j]);
    }
    assert(splits_at(text, at));
    let i = split_index(text);
    assert(splits_at(text, i));
    assert(i == at) by {
        if i < at {
            assert(text[i] == x.tb[i]);
        }
    }
    assert(text.take(at) =~= x.tb);
    assert(text.skip(at + 1) =~= x.id.text());
}

/// A text field that was written reads as the text it was made of, and
/// takes exactly the bytes that follow its key.
pub proof fn lemma_string_round_trip(text: Seq<char>, rest: Seq<u8>)
    requires
        encode_utf8(text).len() <= u64::MAX,
    ensures
        string_at(varint(encode_utf8(text).len()) + encode_utf8(text) + rest) == Some(
            (text, varint(encode_utf8(text).len()).len() + encode_utf8(text).len()),
        ),
{
    let bytes = encode_utf8(text);
    let prefix = varint(bytes.len());
    let b = prefix + bytes + rest;
    lemma_varint_limit_ten();
    lemma_varint_round_trip(bytes.len(), 10, bytes + rest);
    assert(b =~= prefix + (bytes + rest));
    assert(b.subrange(prefix.len() as int, (prefix.len() + bytes.len()) as int) =~= bytes);
    encode_utf8_valid_utf8(text);
    encode_utf8_decode_utf8(text);
}

/// A text that holds a separator somewhere has a first one.
pub proof fn lemma_first_separator(text: Seq<char>, k: int)
    requires
        0 <= k < text.len(),
        text[k] == SEPARATOR,
    ensures
        has_separator(text),
    decreases k,
{
    if forall|j: int| 0 <= j < k ==> text[j] != SEPARATOR {
        assert(splits_at(text, k));
    } else {
        let j = choose|j: int| 0 <= j < k && text[j] == SEPARATOR;
        lemma_first_separator(text, j);
    }
}

/// The binary form is the text form and nothing more: what was encoded
/// decodes to what its text is cut into at the first separator, whatever
/// the table and the identifier were.
pub proof fn lemma_binary_is_text(x: ThingView)
    requires
        encode_utf8(x.text()).len() <= u64::MAX,
    ensures
        has_separator(x.text()),
        ThingView::empty().decoded(x.encoding()) == Ok::<ThingView, DecodeFailure>(
            ThingView::of_text(x.text()),
        ),
{
    let text = x.text();
    let bytes = encode_utf8(text);
    let k = key(FIELD, WireType::LengthDelimited);
    let payload = varint(bytes.len()) + bytes;
    let b = x.encoding();
    let start = ThingView::empty();
    assert(b =~= k + payload);
    lemma_key_round_trip(FIELD, WireType::LengthDelimited, payload);
    lemma_varint_at_bounds(b, 10);
    assert(b.skip(k.len() as int) =~= payload);
    lemma_string_round_trip(text, Seq::empty());
    assert(payload + Seq::<u8>::empty() =~= payload);
    assert(text[escaped(x.tb).len() as int] == SEPARATOR);
    lemma_first_separator(text, escaped(x.tb).len() as int);
    let next = ThingView::of_text(text);
    assert(start.merged(FIELD, WireType::LengthDelimited, payload) == Ok::<
        (ThingView, nat),
        DecodeFailure,
    >((next, payload.len())));
    assert(b.skip((k.len() + payload.len()) as int) =~= Seq::<u8>::empty());
    assert(next.decoded(Seq::<u8>::empty()) == Ok::<ThingView, DecodeFailure>(next));
}

/// Decoding what was encoded gives the table back and, as an exact text, the
/// identifier's text: the identifier's own variant is not kept. This holds
/// of every value whose table is plain; an escaped table comes back with its
/// brackets, since decoding does not undo the escaping.
pub proof fn lemma_binary_round_trip(x: ThingView)
    requires
        is_plain(x.tb),
        encode_utf8(x.text()).len() <= u64::MAX,
    ensures
        ThingView::empty().decoded(x.encoding()) == Ok::<ThingView, DecodeFailure>(
            ThingView { tb: x.tb, id: IdView::String(x.id.text()) },
        ),
        ThingView::empty().decoded(x.encoding()).unwrap().id.text() == x.id.text(),
{
    lemma_binary_is_text(x);
    lemma_text_splits(x);
}

/// A field with another number than the identifier's, standing in front, is
/// passed over: the buffer decodes as what follows that field does.
pub proof fn lemma_skip_unknown_field(
    start: ThingView,
    b: Seq<u8>,
    tag: u32,
    wire_type: WireType,
    n: nat,
    m: nat,
)
    requires
        key_at(b) == Some((tag, wire_type, n)),
        tag != FIELD,
        span_at(wire_type, tag, b.skip(n as int)) == Some(m),
    ensures
        start.decoded(b) == start.decoded(b.skip((n + m) as int)),
{
    lemma_varint_at_bounds(b, 10);
}

/// An unknown text field in front of a buffer changes nothing of what the
/// buffer decodes to.
pub proof fn lemma_skip_unknown_text(start: ThingView, tag: u32, text: Seq<char>, rest: Seq<u8>)
    requires
        MIN_TAG <= tag <= MAX_TAG,
        tag != FIELD,
        encode_utf8(text).len() <= u64::MAX,
    ensures
        start.decoded(string_field(tag, text) + rest) == start.decoded(rest),
{
    let bytes = encode_utf8(text);
    let k = key(tag, WireType::LengthDelimited);
    let payload = varint(bytes.len()) + bytes;
    let b = string_field(tag, text) + rest;
    assert(b =~= k + (payload + rest));
    lemma_key_round_trip(tag, WireType::LengthDelimited, payload + rest);
    lemma_varint_at_bounds(b, 10);
    assert(b.skip(k.len() as int) =~= payload + rest);
    lemma_varint_limit_ten();
    lemma_varint_round_trip(bytes.len(), 10, bytes + rest);
    assert(payload + rest =~= varint(bytes.len()) + (bytes + rest));
    assert(span_at(WireType::LengthDelimited, tag, payload + rest) == Some(payload.len()));
    assert(b.skip((k.len() + payload.len()) as int) =~= rest);
    lemma_skip_unknown_field(start, b, tag, WireType::LengthDelimited, k.len(), payload.len());
}

/// Whether an identifier is the one that its own text reads as: a number of
/// 64 bits, a tuple, a generator, or an exact text that is not the text of
/// one of these.
pub open spec fn is_canonical(id: IdView) -> bool {
    match id {
        IdView::Number(n) => i64::MIN <= n <= i64::MAX,
        IdView::String(s) => id_of_text(s) == id,
        IdView::Array(_) => true,
        IdView::Generate(_) => true,
    }
}

/// A character of a decimal text: a digit or the minus sign.
pub open spec fn is_decimal_char(c: char) -> bool {
    '0' <= c <= '9' || c == '-'
}

/// A decimal text is not empty, is made of digits and at most a minus sign
/// in front, and reads as its number.
pub proof fn lemma_decimal_shape(n: i64)
    ensures
        decimal(n as int).len() > 0,
        forall|i: int| 0 <= i < decimal(n as int).len() ==> is_decimal_char(#[trigger] decimal(n as int)[i]),
        is_number(decimal(n as int)),
        number_of(decimal(n as int)) == n,
{
    let text = decimal(n as int);
    let m = if n < 0 { (-n) as nat } else { n as nat };
    lemma_digits_are_digits(m);
    assert forall|i: int| 0 <= i < text.len() implies is_decimal_char(#[trigger] text[i]) by {
        if n < 0 && i > 0 {
            assert(text[i] == digits(m)[i - 1]);
        }
    }
    lemma_decimal_injective(n as int, number_of(text) as int);
}

/// Joined numbers are made of digits, minus signs, commas and spaces, and
/// are not empty where there is a number.
pub proof fn lemma_joined_shape(items: Seq<i64>)
    ensures
        items.len() > 0 ==> joined(items).len() > 0,
        forall|i: int| 0 <= i < joined(items).len() ==> {
            let c = #[trigger] joined(items)[i];
            is_decimal_char(c) || c == ',' || c == ' '
        },
    decreases items.len(),
{
    if items.len() > 0 {
        lemma_decimal_shape(items[0]);
        if items.len() > 1 {
            lemma_joined_shape(items.skip(1));
            let d = decimal(items[0] as int);
            let rest = joined(items.skip(1));
            assert forall|i: int| 0 <= i < joined(items).len() implies {
                let c = #[trigger] joined(items)[i];
                is_decimal_char(c) || c == ',' || c == ' '
            } by {
                if i < d.len() {
                    assert(joined(items)[i] == d[i]);
                } else if i >= d.len() + 2 {
                    assert(joined(items)[i] == rest[i - d.len() - 2]);
                }
            }
        }
    }
}

/// The inside of a tuple reads as its numbers.
pub proof fn lemma_items_round_trip(items: Seq<i64>)
    requires
        items.len() > 0,
    ensures
        items_of_text(joined(items)) == Some(items),
    decreases items.len(),
{
    let d = decimal(items[0] as int);
    let text = joined(items);
    lemma_decimal_shape(items[0]);
    if items.len() == 1 {
        assert forall|i: int| !comma_at(text, i) by {
            if 0 <= i < text.len() {
                assert(is_decimal_char(text[i]));
            }
        }
        assert(seq![items[0]] =~= items);
    } else {
        let tail = items.skip(1);
        let rest = joined(tail);
        let at = d.len() as int;
        lemma_items_round_trip(tail);
        assert(text[at] == ',');
        assert forall|j: int| 0 <= j < at implies text[j] != ',' by {
            assert(text[j] == d[j]);
            assert(is_decimal_char(d[j]));
        }
        assert(comma_at(text, at));
        let i = comma_index(text);
        assert(comma_at(text, i));
        assert(i == at);
        assert(text.take(at) =~= d);
        assert(text[at + 1] == ' ');
        assert(text.skip(at + 2) =~= rest);
        assert(seq![items[0]] + tail =~= items);
    }
}

/// The text of a number, a tuple or a generator is not empty and holds no
/// separator, and the text of a tuple or a generator is not that of a number.
pub proof fn lemma_id_text_shape(id: IdView)
    requires
        !(id is String),
    ensures
        id.text().len() > 0,
        !has_separator(id.text()),
        !(id is Number) ==> !is_number(id.text()),
{
    reveal_strlit("rand()");
    reveal_strlit("ulid()");
    reveal_strlit("uuid()");
    let text = id.text();
    match id {
        IdView::Number(n) => {
            let m = if n < 0 { (-n) as nat } else { n as nat };
            lemma_digits_are_digits(m);
            assert forall|i: int| 0 <= i < text.len() implies text[i] != SEPARATOR by {
                if n < 0 && i > 0 {
                    assert(text[i] == digits(m)[i - 1]);
                }
            }
        },
        IdView::Array(items) => {
            lemma_joined_shape(items);
            let inner = joined(items);
            assert forall|i: int| 0 <= i < text.len() implies text[i] != SEPARATOR by {
                if 0 < i < text.len() - 1 {
                    assert(text[i] == inner[i - 1]);
                }
            }
            assert forall|n: i64| decimal(n as int) != text by {
                lemma_decimal_shape(n);
                assert(is_decimal_char(decimal(n as int)[0]));
            }
        },
        _ => {
            assert forall|n: i64| decimal(n as int) != text by {
                lemma_decimal_shape(n);
                assert(is_decimal_char(decimal(n as int)[0]));
            }
        },
    }
}

/// An identifier that is canonical is what its text reads as.
pub proof fn lemma_id_round_trip(id: IdView)
    requires
        is_canonical(id),
    ensures
        id_of_text(id.text()) == id,
{
    reveal_strlit("rand()");
    reveal_strlit("ulid()");
    reveal_strlit("uuid()");
    match id {
        IdView::Number(n) => {
            assert(decimal(n as i64 as int) == id.text());
            lemma_decimal_injective(n, number_of(id.text()) as int);
        },
        IdView::String(_) => {},
        IdView::Array(items) => {
            lemma_id_text_shape(id);
            let text = id.text();
            let inner = joined(items);
            assert(text[0] == '[');
            assert(text.last() == ']');
            assert(text.subrange(1, text.len() - 1) =~= inner);
            if items.len() > 0 {
                lemma_joined_shape(items);
                lemma_items_round_trip(items);
            } else {
                assert(items =~= Seq::<i64>::empty());
            }
        },
        IdView::Generate(g) => {
            lemma_id_text_shape(id);
            assert(array_of_text(id.text()) is None);
            assert("ulid()"@[0] != "rand()"@[0]);
            assert("uuid()"@[0] != "rand()"@[0]);
            assert("uuid()"@[1] != "ulid()"@[1]);
        },
    }
}

/// In front of a rendered text stands its table when the table is plain.
pub proof fn lemma_plain_table_round_trip(tb: Seq<char>, tail: Seq<char>)
    requires
        tb.len() > 0,
        is_plain(tb),
    ensures
        table_at(tb + seq![SEPARATOR] + tail) == Some((tb, tb.len() + 1)),
        (tb + seq![SEPARATOR] + tail).skip((tb.len() + 1) as int) == tail,
{
    let text = tb + seq![SEPARATOR] + tail;
    let at = tb.len() as int;
    assert(text[at] == SEPARATOR);
    assert forall|j: int| 0 <= j < at implies text[j] != SEPARATOR by {
        assert(text[j] == tb[j]);
    }
    assert(splits_at(text, at));
    let i = split_index(text);
    assert(splits_at(text, i));
    assert(i == at);
    assert(text[0] == tb[0]);
    assert(text[0] != OPEN);
    assert(text.take(at) =~= tb);
    assert(text.skip(at + 1) =~= tail);
}

/// In front of a rendered text stands its table when the table is escaped.
pub proof fn lemma_escaped_table_round_trip(tb: Seq<char>, tail: Seq<char>)
    requires
        tb.len() > 0,
    ensures
        table_at(seq![OPEN] + quoted(tb) + seq![CLOSE] + seq![SEPARATOR] + tail) == Some(
            (tb, quoted(tb).len() + 3),
        ),
        (seq![OPEN] + quoted(tb) + seq![CLOSE] + seq![SEPARATOR] + tail).skip(
            (quoted(tb).len() + 3) as int,
        ) == tail,
{
    let q = quoted(tb);
    let text = seq![OPEN] + q + seq![CLOSE] + seq![SEPARATOR] + tail;
    let after = seq![SEPARATOR] + tail;
    assert(text[0] == OPEN);
    assert(text.skip(1) =~= q + seq![CLOSE] + after);
    lemma_unquoted_quoted(tb, after);
    assert(text[(q.len() + 2) as int] == SEPARATOR);
    assert(text.skip((q.len() + 3) as int) =~= tail);
}

/// Parsing what was rendered gives the value back. This holds of every
/// value with a table that is not empty and a canonical identifier whose
/// text is not empty and holds no separator.
pub proof fn lemma_text_round_trip(x: ThingView)
    requires
        x.tb.len() > 0,
        is_canonical(x.id),
        x.id.text().len() > 0,
        !has_separator(x.id.text()),
    ensures
        thing_of_text(x.text()) == Some(x),
{
    let tail = x.id.text();
    lemma_id_round_trip(x.id);
    if is_plain(x.tb) {
        lemma_plain_table_round_trip(x.tb, tail);
    } else {
        lemma_escaped_table_round_trip(x.tb, tail);
        assert(x.text() =~= seq![OPEN] + quoted(x.tb) + seq![CLOSE] + seq![SEPARATOR] + tail);
    }
}

} // verus!
