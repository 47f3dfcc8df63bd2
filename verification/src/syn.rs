//! The grammar of the text form: a table, plain or between brackets, the
//! separator, and an identifier that holds no separator.

use crate::escape::{is_plain, plain, quoted, quoted_char, CLOSE, ESCAPE, OPEN};
use crate::id::{
    decimal, decimal_string, digit, digits, lemma_decimal_injective, lemma_digits_are_digits, Gen,
    Id, IdView,
};
use crate::thing::{has_separator, split_index, split_text, Thing, ThingView, SEPARATOR};
use vstd::prelude::*;
use vstd::std_specs::convert::TryFromSpecImpl;
use vstd::string::*;

verus! {

/// Reads the inside of a bracketed name from the front of `s`, up to the
/// first closing bracket that is not escaped: the name, and the number of
/// characters taken, that bracket included. A backslash before a closing
/// bracket or before another backslash escapes it and is left out; before
/// anything else it stands for itself.
pub open spec fn unquoted(s: Seq<char>) -> Option<(Seq<char>, nat)>
    decreases s.len(),
{
    if s.len() == 0 {
        None
    } else if s[0] == CLOSE {
        Some((Seq::empty(), 1nat))
    } else if s[0] == ESCAPE && s.len() >= 2 && (s[1] == CLOSE || s[1] == ESCAPE) {
        match unquoted(s.skip(2)) {
            Some((t, n)) => Some((seq![s[1]] + t, n + 2)),
            None => None,
        }
    } else {
        match unquoted(s.skip(1)) {
            Some((t, n)) => Some((seq![s[0]] + t, n + 1)),
            None => None,
        }
    }
}

/// Reads the table and the separator from the front of `s`: the table, and
/// the number of characters taken. A table is not empty.
pub open spec fn table_at(s: Seq<char>) -> Option<(Seq<char>, nat)> {
    if s.len() > 0 && s[0] == OPEN {
        match unquoted(s.skip(1)) {
            Some((tb, n)) => if tb.len() > 0 && n + 1 < s.len() && s[(n + 1) as int] == SEPARATOR {
                Some((tb, n + 2))
            } else {
                None
            },
            None => None,
        }
    } else if has_separator(s) && split_index(s) > 0 && is_plain(s.take(split_index(s))) {
        Some((s.take(split_index(s)), (split_index(s) + 1) as nat))
    } else {
        None
    }
}

/// Whether `text` is the decimal text of a 64-bit number.
pub open spec fn is_number(text: Seq<char>) -> bool {
    exists|n: i64| decimal(n as int) == text
}

/// The number whose decimal text `text` is.
pub open spec fn number_of(text: Seq<char>) -> i64 {
    choose|n: i64| decimal(n as int) == text
}

/// Whether the first comma of `s` stands at index `i`.
pub open spec fn comma_at(s: Seq<char>, i: int) -> bool {
    &&& 0 <= i < s.len()
    &&& s[i] == ','
    &&& forall|j: int| 0 <= j < i ==> s[j] != ','
}

/// Whether `s` holds a comma.
pub open spec fn has_comma(s: Seq<char>) -> bool {
    exists|i: int| comma_at(s, i)
}

/// The index of the first comma of `s`.
pub open spec fn comma_index(s: Seq<char>) -> int {
    choose|i: int| comma_at(s, i)
}

/// Reads the inside of a tuple: decimal texts of 64-bit numbers with a
/// comma and a space between them, at least one.
pub open spec fn items_of_text(inner: Seq<char>) -> Option<Seq<i64>>
    decreases inner.len(),
{
    if has_comma(inner) {
        let i = comma_index(inner);
        let head = inner.take(i);
        if is_number(head) && i + 1 < inner.len() && inner[i + 1] == ' ' {
            match items_of_text(inner.skip(i + 2)) {
                Some(rest) => Some(seq![number_of(head)] + rest),
                None => None,
            }
        } else {
            None
        }
    } else if is_number(inner) {
        Some(seq![number_of(inner)])
    } else {
        None
    }
}

/// Reads a tuple: square brackets around nothing or around its numbers.
pub open spec fn array_of_text(text: Seq<char>) -> Option<Seq<i64>> {
    if text.len() >= 2 && text[0] == '[' && text.last() == ']' {
        if text.len() == 2 {
            Some(Seq::empty())
        } else {
            items_of_text(text.subrange(1, text.len() - 1))
        }
    } else {
        None
    }
}

/// What an identifier's text stands for: a number where it is the decimal
/// text of one, a tuple where it is the text of one, a generator where it is
/// the call of one, else itself.
pub open spec fn id_of_text(text: Seq<char>) -> IdView {
    if is_number(text) {
        IdView::Number(number_of(text) as int)
    } else if array_of_text(text) is Some {
        IdView::Array(array_of_text(text).unwrap())
    } else if text == Gen::Rand.text() {
        IdView::Generate(Gen::Rand)
    } else if text == Gen::Ulid.text() {
        IdView::Generate(Gen::Ulid)
    } else if text == Gen::Uuid.text() {
        IdView::Generate(Gen::Uuid)
    } else {
        IdView::String(text)
    }
}

/// What a text stands for under the grammar, or `None` where it does not
/// match: a table with its separator, then an identifier that is not empty
/// and holds no separator.
pub open spec fn thing_of_text(s: Seq<char>) -> Option<ThingView> {
    match table_at(s) {
        Some((tb, n)) => if n < s.len() && !has_separator(s.skip(n as int)) {
            Some(ThingView { tb, id: id_of_text(s.skip(n as int)) })
        } else {
            None
        },
        None => None,
    }
}

/// Reads the inside of a bracketed name that starts at index `from` of `s`:
/// the name and the index after its closing bracket.
pub fn unquote(s: &str, from: usize) -> (r: Option<(String, usize)>)
    requires
        from <= s@.len(),
    ensures
        match unquoted(s@.skip(from as int)) {
            Some((t, n)) => r matches Some((name, next)) && name@ == t && next == from + n
                && next <= s@.len(),
            None => r is None,
        },
{
    let len = s.unicode_len();
    let ghost body = s@.skip(from as int);
    let mut out = String::new();
    let mut i: usize = from;
    proof {
        assert(body.skip(0) =~= body);
    }
    while i < len
        invariant
            len == s@.len(),
            from <= i <= len,
            body == s@.skip(from as int),
            match unquoted(body.skip(i - from)) {
                Some((t, n)) => unquoted(body) == Some((out@ + t, (n + i - from) as nat)),
                None => unquoted(body) is None,
            },
        decreases len - i,
    {
        let ghost here = body.skip(i - from);
        let ghost before = out@;
        let c = s.get_char(i);
        proof {
            assert(here[0] == c);
            assert(here.skip(1) =~= body.skip(i + 1 - from));
        }
        if c == CLOSE {
            proof {
                assert(before + Seq::<char>::empty() =~= before);
            }
            return Some((out, i + 1));
        }
        let escaping = if c == ESCAPE && i + 1 < len {
            let d = s.get_char(i + 1);
            d == CLOSE || d == ESCAPE
        } else {
            false
        };
        proof {
            if here.len() >= 2 {
                assert(here[1] == s@[i + 1]);
            }
        }
        if escaping {
            out.append(s.substring_char(i + 1, i + 2));
            proof {
                let d = here[1];
                assert(s@.subrange(i + 1, i + 2) =~= seq![d]);
                assert(here.skip(2) =~= body.skip(i + 2 - from));
                assert(out@ =~= before + seq![d]);
                if let Some((t, n)) = unquoted(here.skip(2)) {
                    assert(before + (seq![d] + t) =~= out@ + t);
                }
            }
            i += 2;
        } else {
            out.append(s.substring_char(i, i + 1));
            proof {
                assert(s@.subrange(i as int, i + 1) =~= seq![c]);
                assert(out@ =~= before + seq![c]);
                if let Some((t, n)) = unquoted(here.skip(1)) {
                    assert(before + (seq![c] + t) =~= out@ + t);
                }
            }
            i += 1;
        }
    }
    None
}

/// The number that a digit stands for.
pub open spec fn digit_value(c: char) -> nat {
    (c as u32 - 48) as nat
}

/// The number that a text of digits stands for.
pub open spec fn value_of(t: Seq<char>) -> nat
    decreases t.len(),
{
    if t.len() == 0 {
        0
    } else {
        value_of(t.drop_last()) * 10 + digit_value(t.last())
    }
}

/// The magnitude of a number.
pub open spec fn magnitude(n: int) -> nat {
    if n < 0 {
        (-n) as nat
    } else {
        n as nat
    }
}

/// A digit's character stands for the digit.
pub proof fn lemma_digit_value(d: nat)
    requires
        d < 10,
    ensures
        digit_value(digit(d)) == d,
{
    let b = (48 + d) as u8;
    assert(b as char as u32 == b as u32);
}

/// The digits of a number stand for that number.
pub proof fn lemma_value_of_digits(m: nat)
    ensures
        value_of(digits(m)) == m,
    decreases m,
{
    let t = digits(m);
    if m >= 10 {
        lemma_value_of_digits(m / 10);
        lemma_digit_value(m % 10);
        assert(t.drop_last() =~= digits(m / 10));
        assert(t.last() == digit(m % 10));
        assert(value_of(t) == value_of(t.drop_last()) * 10 + digit_value(t.last()));
    } else {
        lemma_digit_value(m);
        assert(t.len() == 1);
        assert(t.drop_last() =~= Seq::<char>::empty());
        assert(t.last() == digit(m));
        assert(value_of(t.drop_last()) == 0);
        assert(value_of(t) == value_of(t.drop_last()) * 10 + digit_value(t.last()));
    }
}

/// The start of a text of digits stands for no more than the whole.
pub proof fn lemma_value_of_prefix(t: Seq<char>, k: int)
    requires
        0 <= k <= t.len(),
    ensures
        value_of(t.take(k)) <= value_of(t),
    decreases t.len(),
{
    if k < t.len() {
        lemma_value_of_prefix(t.drop_last(), k);
        assert(t.drop_last().take(k) =~= t.take(k));
    } else {
        assert(t.take(k) =~= t);
    }
}

/// The shape of a decimal text: a minus sign exactly where the number is
/// negative, then the digits of its magnitude.
pub proof fn lemma_decimal_parts(n: i64)
    ensures
        decimal(n as int).len() >= 1,
        (decimal(n as int)[0] == '-') == (n < 0),
        n < 0 ==> decimal(n as int).skip(1) == digits(magnitude(n as int)),
        n >= 0 ==> decimal(n as int) == digits(magnitude(n as int)),
        forall|i: int|
            0 <= i < digits(magnitude(n as int)).len() ==> '0' <= #[trigger] digits(
                magnitude(n as int),
            )[i] <= '9',
        value_of(digits(magnitude(n as int))) == magnitude(n as int),
{
    let m = magnitude(n as int);
    lemma_digits_are_digits(m);
    lemma_value_of_digits(m);
    if n < 0 {
        assert(decimal(n as int).skip(1) =~= digits(m));
    } else {
        assert(decimal(n as int)[0] == digits(m)[0]);
    }
}

/// Reads a number from its decimal text: a minus sign or none, then digits
/// without a needless zero in front, within 64 bits.
pub fn number(text: &str) -> (r: Option<i64>)
    ensures
        match r {
            Some(n) => is_number(text@) && number_of(text@) == n && decimal(n as int) == text@,
            None => !is_number(text@),
        },
{
    let len = text.unicode_len();
    proof {
        if is_number(text@) {
            lemma_decimal_parts(number_of(text@));
        }
    }
    if len == 0 {
        return None;
    }
    let negative = text.get_char(0) == '-';
    let start: usize = if negative {
        1
    } else {
        0
    };
    if start >= len {
        proof {
            if is_number(text@) {
                lemma_digits_are_digits(magnitude(number_of(text@) as int));
            }
        }
        return None;
    }
    let ghost part = text@.skip(start as int);
    proof {
        if is_number(text@) {
            assert(part =~= digits(magnitude(number_of(text@) as int)));
        }
    }
    let mut acc: u64 = 0;
    let mut i: usize = start;
    proof {
        assert(part.take(0) =~= Seq::<char>::empty());
    }
    while i < len
        invariant
            len == text@.len(),
            start <= i <= len,
            part == text@.skip(start as int),
            acc == value_of(part.take(i - start)),
            acc <= 9223372036854775808,
            is_number(text@) ==> part == digits(magnitude(number_of(text@) as int)),
            is_number(text@) ==> value_of(part) <= 9223372036854775808,
        decreases len - i,
    {
        let c = text.get_char(i);
        proof {
            assert(part[i - start] == c);
            assert(part.take(i + 1 - start).drop_last() =~= part.take(i - start));
            assert(part.take(i + 1 - start).last() == c);
            lemma_value_of_prefix(part, i + 1 - start);
            if is_number(text@) {
                lemma_decimal_parts(number_of(text@));
            }
        }
        if !('0' <= c && c <= '9') {
            return None;
        }
        let d: u64 = (c as u32 - 48) as u64;
        if acc > (9223372036854775808 - d) / 10 {
            return None;
        }
        acc = acc * 10 + d;
        i += 1;
    }
    proof {
        assert(part.take(len - start) =~= part);
    }
    let n: i64 = if negative {
        if acc == 9223372036854775808 {
            i64::MIN
        } else {
            -(acc as i64)
        }
    } else {
        if acc == 9223372036854775808 {
            return None;
        }
        acc as i64
    };
    let back = decimal_string(n);
    if back == String::from_str(text) {
        proof {
            lemma_decimal_injective(n as int, number_of(text@) as int);
        }
        Some(n)
    } else {
        None
    }
}

/// The index of the first comma of `s` at or after `from`, or the length of
/// `s` where there is none.
pub fn find_comma(s: &str, from: usize) -> (r: usize)
    requires
        from <= s@.len(),
    ensures
        from <= r <= s@.len(),
        forall|j: int| from <= j < r ==> s@[j] != ',',
        r < s@.len() ==> s@[r as int] == ',',
{
    let len = s.unicode_len();
    let mut i: usize = from;
    while i < len
        invariant
            len == s@.len(),
            from <= i <= len,
            forall|j: int| from <= j < i ==> s@[j] != ',',
        decreases len - i,
    {
        if s.get_char(i) == ',' {
            return i;
        }
        i += 1;
    }
    len
}

/// Reads the inside of a tuple.
pub fn items(inner: &str) -> (r: Option<Vec<i64>>)
    ensures
        match items_of_text(inner@) {
            Some(v) => r matches Some(w) && w@ == v,
            None => r is None,
        },
{
    let len = inner.unicode_len();
    let mut out: Vec<i64> = Vec::new();
    let mut from: usize = 0;
    proof {
        assert(inner@.skip(0) =~= inner@);
    }
    loop
        invariant
            len == inner@.len(),
            from <= len,
            match items_of_text(inner@.skip(from as int)) {
                Some(t) => items_of_text(inner@) == Some(out@ + t),
                None => items_of_text(inner@) is None,
            },
        decreases len - from,
    {
        let ghost here = inner@.skip(from as int);
        let ghost before = out@;
        let at = find_comma(inner, from);
        let head = inner.substring_char(from, at);
        proof {
            assert(head@ =~= here.take(at - from));
            if at < len {
                assert(comma_at(here, at - from));
                let i = comma_index(here);
                assert(comma_at(here, i));
                assert(i == at - from);
            } else {
                assert(head@ =~= here);
                assert forall|i: int| !comma_at(here, i) by {
                    if 0 <= i < here.len() {
                        assert(here[i] == inner@[from + i]);
                    }
                }
            }
        }
        let n = match number(head) {
            Some(n) => n,
            None => {
                return None;
            },
        };
        if at == len {
            out.push(n);
            proof {
                assert(out@ =~= before + seq![n]);
            }
            return Some(out);
        }
        if at + 1 >= len || inner.get_char(at + 1) != ' ' {
            return None;
        }
        out.push(n);
        proof {
            assert(here[at - from + 1] == ' ');
            assert(here.skip(at - from + 2) =~= inner@.skip(at + 2));
            if let Some(t) = items_of_text(inner@.skip(at + 2)) {
                assert(before + (seq![n] + t) =~= out@ + t);
            }
        }
        from = at + 2;
    }
}

/// Reads a tuple from its text.
pub fn array(text: &str) -> (r: Option<Vec<i64>>)
    ensures
        match array_of_text(text@) {
            Some(v) => r matches Some(w) && w@ == v,
            None => r is None,
        },
{
    let len = text.unicode_len();
    if len < 2 || text.get_char(0) != '[' || text.get_char(len - 1) != ']' {
        return None;
    }
    if len == 2 {
        return Some(Vec::new());
    }
    items(text.substring_char(1, len - 1))
}

/// Reads an identifier from its text.
pub fn id(text: &str) -> (r: Id)
    ensures
        r@ == id_of_text(text@),
{
    match number(text) {
        Some(n) => {
            return Id::Number(n);
        },
        None => {},
    }
    match array(text) {
        Some(v) => {
            return Id::Array(v);
        },
        None => {},
    }
    let owned = String::from_str(text);
    if owned == String::from_str("rand()") {
        Id::Generate(Gen::Rand)
    } else if owned == String::from_str("ulid()") {
        Id::Generate(Gen::Ulid)
    } else if owned == String::from_str("uuid()") {
        Id::Generate(Gen::Uuid)
    } else {
        Id::String(owned)
    }
}

/// Reads a record identifier from its text form.
pub fn thing(v: &str) -> (r: Result<Thing, ()>)
    ensures
        match thing_of_text(v@) {
            Some(x) => r matches Ok(t) && t@ == x,
            None => r is Err,
        },
{
    let len = v.unicode_len();
    let tb: String;
    let next: usize;
    if len > 0 && v.get_char(0) == OPEN {
        match unquote(v, 1) {
            Some((name, after)) => {
                if name.as_str().unicode_len() == 0 || after >= len || v.get_char(after)
                    != SEPARATOR {
                    return Err(());
                }
                tb = name;
                next = after + 1;
            },
            None => {
                return Err(());
            },
        }
    } else {
        match split_text(v) {
            Some((left, _)) => {
                let at = left.as_str().unicode_len();
                if at == 0 || !plain(left.as_str()) {
                    return Err(());
                }
                tb = left;
                next = at + 1;
            },
            None => {
                return Err(());
            },
        }
    }
    if next >= len {
        return Err(());
    }
    let rest = v.substring_char(next, len);
    assert(rest@ =~= v@.skip(next as int));
    match split_text(rest) {
        Some(_) => Err(()),
        None => Ok(Thing { tb, id: id(rest) }),
    }
}

impl core::str::FromStr for Thing {
    type Err = ();

    /// Reads a record identifier from its text form: `Ok` exactly where the
    /// text matches the grammar, with the value that it stands for.
    fn from_str(s: &str) -> (r: Result<Thing, ()>)
        ensures
            match thing_of_text(s@) {
                Some(x) => r matches Ok(t) && t@ == x,
                None => r is Err,
            },
    {
        thing(s)
    }
}

impl TryFrom<&str> for Thing {
    type Error = ();

    /// Reads a record identifier from its text form: `Ok` exactly where the
    /// text matches the grammar, with the value that it stands for.
    fn try_from(v: &str) -> (r: Result<Thing, ()>)
        ensures
            match thing_of_text(v@) {
                Some(x) => r matches Ok(t) && t@ == x,
                None => r is Err,
            },
    {
        thing(v)
    }
}

/// The trait's own contract asks for one given value, text buffers
/// included, which a parser cannot promise: the contract stands on
/// `try_from` itself, over views.
impl TryFromSpecImpl<&str> for Thing {
    open spec fn obeys_try_from_spec() -> bool {
        false
    }

    open spec fn try_from_spec(v: &str) -> Result<Thing, ()> {
        Err(())
    }
}

impl TryFromSpecImpl<String> for Thing {
    open spec fn obeys_try_from_spec() -> bool {
        false
    }

    open spec fn try_from_spec(v: String) -> Result<Thing, ()> {
        Err(())
    }
}

impl TryFrom<String> for Thing {
    type Error = ();

    /// Reads a record identifier from its text form: `Ok` exactly where the
    /// text matches the grammar, with the value that it stands for.
    fn try_from(v: String) -> (r: Result<Thing, ()>)
        ensures
            match thing_of_text(v@) {
                Some(x) => r matches Ok(t) && t@ == x,
                None => r is Err,
            },
    {
        thing(v.as_str())
    }
}

/// The quoting of a name starts with the quoting of its first character.
pub proof fn lemma_quoted_front(t: Seq<char>)
    requires
        t.len() > 0,
    ensures
        quoted(t) == quoted_char(t[0]) + quoted(t.skip(1)),
    decreases t.len(),
{
    if t.len() == 1 {
        assert(t.drop_last() =~= Seq::<char>::empty());
        assert(t.skip(1) =~= Seq::<char>::empty());
        assert(quoted(t) =~= quoted_char(t[0]) + quoted(t.skip(1)));
    } else {
        lemma_quoted_front(t.drop_last());
        assert(t.skip(1).drop_last() =~= t.drop_last().skip(1));
        assert(quoted(t) =~= quoted_char(t[0]) + quoted(t.skip(1)));
    }
}

/// Reading undoes quoting: a quoted name with its closing bracket reads as
/// the name, whatever the name holds and whatever follows.
pub proof fn lemma_unquoted_quoted(t: Seq<char>, rest: Seq<char>)
    ensures
        unquoted(quoted(t) + seq![CLOSE] + rest) == Some((t, quoted(t).len() + 1)),
    decreases t.len(),
{
    let s = quoted(t) + seq![CLOSE] + rest;
    if t.len() == 0 {
        assert(s[0] == CLOSE);
    } else {
        let c = t[0];
        let tail = t.skip(1);
        let after = quoted(tail) + seq![CLOSE] + rest;
        lemma_quoted_front(t);
        lemma_unquoted_quoted(tail, rest);
        if c == CLOSE || c == ESCAPE {
            assert(s =~= seq![ESCAPE, c] + after);
            assert(s[0] == ESCAPE);
            assert(s[1] == c);
            assert(s.skip(2) =~= after);
        } else {
            assert(s =~= seq![c] + after);
            assert(s[0] == c);
            assert(s.skip(1) =~= after);
        }
        assert(seq![c] + tail =~= t);
    }
}

} // verus!
