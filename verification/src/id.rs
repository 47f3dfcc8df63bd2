//! The identifier component of a record identifier.

use vstd::prelude::*;
use vstd::string::*;

verus! {

/// An identifier that is yet to be generated.
#[derive(Clone, Copy, Debug, PartialEq, Eq, PartialOrd, Ord, Hash, Structural)]
pub enum Gen {
    Rand,
    Ulid,
    Uuid,
}

/// The identifier component: a number, an exact text, a tuple of numbers,
/// or a deferred computation that yields one of these when the identifier
/// is resolved.
#[derive(Debug, Eq, Ord, Hash)]
pub enum Id {
    Number(i64),
    String(String),
    Array(Vec<i64>),
    Generate(Gen),
}

/// The mathematical value of an identifier component.
pub enum IdView {
    Number(int),
    String(Seq<char>),
    Array(Seq<i64>),
    Generate(Gen),
}

/// The character for a decimal digit.
pub open spec fn digit(d: nat) -> char
    recommends
        d < 10,
{
    (48 + d) as u8 as char
}

/// The decimal digits of `n`, most significant first.
pub open spec fn digits(n: nat) -> Seq<char>
    decreases n,
{
    if n < 10 {
        seq![digit(n)]
    } else {
        digits(n / 10).push(digit(n % 10))
    }
}

/// The decimal text of an integer, with a minus sign where it is negative.
pub open spec fn decimal(n: int) -> Seq<char> {
    if n < 0 {
        seq!['-'] + digits((-n) as nat)
    } else {
        digits(n as nat)
    }
}

/// The decimal texts of the numbers, with a comma and a space between them.
pub open spec fn joined(items: Seq<i64>) -> Seq<char>
    decreases items.len(),
{
    if items.len() == 0 {
        Seq::empty()
    } else if items.len() == 1 {
        decimal(items[0] as int)
    } else {
        decimal(items[0] as int) + seq![',', ' '] + joined(items.skip(1))
    }
}

/// The text of a tuple: its numbers, joined, between square brackets.
pub open spec fn array_text(items: Seq<i64>) -> Seq<char> {
    seq!['['] + joined(items) + seq![']']
}

/// Joining one number more adds a comma, a space and its decimal text.
pub proof fn lemma_joined_push(items: Seq<i64>)
    requires
        items.len() >= 2,
    ensures
        joined(items) == joined(items.drop_last()) + seq![',', ' '] + decimal(
            items.last() as int,
        ),
    decreases items.len(),
{
    let front = items.drop_last();
    let tail = items.skip(1);
    if items.len() == 2 {
        assert(tail.skip(1).len() == 0);
        assert(joined(tail) == decimal(items[1] as int));
        assert(joined(front) == decimal(items[0] as int));
    } else {
        lemma_joined_push(tail);
        assert(front.skip(1) =~= tail.drop_last());
        assert(joined(items) =~= joined(front) + seq![',', ' '] + decimal(items.last() as int));
    }
}

/// Decimal digits are digits, and there is at least one.
pub proof fn lemma_digits_are_digits(n: nat)
    ensures
        digits(n).len() >= 1,
        n >= 10 ==> digits(n).len() >= 2,
        forall|i: int| 0 <= i < digits(n).len() ==> '0' <= #[trigger] digits(n)[i] <= '9',
    decreases n,
{
    if n >= 10 {
        lemma_digits_are_digits(n / 10);
    }
}

/// Two numbers with the same digits are the same.
pub proof fn lemma_digits_injective(a: nat, b: nat)
    requires
        digits(a) == digits(b),
    ensures
        a == b,
    decreases a,
{
    lemma_digits_are_digits(a);
    lemma_digits_are_digits(b);
    if a < 10 {
        assert(digits(a)[0] == digit(a));
        assert(digits(b)[0] == digit(b));
    } else {
        assert(digits(a).last() == digit(a % 10));
        assert(digits(b).last() == digit(b % 10));
        assert(digits(a).drop_last() =~= digits(a / 10));
        assert(digits(b).drop_last() =~= digits(b / 10));
        lemma_digits_injective(a / 10, b / 10);
    }
}

/// Two integers with the same decimal text are the same.
pub proof fn lemma_decimal_injective(a: int, b: int)
    requires
        decimal(a) == decimal(b),
    ensures
        a == b,
{
    let na = if a < 0 { (-a) as nat } else { a as nat };
    let nb = if b < 0 { (-b) as nat } else { b as nat };
    lemma_digits_are_digits(na);
    lemma_digits_are_digits(nb);
    if a < 0 {
        assert(decimal(a)[0] == '-');
        assert(decimal(a).skip(1) =~= digits(na));
    }
    if b < 0 {
        assert(decimal(b)[0] == '-');
        assert(decimal(b).skip(1) =~= digits(nb));
    }
    if a >= 0 {
        assert(decimal(a)[0] == digits(na)[0]);
    }
    if b >= 0 {
        assert(decimal(b)[0] == digits(nb)[0]);
    }
    lemma_digits_injective(na, nb);
}

impl Gen {
    /// The text of a deferred identifier: the call that generates it.
    pub open spec fn text(self) -> Seq<char> {
        match self {
            Gen::Rand => "rand()"@,
            Gen::Ulid => "ulid()"@,
            Gen::Uuid => "uuid()"@,
        }
    }
}

impl IdView {
    /// The text of the component inside a record identifier's text form. An
    /// exact text stands as it is, so it may hold the separator.
    pub open spec fn text(self) -> Seq<char> {
        match self {
            IdView::Number(n) => decimal(n),
            IdView::String(s) => s,
            IdView::Array(items) => array_text(items),
            IdView::Generate(g) => g.text(),
        }
    }

    /// Whether nothing is left to compute.
    pub open spec fn is_concrete(self) -> bool {
        !(self is Generate)
    }
}

impl View for Id {
    type V = IdView;

    open spec fn view(&self) -> IdView {
        match self {
            Id::Number(n) => IdView::Number(*n as int),
            Id::String(s) => IdView::String(s@),
            Id::Array(items) => IdView::Array(items@),
            Id::Generate(g) => IdView::Generate(*g),
        }
    }
}

/// The digits in `low`, least significant first, as text, most significant
/// first.
pub open spec fn reversed_digits(low: Seq<u8>) -> Seq<char> {
    Seq::new(low.len(), |i: int| digit(low[low.len() - 1 - i] as nat))
}

/// The text of one decimal digit.
pub fn digit_str(d: u8) -> (s: &'static str)
    requires
        d < 10,
    ensures
        s@ == seq![digit(d as nat)],
{
    proof {
        reveal_strlit("0");
        reveal_strlit("1");
        reveal_strlit("2");
        reveal_strlit("3");
        reveal_strlit("4");
        reveal_strlit("5");
        reveal_strlit("6");
        reveal_strlit("7");
        reveal_strlit("8");
        reveal_strlit("9");
    }
    let s = if d == 0 {
        "0"
    } else if d == 1 {
        "1"
    } else if d == 2 {
        "2"
    } else if d == 3 {
        "3"
    } else if d == 4 {
        "4"
    } else if d == 5 {
        "5"
    } else if d == 6 {
        "6"
    } else if d == 7 {
        "7"
    } else if d == 8 {
        "8"
    } else {
        "9"
    };
    assert(s@ =~= seq![digit(d as nat)]);
    s
}

/// The decimal text of a number.
pub fn decimal_string(n: i64) -> (s: String)
    ensures
        s@ == decimal(n as int),
{
    let mut out = String::new();
    let magnitude: u64 = if n >= 0 {
        n as u64
    } else {
        out.append("-");
        (-(n + 1)) as u64 + 1
    };
    proof {
        reveal_strlit("-");
    }
    let ghost sign = out@;
    let mut low: Vec<u8> = Vec::new();
    let mut m: u64 = magnitude;
    proof {
        assert(digits(m as nat) + reversed_digits(low@) =~= digits(m as nat));
    }
    while m >= 10
        invariant
            forall|k: int| 0 <= k < low@.len() ==> low@[k] < 10,
            digits(magnitude as nat) == digits(m as nat) + reversed_digits(low@),
        decreases m,
    {
        let ghost before = low@;
        let d = (m % 10) as u8;
        low.push(d);
        proof {
            assert(reversed_digits(low@) =~= seq![digit(d as nat)] + reversed_digits(before));
            assert(digits(m as nat) =~= digits((m / 10) as nat) + seq![digit(d as nat)]);
            assert(digits(magnitude as nat) =~= digits((m / 10) as nat) + reversed_digits(low@));
        }
        m = m / 10;
    }
    out.append(digit_str(m as u8));
    let ghost rest = reversed_digits(low@);
    let mut k: usize = low.len();
    proof {
        assert(out@ =~= sign + digits(m as nat) + rest.take(0));
    }
    while k > 0
        invariant
            k <= low@.len(),
            forall|j: int| 0 <= j < low@.len() ==> low@[j] < 10,
            rest == reversed_digits(low@),
            out@ == sign + digits(m as nat) + rest.take(low@.len() - k),
        decreases k,
    {
        k -= 1;
        out.append(digit_str(low[k]));
        proof {
            let at = low@.len() - k - 1;
            assert(rest[at] == digit(low@[k as int] as nat));
            assert(rest.take(at + 1) =~= rest.take(at) + seq![rest[at]]);
            assert(out@ =~= sign + digits(m as nat) + rest.take(at + 1));
        }
    }
    proof {
        assert(rest.take(low@.len() as int) =~= rest);
        assert(out@ =~= sign + digits(magnitude as nat));
    }
    out
}

impl Clone for Id {
    fn clone(&self) -> (r: Id)
        ensures
            r@ == self@,
    {
        match self {
            Id::Number(n) => Id::Number(*n),
            Id::String(s) => Id::String(s.clone()),
            Id::Array(items) => {
                let mut copy: Vec<i64> = Vec::new();
                let mut i: usize = 0;
                while i < items.len()
                    invariant
                        i <= items@.len(),
                        copy@ == items@.take(i as int),
                    decreases items@.len() - i,
                {
                    copy.push(items[i]);
                    assert(copy@ =~= items@.take(i + 1));
                    i += 1;
                }
                assert(items@.take(i as int) =~= items@);
                Id::Array(copy)
            },
            Id::Generate(g) => Id::Generate(*g),
        }
    }
}

impl Default for Id {
    /// The empty exact text.
    fn default() -> (r: Id)
        ensures
            r@ == IdView::String(Seq::empty()),
    {
        Id::String(String::new())
    }
}

impl Id {
    /// The text of the component, as it stands in a record identifier's text form.
    pub fn to_raw(&self) -> (r: String)
        ensures
            r@ == self@.text(),
    {
        match self {
            Id::Number(n) => decimal_string(*n),
            Id::String(s) => s.clone(),
            Id::Array(items) => {
                let mut out = String::from_str("[");
                let mut i: usize = 0;
                proof {
                    reveal_strlit("[");
                    assert(out@ =~= seq!['['] + joined(items@.take(0)));
                }
                while i < items.len()
                    invariant
                        i <= items@.len(),
                        out@ == seq!['['] + joined(items@.take(i as int)),
                    decreases items@.len() - i,
                {
                    let ghost before = items@.take(i as int);
                    let ghost now = items@.take(i + 1);
                    if i > 0 {
                        out.append(", ");
                    }
                    let d = decimal_string(items[i]);
                    out.append(d.as_str());
                    proof {
                        reveal_strlit(", ");
                        assert(", "@ =~= seq![',', ' ']);
                        assert(now.drop_last() =~= before);
                        assert(now.last() == items@[i as int]);
                        if i > 0 {
                            lemma_joined_push(now);
                        }
                        assert(out@ =~= seq!['['] + joined(now));
                    }
                    i += 1;
                }
                out.append("]");
                proof {
                    reveal_strlit("]");
                    assert(items@.take(i as int) =~= items@);
                }
                out
            },
            Id::Generate(g) => match g {
                Gen::Rand => String::from_str("rand()"),
                Gen::Ulid => String::from_str("ulid()"),
                Gen::Uuid => String::from_str("uuid()"),
            },
        }
    }

    /// Whether nothing is left to compute.
    pub fn is_concrete(&self) -> (r: bool)
        ensures
            r == self@.is_concrete(),
    {
        match self {
            Id::Generate(_) => false,
            _ => true,
        }
    }
}

} // verus!
