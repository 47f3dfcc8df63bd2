//! The total order of record identifiers: by table, then by identifier.
//! Texts are ordered by their UTF-8 bytes, as `String` orders them.

use crate::id::{Gen, Id, IdView};
use crate::thing::{Thing, ThingView};
use core::cmp::Ordering;
use vstd::prelude::*;
use vstd::std_specs::cmp::{PartialEqSpecImpl, PartialOrdSpecImpl};
use vstd::utf8::*;

verus! {

/// How one value stands to another.
#[derive(Clone, Copy, Debug, PartialEq, Eq, Structural)]
pub enum Order {
    Less,
    Equal,
    Greater,
}

impl Order {
    /// The same relation read from the other side.
    pub open spec fn flip(self) -> Order {
        match self {
            Order::Less => Order::Greater,
            Order::Equal => Order::Equal,
            Order::Greater => Order::Less,
        }
    }
}

/// The order of two integers.
pub open spec fn int_order(a: int, b: int) -> Order {
    if a < b {
        Order::Less
    } else if a == b {
        Order::Equal
    } else {
        Order::Greater
    }
}

/// The lexicographic order of two byte strings: the first byte that differs
/// decides, and a proper prefix comes first.
pub open spec fn bytes_order(a: Seq<u8>, b: Seq<u8>) -> Order
    decreases a.len(),
{
    if a.len() == 0 {
        if b.len() == 0 {
            Order::Equal
        } else {
            Order::Less
        }
    } else if b.len() == 0 {
        Order::Greater
    } else if a[0] != b[0] {
        int_order(a[0] as int, b[0] as int)
    } else {
        bytes_order(a.skip(1), b.skip(1))
    }
}

/// The lexicographic order of two tuples of numbers.
pub open spec fn numbers_order(a: Seq<i64>, b: Seq<i64>) -> Order
    decreases a.len(),
{
    if a.len() == 0 {
        if b.len() == 0 {
            Order::Equal
        } else {
            Order::Less
        }
    } else if b.len() == 0 {
        Order::Greater
    } else if a[0] != b[0] {
        int_order(a[0] as int, b[0] as int)
    } else {
        numbers_order(a.skip(1), b.skip(1))
    }
}

/// The order of two texts: that of their UTF-8 bytes.
pub open spec fn text_order(a: Seq<char>, b: Seq<char>) -> Order {
    bytes_order(encode_utf8(a), encode_utf8(b))
}

impl Gen {
    /// The place of a generator among the generators.
    pub open spec fn rank(self) -> int {
        match self {
            Gen::Rand => 0,
            Gen::Ulid => 1,
            Gen::Uuid => 2,
        }
    }
}

impl IdView {
    /// The place of a variant among the variants: numbers first, then exact
    /// texts, then tuples, then deferred identifiers.
    pub open spec fn rank(self) -> int {
        match self {
            IdView::Number(_) => 0,
            IdView::String(_) => 1,
            IdView::Array(_) => 2,
            IdView::Generate(_) => 3,
        }
    }

    /// The order of two identifier components: by variant, then by content.
    pub open spec fn order(self, other: IdView) -> Order {
        match (self, other) {
            (IdView::Number(a), IdView::Number(b)) => int_order(a, b),
            (IdView::String(a), IdView::String(b)) => text_order(a, b),
            (IdView::Array(a), IdView::Array(b)) => numbers_order(a, b),
            (IdView::Generate(a), IdView::Generate(b)) => int_order(a.rank(), b.rank()),
            _ => int_order(self.rank(), other.rank()),
        }
    }
}

impl ThingView {
    /// The order of two record identifiers: by table, then by identifier.
    pub open spec fn order(self, other: ThingView) -> Order {
        match text_order(self.tb, other.tb) {
            Order::Equal => self.id.order(other.id),
            o => o,
        }
    }
}

/// Two byte strings are equal in the order exactly when they are the same.
pub proof fn lemma_bytes_order_equal(a: Seq<u8>, b: Seq<u8>)
    ensures
        bytes_order(a, b) == Order::Equal <==> a == b,
    decreases a.len(),
{
    if a.len() != 0 && b.len() != 0 {
        if a[0] == b[0] {
            lemma_bytes_order_equal(a.skip(1), b.skip(1));
            if a.skip(1) == b.skip(1) {
                assert(a =~= seq![a[0]] + a.skip(1));
                assert(b =~= seq![b[0]] + b.skip(1));
            }
        }
    } else if a.len() == 0 && b.len() == 0 {
        assert(a =~= b);
    }
}

/// Read from the other side, the order of two byte strings is the opposite.
pub proof fn lemma_bytes_order_flip(a: Seq<u8>, b: Seq<u8>)
    ensures
        bytes_order(b, a) == bytes_order(a, b).flip(),
    decreases a.len(),
{
    if a.len() != 0 && b.len() != 0 && a[0] == b[0] {
        lemma_bytes_order_flip(a.skip(1), b.skip(1));
    }
}

/// The order of byte strings is transitive.
pub proof fn lemma_bytes_order_transitive(a: Seq<u8>, b: Seq<u8>, c: Seq<u8>)
    requires
        bytes_order(a, b) == Order::Less,
        bytes_order(b, c) == Order::Less,
    ensures
        bytes_order(a, c) == Order::Less,
    decreases a.len(),
{
    if a.len() != 0 && b.len() != 0 && c.len() != 0 && a[0] == b[0] && b[0] == c[0] {
        lemma_bytes_order_transitive(a.skip(1), b.skip(1), c.skip(1));
    }
}

/// Two tuples are equal in the order exactly when they are the same.
pub proof fn lemma_numbers_order_equal(a: Seq<i64>, b: Seq<i64>)
    ensures
        numbers_order(a, b) == Order::Equal <==> a == b,
    decreases a.len(),
{
    if a.len() != 0 && b.len() != 0 {
        if a[0] == b[0] {
            lemma_numbers_order_equal(a.skip(1), b.skip(1));
            if a.skip(1) == b.skip(1) {
                assert(a =~= seq![a[0]] + a.skip(1));
                assert(b =~= seq![b[0]] + b.skip(1));
            }
        }
    } else if a.len() == 0 && b.len() == 0 {
        assert(a =~= b);
    }
}

/// Read from the other side, the order of two tuples is the opposite.
pub proof fn lemma_numbers_order_flip(a: Seq<i64>, b: Seq<i64>)
    ensures
        numbers_order(b, a) == numbers_order(a, b).flip(),
    decreases a.len(),
{
    if a.len() != 0 && b.len() != 0 && a[0] == b[0] {
        lemma_numbers_order_flip(a.skip(1), b.skip(1));
    }
}

/// The order of tuples is transitive.
pub proof fn lemma_numbers_order_transitive(a: Seq<i64>, b: Seq<i64>, c: Seq<i64>)
    requires
        numbers_order(a, b) == Order::Less,
        numbers_order(b, c) == Order::Less,
    ensures
        numbers_order(a, c) == Order::Less,
    decreases a.len(),
{
    if a.len() != 0 && b.len() != 0 && c.len() != 0 && a[0] == b[0] && b[0] == c[0] {
        lemma_numbers_order_transitive(a.skip(1), b.skip(1), c.skip(1));
    }
}

/// Two texts are equal in the order exactly when they are the same.
pub proof fn lemma_text_order_equal(a: Seq<char>, b: Seq<char>)
    ensures
        text_order(a, b) == Order::Equal <==> a == b,
{
    lemma_bytes_order_equal(encode_utf8(a), encode_utf8(b));
    encode_utf8_decode_utf8(a);
    encode_utf8_decode_utf8(b);
}

/// Two identifier components are equal in the order exactly when they are
/// the same.
pub proof fn lemma_id_order_equal(a: IdView, b: IdView)
    ensures
        a.order(b) == Order::Equal <==> a == b,
{
    match (a, b) {
        (IdView::String(s), IdView::String(t)) => {
            lemma_text_order_equal(s, t);
        },
        (IdView::Array(s), IdView::Array(t)) => {
            lemma_numbers_order_equal(s, t);
        },
        _ => {},
    }
}

/// Read from the other side, the order of two components is the opposite.
pub proof fn lemma_id_order_flip(a: IdView, b: IdView)
    ensures
        b.order(a) == a.order(b).flip(),
{
    match (a, b) {
        (IdView::String(s), IdView::String(t)) => {
            lemma_bytes_order_flip(encode_utf8(s), encode_utf8(t));
        },
        (IdView::Array(s), IdView::Array(t)) => {
            lemma_numbers_order_flip(s, t);
        },
        _ => {},
    }
}

/// The order of identifier components is transitive.
pub proof fn lemma_id_order_transitive(a: IdView, b: IdView, c: IdView)
    requires
        a.order(b) == Order::Less,
        b.order(c) == Order::Less,
    ensures
        a.order(c) == Order::Less,
{
    match (a, b, c) {
        (IdView::String(s), IdView::String(t), IdView::String(u)) => {
            lemma_bytes_order_transitive(encode_utf8(s), encode_utf8(t), encode_utf8(u));
        },
        (IdView::Array(s), IdView::Array(t), IdView::Array(u)) => {
            lemma_numbers_order_transitive(s, t, u);
        },
        _ => {},
    }
}

/// Of two record identifiers exactly one holds: the first comes before the
/// second, they are the same value, or the second comes before the first.
pub proof fn lemma_order_total(x: ThingView, y: ThingView)
    ensures
        x.order(y) == Order::Equal <==> x == y,
        y.order(x) == x.order(y).flip(),
        x.order(y) == Order::Less || x == y || y.order(x) == Order::Less,
        !(x.order(y) == Order::Less && x == y),
        !(x.order(y) == Order::Less && y.order(x) == Order::Less),
        !(x == y && y.order(x) == Order::Less),
{
    lemma_text_order_equal(x.tb, y.tb);
    lemma_bytes_order_flip(encode_utf8(x.tb), encode_utf8(y.tb));
    lemma_id_order_equal(x.id, y.id);
    lemma_id_order_flip(x.id, y.id);
}

/// What comes before something that comes before a third comes before the
/// third.
pub proof fn lemma_order_transitive(x: ThingView, y: ThingView, z: ThingView)
    requires
        x.order(y) == Order::Less,
        y.order(z) == Order::Less,
    ensures
        x.order(z) == Order::Less,
{
    lemma_text_order_equal(x.tb, y.tb);
    lemma_text_order_equal(y.tb, z.tb);
    lemma_text_order_equal(x.tb, z.tb);
    let a = encode_utf8(x.tb);
    let b = encode_utf8(y.tb);
    let c = encode_utf8(z.tb);
    lemma_bytes_order_flip(a, b);
    lemma_bytes_order_flip(b, c);
    lemma_bytes_order_flip(a, c);
    if text_order(x.tb, y.tb) == Order::Less && text_order(y.tb, z.tb) == Order::Less {
        lemma_bytes_order_transitive(a, b, c);
    } else if text_order(x.tb, y.tb) == Order::Equal && text_order(y.tb, z.tb) == Order::Equal {
        lemma_id_order_transitive(x.id, y.id, z.id);
    }
}

/// Compares two integers.
pub fn compare_numbers(a: i64, b: i64) -> (r: Order)
    ensures
        r == int_order(a as int, b as int),
{
    if a < b {
        Order::Less
    } else if a == b {
        Order::Equal
    } else {
        Order::Greater
    }
}

/// Compares two byte strings.
pub fn compare_bytes(a: &[u8], b: &[u8]) -> (r: Order)
    ensures
        r == bytes_order(a@, b@),
{
    let mut i: usize = 0;
    proof {
        assert(a@.skip(0) =~= a@);
        assert(b@.skip(0) =~= b@);
    }
    while i < a.len() && i < b.len()
        invariant
            i <= a@.len(),
            i <= b@.len(),
            bytes_order(a@, b@) == bytes_order(a@.skip(i as int), b@.skip(i as int)),
        decreases a@.len() - i,
    {
        let x = a[i];
        let y = b[i];
        proof {
            assert(a@.skip(i as int)[0] == x);
            assert(b@.skip(i as int)[0] == y);
            assert(a@.skip(i as int).skip(1) =~= a@.skip(i + 1));
            assert(b@.skip(i as int).skip(1) =~= b@.skip(i + 1));
        }
        if x < y {
            return Order::Less;
        }
        if x > y {
            return Order::Greater;
        }
        i += 1;
    }
    if i < b.len() {
        Order::Less
    } else if i < a.len() {
        Order::Greater
    } else {
        Order::Equal
    }
}

/// Compares two tuples of numbers.
pub fn compare_tuples(a: &[i64], b: &[i64]) -> (r: Order)
    ensures
        r == numbers_order(a@, b@),
{
    let mut i: usize = 0;
    proof {
        assert(a@.skip(0) =~= a@);
        assert(b@.skip(0) =~= b@);
    }
    while i < a.len() && i < b.len()
        invariant
            i <= a@.len(),
            i <= b@.len(),
            numbers_order(a@, b@) == numbers_order(a@.skip(i as int), b@.skip(i as int)),
        decreases a@.len() - i,
    {
        let x = a[i];
        let y = b[i];
        proof {
            assert(a@.skip(i as int)[0] == x);
            assert(b@.skip(i as int)[0] == y);
            assert(a@.skip(i as int).skip(1) =~= a@.skip(i + 1));
            assert(b@.skip(i as int).skip(1) =~= b@.skip(i + 1));
        }
        if x < y {
            return Order::Less;
        }
        if x > y {
            return Order::Greater;
        }
        i += 1;
    }
    if i < b.len() {
        Order::Less
    } else if i < a.len() {
        Order::Greater
    } else {
        Order::Equal
    }
}

/// Compares two texts.
pub fn compare_texts(a: &str, b: &str) -> (r: Order)
    ensures
        r == text_order(a@, b@),
{
    compare_bytes(a.as_bytes(), b.as_bytes())
}

impl Gen {
    /// The place of a generator among the generators.
    pub fn place(self) -> (r: i64)
        ensures
            r == self.rank(),
    {
        match self {
            Gen::Rand => 0,
            Gen::Ulid => 1,
            Gen::Uuid => 2,
        }
    }
}

impl Id {
    /// The place of a variant among the variants.
    pub fn place(&self) -> (r: i64)
        ensures
            r == self@.rank(),
    {
        match self {
            Id::Number(_) => 0,
            Id::String(_) => 1,
            Id::Array(_) => 2,
            Id::Generate(_) => 3,
        }
    }

    /// Compares two identifier components: by variant, then by content.
    pub fn compare(&self, other: &Id) -> (r: Order)
        ensures
            r == self@.order(other@),
    {
        match (self, other) {
            (Id::Number(a), Id::Number(b)) => compare_numbers(*a, *b),
            (Id::String(a), Id::String(b)) => compare_texts(a.as_str(), b.as_str()),
            (Id::Array(a), Id::Array(b)) => compare_tuples(a.as_slice(), b.as_slice()),
            (Id::Generate(a), Id::Generate(b)) => compare_numbers(a.place(), b.place()),
            _ => compare_numbers(self.place(), other.place()),
        }
    }
}

impl Thing {
    /// Compares two record identifiers: by table, then by identifier.
    pub fn compare(&self, other: &Thing) -> (r: Order)
        ensures
            r == self@.order(other@),
    {
        match compare_texts(self.tb.as_str(), other.tb.as_str()) {
            Order::Equal => self.id.compare(&other.id),
            o => o,
        }
    }
}

impl Order {
    /// The same relation in std's own type.
    pub open spec fn ordering(self) -> Ordering {
        match self {
            Order::Less => Ordering::Less,
            Order::Equal => Ordering::Equal,
            Order::Greater => Ordering::Greater,
        }
    }

    /// The same relation in std's own type.
    pub fn to_ordering(self) -> (r: Ordering)
        ensures
            r == self.ordering(),
    {
        match self {
            Order::Less => Ordering::Less,
            Order::Equal => Ordering::Equal,
            Order::Greater => Ordering::Greater,
        }
    }
}

impl PartialEq for Id {
    fn eq(&self, other: &Id) -> (r: bool) {
        proof {
            lemma_id_order_equal(self@, other@);
        }
        self.compare(other) == Order::Equal
    }
}

impl PartialEqSpecImpl for Id {
    open spec fn obeys_eq_spec() -> bool {
        true
    }

    open spec fn eq_spec(&self, other: &Id) -> bool {
        self@ == other@
    }
}

impl PartialOrd for Id {
    fn partial_cmp(&self, other: &Id) -> (r: Option<Ordering>) {
        Some(self.compare(other).to_ordering())
    }
}

impl PartialOrdSpecImpl for Id {
    open spec fn obeys_partial_cmp_spec() -> bool {
        true
    }

    open spec fn partial_cmp_spec(&self, other: &Id) -> Option<Ordering> {
        Some(self@.order(other@).ordering())
    }
}

impl PartialEq for Thing {
    fn eq(&self, other: &Thing) -> (r: bool) {
        proof {
            lemma_order_total(self@, other@);
        }
        self.compare(other) == Order::Equal
    }
}

impl PartialEqSpecImpl for Thing {
    open spec fn obeys_eq_spec() -> bool {
        true
    }

    open spec fn eq_spec(&self, other: &Thing) -> bool {
        self@ == other@
    }
}

impl PartialOrd for Thing {
    fn partial_cmp(&self, other: &Thing) -> (r: Option<Ordering>) {
        Some(self.compare(other).to_ordering())
    }
}

impl PartialOrdSpecImpl for Thing {
    open spec fn obeys_partial_cmp_spec() -> bool {
        true
    }

    open spec fn partial_cmp_spec(&self, other: &Thing) -> Option<Ordering> {
        Some(self@.order(other@).ordering())
    }
}

} // verus!
