//! The record identifier, its text form and its binary form.

use crate::escape::{escape_rid, escaped};
use crate::id::{Id, IdView};
use crate::wire::{
    key_at, lemma_span_at_bounds, lemma_varint_at_bounds, put_string, skip_value, span_at,
    string_at, string_field, string_len, take_key, take_string, DecodeFailure, WireType,
};
use vstd::prelude::*;
use vstd::std_specs::convert::FromSpecImpl;
use vstd::string::*;

verus! {

/// The field number under which a record identifier travels.
pub const FIELD: u32 = 1;

/// The character between table and identifier.
pub const SEPARATOR: char = ':';

/// A record identifier: a table name and an identifier component.
#[derive(Debug, Eq, Ord, Hash)]
pub struct Thing {
    /// Table name
    pub tb: String,
    pub id: Id,
}

/// What a field asks of the reader, by its number and wire type.
#[derive(Clone, Copy, Debug, PartialEq, Eq, Structural)]
pub enum FieldStep {
    /// The identifier field: read its text and merge it.
    Text,
    /// Another field: pass over its payload.
    Skip,
    /// The identifier field with a wire type other than length-delimited.
    Reject,
}

/// The mathematical value of a record identifier.
pub struct ThingView {
    pub tb: Seq<char>,
    pub id: IdView,
}

impl View for Thing {
    type V = ThingView;

    open spec fn view(&self) -> ThingView {
        ThingView { tb: self.tb@, id: self.id@ }
    }
}

/// Whether the first separator of `text` stands at index `i`.
pub open spec fn splits_at(text: Seq<char>, i: int) -> bool {
    &&& 0 <= i < text.len()
    &&& text[i] == SEPARATOR
    &&& forall|j: int| 0 <= j < i ==> text[j] != SEPARATOR
}

/// Whether `text` holds a separator.
pub open spec fn has_separator(text: Seq<char>) -> bool {
    exists|i: int| splits_at(text, i)
}

/// The index of the first separator of `text`.
pub open spec fn split_index(text: Seq<char>) -> int {
    choose|i: int| splits_at(text, i)
}

impl ThingView {
    /// The placeholder value: an empty table and the default identifier.
    pub open spec fn empty() -> ThingView {
        ThingView { tb: Seq::empty(), id: IdView::String(Seq::empty()) }
    }

    /// The canonical text form: the escaped table, the separator, the
    /// identifier's text.
    pub open spec fn text(self) -> Seq<char> {
        escaped(self.tb) + seq![SEPARATOR] + self.id.text()
    }

    /// What a wire text stands for: the part before its first separator is
    /// the table, taken as it is, and all that follows is an exact-text identifier.
    pub open spec fn of_text(text: Seq<char>) -> ThingView
        recommends
            has_separator(text),
    {
        ThingView {
            tb: text.take(split_index(text)),
            id: IdView::String(text.skip(split_index(text) + 1)),
        }
    }

    /// The bytes of the binary form: one length-delimited field that holds
    /// the canonical text.
    pub open spec fn encoding(self) -> Seq<u8> {
        string_field(FIELD, self.text())
    }

    /// What a field with this number and wire type asks for.
    pub open spec fn step(tag: u32, wire_type: WireType) -> FieldStep {
        if tag != FIELD {
            FieldStep::Skip
        } else if wire_type == WireType::LengthDelimited {
            FieldStep::Text
        } else {
            FieldStep::Reject
        }
    }

    /// What the text of the identifier field stands for: it must hold a
    /// separator.
    pub open spec fn from_wire_text(text: Seq<char>) -> Result<ThingView, DecodeFailure> {
        if has_separator(text) {
            Ok(ThingView::of_text(text))
        } else {
            Err(DecodeFailure::Separator)
        }
    }

    /// The outcome of reading one field's payload from the front of `b`, the
    /// key already read: the value after it and the number of bytes taken.
    /// The identifier field replaces the value; any other field is passed over.
    pub open spec fn merged(self, tag: u32, wire_type: WireType, b: Seq<u8>) -> Result<
        (ThingView, nat),
        DecodeFailure,
    > {
        match ThingView::step(tag, wire_type) {
            FieldStep::Text => match string_at(b) {
                Some((text, n)) => match ThingView::from_wire_text(text) {
                    Ok(next) => Ok((next, n)),
                    Err(e) => Err(e),
                },
                None => Err(DecodeFailure::Malformed),
            },
            FieldStep::Skip => match span_at(wire_type, tag, b) {
                Some(n) => Ok((self, n)),
                None => Err(DecodeFailure::Malformed),
            },
            FieldStep::Reject => Err(DecodeFailure::WireType),
        }
    }

    /// The outcome of reading a whole buffer into a value: field after
    /// field, each with its key, until the bytes end or one of them fails.
    pub open spec fn decoded(self, b: Seq<u8>) -> Result<ThingView, DecodeFailure>
        decreases b.len(),
        via Self::decoded_decreases
    {
        if b.len() == 0 {
            Ok(self)
        } else {
            match key_at(b) {
                Some((tag, wire_type, n)) => match self.merged(tag, wire_type, b.skip(n as int)) {
                    Ok((next, m)) => next.decoded(b.skip((n + m) as int)),
                    Err(e) => Err(e),
                },
                None => Err(DecodeFailure::Malformed),
            }
        }
    }

    #[via_fn]
    proof fn decoded_decreases(self, b: Seq<u8>) {
        if b.len() != 0 {
            if let Some((tag, wire_type, n)) = key_at(b) {
                lemma_varint_at_bounds(b, 10);
                self.lemma_merged_bounds(tag, wire_type, b.skip(n as int));
            }
        }
    }

    /// A field that was read took no more bytes than there were.
    pub proof fn lemma_merged_bounds(self, tag: u32, wire_type: WireType, b: Seq<u8>)
        ensures
            match self.merged(tag, wire_type, b) {
                Ok((_, n)) => n <= b.len(),
                Err(_) => true,
            },
    {
        lemma_span_at_bounds(wire_type, tag, b);
    }
}

/// Cuts `text` at its first separator.
pub fn split_text(text: &str) -> (r: Option<(String, String)>)
    ensures
        match r {
            Some((tb, id)) => has_separator(text@) && tb@ == text@.take(split_index(text@)) && id@
                == text@.skip(split_index(text@) + 1),
            None => !has_separator(text@),
        },
{
    let n = text.unicode_len();
    let mut i: usize = 0;
    while i < n
        invariant
            n == text@.len(),
            i <= n,
            forall|j: int| 0 <= j < i ==> text@[j] != SEPARATOR,
        decreases n - i,
    {
        if text.get_char(i) == SEPARATOR {
            assert(splits_at(text@, i as int));
            let tb = String::from_str(text.substring_char(0, i));
            let id = String::from_str(text.substring_char(i + 1, n));
            return Some((tb, id));
        }
        i += 1;
    }
    None
}

impl Clone for Thing {
    fn clone(&self) -> (r: Thing)
        ensures
            r@ == self@,
    {
        Thing { tb: self.tb.clone(), id: self.id.clone() }
    }
}

impl Default for Thing {
    fn default() -> (r: Thing)
        ensures
            r@ == ThingView::empty(),
    {
        Thing { tb: String::new(), id: Id::default() }
    }
}

impl From<(String, Id)> for Thing {
    fn from(v: (String, Id)) -> (r: Thing) {
        let (tb, id) = v;
        Thing { tb, id }
    }
}

impl FromSpecImpl<(String, Id)> for Thing {
    open spec fn obeys_from_spec() -> bool {
        true
    }

    open spec fn from_spec(v: (String, Id)) -> Thing {
        Thing { tb: v.0, id: v.1 }
    }
}

impl<'a> From<(&'a str, Id)> for Thing {
    /// The record identifier of the given table and identifier. The table
    /// is taken as it is: nothing is checked of it.
    fn from(v: (&'a str, Id)) -> (r: Thing)
        ensures
            r@ == (ThingView { tb: v.0@, id: v.1@ }),
    {
        let (tb, id) = v;
        Thing::new(tb, id)
    }
}

/// The trait's own contract asks for one given value, text buffer
/// included, which copying a borrowed text cannot promise: the contract
/// stands on `from` itself, over views.
impl<'a> FromSpecImpl<(&'a str, Id)> for Thing {
    open spec fn obeys_from_spec() -> bool {
        false
    }

    open spec fn from_spec(v: (&'a str, Id)) -> Thing {
        arbitrary()
    }
}

impl<'a, 'b> From<(&'a str, &'b str)> for Thing {
    /// The record identifier of the given table and exact-text identifier.
    fn from(v: (&'a str, &'b str)) -> (r: Thing)
        ensures
            r@ == (ThingView { tb: v.0@, id: IdView::String(v.1@) }),
    {
        let (tb, id) = v;
        Thing::of_strs(tb, id)
    }
}

/// As above: the contract stands on `from` itself.
impl<'a, 'b> FromSpecImpl<(&'a str, &'b str)> for Thing {
    open spec fn obeys_from_spec() -> bool {
        false
    }

    open spec fn from_spec(v: (&'a str, &'b str)) -> Thing {
        arbitrary()
    }
}

impl From<(String, String)> for Thing {
    fn from(v: (String, String)) -> (r: Thing) {
        let (tb, id) = v;
        Thing { tb, id: Id::String(id) }
    }
}

impl FromSpecImpl<(String, String)> for Thing {
    open spec fn obeys_from_spec() -> bool {
        true
    }

    open spec fn from_spec(v: (String, String)) -> Thing {
        Thing { tb: v.0, id: Id::String(v.1) }
    }
}

impl Thing {
    /// A record identifier of the given table and identifier. The table is
    /// taken as it is: nothing is checked of it.
    pub fn new(tb: &str, id: Id) -> (r: Thing)
        ensures
            r@ == (ThingView { tb: tb@, id: id@ }),
    {
        Thing { tb: String::from_str(tb), id }
    }

    /// A record identifier of the given table and exact-text identifier.
    pub fn of_strs(tb: &str, id: &str) -> (r: Thing)
        ensures
            r@ == (ThingView { tb: tb@, id: IdView::String(id@) }),
    {
        Thing { tb: String::from_str(tb), id: Id::String(String::from_str(id)) }
    }

    /// Convert the Thing to a raw String
    pub fn to_raw(&self) -> (r: String)
        ensures
            r@ == self@.text(),
    {
        let mut out = escape_rid(self.tb.as_str());
        out.append(":");
        let id = self.id.to_raw();
        out.append(id.as_str());
        proof {
            reveal_strlit(":");
            assert(":"@ =~= seq![SEPARATOR]);
        }
        out
    }

    /// Appends the binary form to `buf`.
    pub fn encode_raw(&self, buf: &mut Vec<u8>)
        ensures
            final(buf)@ == old(buf)@ + self@.encoding(),
    {
        let text = self.to_raw();
        put_string(FIELD, &text, buf);
    }

    /// The number of bytes that `encode_raw` appends.
    pub fn encoded_len(&self) -> (n: usize)
        ensures
            n == self@.encoding().len(),
    {
        let text = self.to_raw();
        string_len(FIELD, &text)
    }

    /// Sets the value back to the placeholder.
    pub fn clear(&mut self)
        ensures
            final(self)@ == ThingView::empty(),
    {
        self.tb = String::new();
        self.id = Id::default();
    }

    /// The binary form in a buffer of its own.
    pub fn encode_to_vec(&self) -> (buf: Vec<u8>)
        ensures
            buf@ == self@.encoding(),
    {
        let mut buf: Vec<u8> = Vec::new();
        self.encode_raw(&mut buf);
        assert(Seq::<u8>::empty() + self@.encoding() =~= self@.encoding());
        buf
    }

    /// Reads a whole buffer into the value, field after field. On an error
    /// the value stays as it was: nothing is taken over from a buffer that
    /// does not decode to its end.
    pub fn merge(&mut self, buf: &[u8]) -> (r: Result<(), DecodeFailure>)
        ensures
            match old(self)@.decoded(buf@) {
                Ok(v) => r is Ok && final(self)@ == v,
                Err(e) => r == Err::<(), DecodeFailure>(e) && final(self)@ == old(self)@,
            },
    {
        let mut work = self.clone();
        let mut rest = buf;
        while rest.len() > 0
            invariant
                self@.decoded(buf@) == work@.decoded(rest@),
            decreases rest@.len(),
        {
            let ghost bytes = rest@;
            match take_key(rest) {
                Ok((tag, wire_type, after)) => {
                    proof {
                        lemma_varint_at_bounds(bytes, 10);
                    }
                    match work.merge_field(tag, wire_type, after) {
                        Ok(next) => {
                            proof {
                                let n = bytes.len() - after@.len();
                                let m = after@.len() - next@.len();
                                assert(next@ =~= bytes.skip(n + m));
                            }
                            rest = next;
                        },
                        Err(e) => {
                            return Err(e);
                        },
                    }
                },
                Err(_) => {
                    return Err(DecodeFailure::Malformed);
                },
            }
        }
        *self = work;
        Ok(())
    }

    /// Reads a record identifier from a buffer, starting from the placeholder.
    pub fn decode(buf: &[u8]) -> (r: Result<Thing, DecodeFailure>)
        ensures
            match ThingView::empty().decoded(buf@) {
                Ok(v) => r is Ok && r.unwrap()@ == v,
                Err(e) => r == Err::<Thing, DecodeFailure>(e),
            },
    {
        let mut thing = Thing::default();
        match thing.merge(buf) {
            Ok(()) => Ok(thing),
            Err(e) => Err(e),
        }
    }

    /// Reads the payload of one field from the front of `buf`, the key
    /// already read, and hands back what follows it. The identifier field
    /// must be length-delimited; its text is cut at the first separator. Any
    /// other field is passed over. On an error the value stays as it was.
    pub fn merge_field<'a>(&mut self, tag: u32, wire_type: WireType, buf: &'a [u8]) -> (r: Result<
        &'a [u8],
        DecodeFailure,
    >)
        ensures
            match old(self)@.merged(tag, wire_type, buf@) {
                Ok((next, n)) => r is Ok && final(self)@ == next && n <= buf@.len() && r.unwrap()@
                    == buf@.skip(n as int),
                Err(e) => r == Err::<&[u8], DecodeFailure>(e) && final(self)@ == old(self)@,
            },
    {
        match Thing::field_step(tag, wire_type) {
            FieldStep::Text => match take_string(buf) {
                Ok((text, rest)) => match self.merge_text(text.as_str()) {
                    Ok(()) => Ok(rest),
                    Err(e) => Err(e),
                },
                Err(_) => Err(DecodeFailure::Malformed),
            },
            FieldStep::Skip => match skip_value(wire_type, tag, buf) {
                Ok(rest) => Ok(rest),
                Err(_) => Err(DecodeFailure::Malformed),
            },
            FieldStep::Reject => Err(DecodeFailure::WireType),
        }
    }

    /// What a field with this number and wire type asks for: the
    /// identifier field is read as text when it is length-delimited and
    /// rejected otherwise; every other field is passed over.
    pub fn field_step(tag: u32, wire_type: WireType) -> (r: FieldStep)
        ensures
            r == ThingView::step(tag, wire_type),
    {
        if tag != FIELD {
            FieldStep::Skip
        } else {
            match wire_type {
                WireType::LengthDelimited => FieldStep::Text,
                _ => FieldStep::Reject,
            }
        }
    }

    /// Takes over the text of the identifier field: the part before its
    /// first separator becomes the table and all that follows an exact-text
    /// identifier. A text without separator is an error and changes nothing.
    pub fn merge_text(&mut self, text: &str) -> (r: Result<(), DecodeFailure>)
        ensures
            match ThingView::from_wire_text(text@) {
                Ok(next) => r is Ok && final(self)@ == next,
                Err(e) => r == Err::<(), DecodeFailure>(e) && final(self)@ == old(self)@,
            },
    {
        match split_text(text) {
            Some((tb, id)) => {
                self.tb = tb;
                self.id = Id::String(id);
                Ok(())
            },
            None => Err(DecodeFailure::Separator),
        }
    }
}

} // verus!
