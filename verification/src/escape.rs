//! Escaping of table names for the text form.

use vstd::prelude::*;
use vstd::string::*;

verus! {

/// The bracket that opens an escaped name.
pub const OPEN: char = '\u{27e8}';

/// The bracket that closes an escaped name.
pub const CLOSE: char = '\u{27e9}';

/// A character that may stand in a name without escaping: an ASCII letter or
/// digit, or an underscore. The separator `:` is not among them.
pub open spec fn is_word_char(c: char) -> bool {
    ||| 'a' <= c <= 'z'
    ||| 'A' <= c <= 'Z'
    ||| '0' <= c <= '9'
    ||| c == '_'
}

/// A name that needs no escaping: every character is a word character.
pub open spec fn is_plain(s: Seq<char>) -> bool {
    forall|i: int| 0 <= i < s.len() ==> is_word_char(#[trigger] s[i])
}

/// The character that escapes another inside brackets.
pub const ESCAPE: char = '\\';

/// What one character becomes inside brackets: a closing bracket and a
/// backslash get a backslash in front, anything else stays.
pub open spec fn quoted_char(c: char) -> Seq<char> {
    if c == CLOSE || c == ESCAPE {
        seq![ESCAPE, c]
    } else {
        seq![c]
    }
}

/// The inside of an escaped name: each character quoted in turn.
pub open spec fn quoted(s: Seq<char>) -> Seq<char>
    decreases s.len(),
{
    if s.len() == 0 {
        Seq::empty()
    } else {
        quoted(s.drop_last()) + quoted_char(s.last())
    }
}

/// The escaped form of a name: the name itself where it is plain, else its
/// quoted characters between brackets.
pub open spec fn escaped(s: Seq<char>) -> Seq<char> {
    if is_plain(s) {
        s
    } else {
        seq![OPEN] + quoted(s) + seq![CLOSE]
    }
}

/// Tells whether `c` is a word character.
pub fn word_char(c: char) -> (r: bool)
    ensures
        r == is_word_char(c),
{
    ('a' <= c && c <= 'z') || ('A' <= c && c <= 'Z') || ('0' <= c && c <= '9') || c == '_'
}

/// Tells whether every character of `s` is a word character.
pub fn plain(s: &str) -> (r: bool)
    ensures
        r == is_plain(s@),
{
    let n = s.unicode_len();
    let mut i: usize = 0;
    while i < n
        invariant
            n == s@.len(),
            i <= n,
            forall|j: int| 0 <= j < i ==> is_word_char(#[trigger] s@[j]),
        decreases n - i,
    {
        if !word_char(s.get_char(i)) {
            return false;
        }
        i += 1;
    }
    true
}

/// Escapes a table name for the text form of a record identifier.
pub fn escape_rid(s: &str) -> (r: String)
    ensures
        r@ == escaped(s@),
{
    if plain(s) {
        return String::from_str(s);
    }
    let n = s.unicode_len();
    let mut out = String::from_str("\u{27e8}");
    proof {
        reveal_strlit("\u{27e8}");
        assert(out@ =~= seq![OPEN] + quoted(s@.take(0)));
    }
    let mut i: usize = 0;
    while i < n
        invariant
            n == s@.len(),
            i <= n,
            out@ == seq![OPEN] + quoted(s@.take(i as int)),
        decreases n - i,
    {
        let c = s.get_char(i);
        if c == CLOSE || c == ESCAPE {
            out.append("\\");
        }
        out.append(s.substring_char(i, i + 1));
        proof {
            reveal_strlit("\\");
            assert(s@.take(i + 1).drop_last() =~= s@.take(i as int));
            assert(s@.subrange(i as int, i + 1) =~= seq![c]);
            assert(out@ =~= seq![OPEN] + quoted(s@.take(i + 1)));
        }
        i += 1;
    }
    out.append("\u{27e9}");
    proof {
        reveal_strlit("\u{27e9}");
        assert(s@.take(n as int) =~= s@);
    }
    out
}

} // verus!
