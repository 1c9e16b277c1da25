//! HTML escaping of code characters: `<`, `>` and `&` become entities, every
//! other character passes through unchanged.

use vstd::prelude::*;
use vstd::string::StrSliceExecFns;
use vstd::string::StringExecFns;
use crate::text::char_to_string;

verus! {

/// The characters that escaping replaces.
pub open spec fn needs_escape(c: char) -> bool {
    c == '<' || c == '>' || c == '&'
}

/// The escaped form of one character.
pub open spec fn escape_char(c: char) -> Seq<char> {
    if c == '<' {
        seq!['&', 'l', 't', ';']
    } else if c == '>' {
        seq!['&', 'g', 't', ';']
    } else if c == '&' {
        seq!['&', 'a', 'm', 'p', ';']
    } else {
        seq![c]
    }
}

/// The escaped form of a text: each character escaped, in order.
pub open spec fn escape_text(s: Seq<char>) -> Seq<char>
    decreases s.len(),
{
    if s.len() == 0 {
        Seq::empty()
    } else {
        escape_text(s.drop_last()) + escape_char(s.last())
    }
}

/// The escaped form of one character, as a string.
pub fn escape_html_char(c: char) -> (r: String)
    ensures
        r@ == escape_char(c),
{
    if c == '<' {
        let r = String::from_str("&lt;");
        proof {
            reveal_strlit("&lt;");
            assert(r@ =~= escape_char(c));
        }
        r
    } else if c == '>' {
        let r = String::from_str("&gt;");
        proof {
            reveal_strlit("&gt;");
            assert(r@ =~= escape_char(c));
        }
        r
    } else if c == '&' {
        let r = String::from_str("&amp;");
        proof {
            reveal_strlit("&amp;");
            assert(r@ =~= escape_char(c));
        }
        r
    } else {
        char_to_string(c)
    }
}

/// The escaped form of a whole string.
pub fn escape_html(s: &str) -> (r: String)
    ensures
        r@ == escape_text(s@),
{
    let n = s.unicode_len();
    let mut r = String::new();
    let mut i: usize = 0;
    while i < n
        invariant
            i <= n,
            n == s@.len(),
            r@ == escape_text(s@.take(i as int)),
        decreases n - i,
    {
        let piece = escape_html_char(s.get_char(i));
        r.append(piece.as_str());
        proof {
            assert(s@.take(i + 1 as int).drop_last() =~= s@.take(i as int));
            assert(s@.take(i + 1 as int).last() == s@[i as int]);
        }
        i = i + 1;
    }
    proof {
        assert(s@.take(n as int) =~= s@);
    }
    r
}

/// Escaping distributes over concatenation.
pub proof fn lemma_escape_concat(a: Seq<char>, b: Seq<char>)
    ensures
        escape_text(a + b) == escape_text(a) + escape_text(b),
    decreases b.len(),
{
    if b.len() == 0 {
        assert(a + b =~= a);
        assert(escape_text(a) + escape_text(b) =~= escape_text(a));
    } else {
        lemma_escape_concat(a, b.drop_last());
        assert((a + b).drop_last() =~= a + b.drop_last());
        assert((a + b).last() == b.last());
        assert(escape_text(a) + escape_text(b) =~= escape_text(a + b));
    }
}

/// Escaping a non-empty text escapes its first character, then the rest.
pub proof fn lemma_escape_head(t: Seq<char>)
    requires
        t.len() > 0,
    ensures
        escape_text(t) == escape_char(t[0]) + escape_text(t.drop_first()),
{
    assert(t =~= seq![t[0]] + t.drop_first());
    lemma_escape_concat(seq![t[0]], t.drop_first());
    let u = seq![t[0]];
    assert(u.len() == 1);
    assert(u.last() == t[0]);
    assert(u.drop_last() =~= Seq::<char>::empty());
    assert(escape_text(u.drop_last()) == Seq::<char>::empty());
    assert(escape_text(u) == escape_text(u.drop_last()) + escape_char(u.last()));
    assert(escape_text(u) =~= escape_char(t[0]));
}

/// Escaping touches only `<`, `>` and `&`: a text without them is returned
/// unchanged.
pub proof fn lemma_escape_identity(s: Seq<char>)
    requires
        forall|i: int| 0 <= i < s.len() ==> !needs_escape(s[i]),
    ensures
        escape_text(s) == s,
    decreases s.len(),
{
    if s.len() == 0 {
        assert(escape_text(s) =~= s);
    } else {
        assert(forall|i: int| 0 <= i < s.drop_last().len() ==> s.drop_last()[i] == s[i]);
        lemma_escape_identity(s.drop_last());
        assert(!needs_escape(s.last()));
        assert(escape_text(s) =~= s);
    }
}

} // verus!
