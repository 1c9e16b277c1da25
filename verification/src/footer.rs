//! Chapter footer: embeds the ordered hover payload list in a script element.
//! Each payload is encoded as a single-quoted string literal whose escapes
//! the client decodes, so every payload is reproducible byte for byte.

use vstd::prelude::*;
use vstd::string::StrSliceExecFns;
use vstd::string::StringExecFns;
use crate::text::push_char;

verus! {

/// The encoding of one payload character inside a quoted literal.
pub open spec fn enc_char(c: char) -> Seq<char> {
    if c == '\\' {
        seq!['\\', '\\']
    } else if c == '\'' {
        seq!['\\', '\'']
    } else if c == '\n' {
        seq!['\\', 'n']
    } else if c == '<' {
        seq!['\\', 'x', '3', 'C']
    } else {
        seq![c]
    }
}

/// The encoding of a whole payload.
pub open spec fn encode_payload(s: Seq<char>) -> Seq<char>
    decreases s.len(),
{
    if s.len() == 0 {
        Seq::empty()
    } else {
        encode_payload(s.drop_last()) + enc_char(s.last())
    }
}

/// The decoding the client applies to a quoted literal's contents.
pub open spec fn decode_payload(s: Seq<char>) -> Seq<char>
    decreases s.len(),
{
    if s.len() == 0 {
        Seq::empty()
    } else if s[0] == '\\' && s.len() >= 2 && s[1] == '\\' {
        seq!['\\'] + decode_payload(s.skip(2))
    } else if s[0] == '\\' && s.len() >= 2 && s[1] == '\'' {
        seq!['\''] + decode_payload(s.skip(2))
    } else if s[0] == '\\' && s.len() >= 2 && s[1] == 'n' {
        seq!['\n'] + decode_payload(s.skip(2))
    } else if s[0] == '\\' && s.len() >= 4 && s[1] == 'x' && s[2] == '3' && s[3] == 'C' {
        seq!['<'] + decode_payload(s.skip(4))
    } else {
        seq![s[0]] + decode_payload(s.drop_first())
    }
}

proof fn lemma_encode_concat(a: Seq<char>, b: Seq<char>)
    ensures
        encode_payload(a + b) == encode_payload(a) + encode_payload(b),
    decreases b.len(),
{
    if b.len() == 0 {
        assert(a + b =~= a);
        assert(encode_payload(a) + encode_payload(b) =~= encode_payload(a));
    } else {
        lemma_encode_concat(a, b.drop_last());
        assert((a + b).drop_last() =~= a + b.drop_last());
        assert((a + b).last() == b.last());
        assert(encode_payload(a) + encode_payload(b) =~= encode_payload(a + b));
    }
}

proof fn lemma_encode_head(s: Seq<char>)
    requires
        s.len() > 0,
    ensures
        encode_payload(s) == enc_char(s[0]) + encode_payload(s.drop_first()),
{
    assert(s =~= seq![s[0]] + s.drop_first());
    lemma_encode_concat(seq![s[0]], s.drop_first());
    let u = seq![s[0]];
    assert(u.drop_last() =~= Seq::<char>::empty());
    assert(encode_payload(u.drop_last()) == Seq::<char>::empty());
    assert(encode_payload(u) == encode_payload(u.drop_last()) + enc_char(u.last()));
    assert(encode_payload(u) =~= enc_char(s[0]));
}

/// The footer encoding is faithful: decoding an encoded payload returns the
/// payload unchanged.
pub proof fn lemma_encode_roundtrip(s: Seq<char>)
    ensures
        decode_payload(encode_payload(s)) == s,
    decreases s.len(),
{
    if s.len() == 0 {
        assert(decode_payload(encode_payload(s)) =~= s);
    } else {
        lemma_encode_roundtrip(s.drop_first());
        lemma_encode_head(s);
        let c = s[0];
        let e = encode_payload(s);
        let rest = encode_payload(s.drop_first());
        assert(e == enc_char(c) + rest);
        if c == '\\' || c == '\'' || c == '\n' {
            assert(e.len() >= 2);
            assert(e[0] == '\\');
            assert(e[1] == enc_char(c)[1]);
            assert(e.skip(2) =~= rest);
            assert(decode_payload(e) =~= s);
        } else if c == '<' {
            assert(e.len() >= 4);
            assert(e[0] == '\\' && e[1] == 'x' && e[2] == '3' && e[3] == 'C');
            assert(e.skip(4) =~= rest);
            assert(decode_payload(e) =~= s);
        } else {
            assert(e[0] == c);
            assert(e.drop_first() =~= rest);
            assert(decode_payload(e) =~= s);
        }
    }
}

/// Encodes one payload for embedding.
pub fn encode_payload_exec(p: &str) -> (r: String)
    ensures
        r@ == encode_payload(p@),
{
    let n = p.unicode_len();
    let mut r = String::new();
    let mut i: usize = 0;
    while i < n
        invariant
            i <= n,
            n == p@.len(),
            r@ == encode_payload(p@.take(i as int)),
        decreases n - i,
    {
        let c = p.get_char(i);
        if c == '\\' {
            push_char(&mut r, '\\');
            push_char(&mut r, '\\');
        } else if c == '\'' {
            push_char(&mut r, '\\');
            push_char(&mut r, '\'');
        } else if c == '\n' {
            push_char(&mut r, '\\');
            push_char(&mut r, 'n');
        } else if c == '<' {
            push_char(&mut r, '\\');
            push_char(&mut r, 'x');
            push_char(&mut r, '3');
            push_char(&mut r, 'C');
        } else {
            push_char(&mut r, c);
        }
        proof {
            assert(p@.take(i + 1 as int).drop_last() =~= p@.take(i as int));
            assert(p@.take(i + 1 as int).last() == p@[i as int]);
            assert(r@ =~= encode_payload(p@.take(i + 1 as int)));
        }
        i = i + 1;
    }
    proof {
        assert(p@.take(n as int) =~= p@);
    }
    r
}

/// The text before the embedded payload array.
pub open spec fn footer_head() -> Seq<char> {
    "\n\n<script>\nconst hoverData = ["@
}

/// The text between the embedded payload array and the activation script.
pub open spec fn footer_mid() -> Seq<char> {
    "];\n"@
}

/// The text closing the footer's script element.
pub open spec fn footer_tail() -> Seq<char> {
    "</script>\n"@
}

/// One payload as a quoted, comma-terminated array element.
pub open spec fn payload_item(p: Seq<char>) -> Seq<char> {
    seq!['\''] + encode_payload(p) + seq!['\'', ',']
}

/// All payloads as array elements, in id order.
pub open spec fn payload_items(ps: Seq<Seq<char>>) -> Seq<char>
    decreases ps.len(),
{
    if ps.len() == 0 {
        Seq::empty()
    } else {
        payload_items(ps.drop_last()) + payload_item(ps.last())
    }
}

/// The whole footer for a chapter: the ordered payload list, then the
/// tooltip-activation script.
pub open spec fn footer_spec(ps: Seq<Seq<char>>, activation: Seq<char>) -> Seq<char> {
    footer_head() + payload_items(ps) + footer_mid() + activation + footer_tail()
}

/// Builds the chapter footer embedding the ordered payload list.  The
/// payloads are the finalized hover store entries, already converted to HTML
/// by the caller; the tooltip-activation script is an outside collaborator
/// and is embedded as given.
pub fn chapter_footer(payloads: &Vec<String>, activation: &str) -> (r: String)
    ensures
        r@ == footer_spec(payloads@.map_values(|p: String| p@), activation@),
{
    let ghost pv = payloads@.map_values(|p: String| p@);
    let mut r = String::from_str("\n\n<script>\nconst hoverData = [");
    let n = payloads.len();
    let mut i: usize = 0;
    while i < n
        invariant
            pv == payloads@.map_values(|p: String| p@),
            n == payloads@.len(),
            i <= n,
            r@ == footer_head() + payload_items(pv.take(i as int)),
        decreases n - i,
    {
        push_char(&mut r, '\'');
        let enc = encode_payload_exec(payloads[i].as_str());
        r.append(enc.as_str());
        push_char(&mut r, '\'');
        push_char(&mut r, ',');
        proof {
            assert(pv.take(i + 1 as int).drop_last() =~= pv.take(i as int));
            assert(pv.take(i + 1 as int).last() == pv[i as int]);
            assert(pv[i as int] == payloads@[i as int]@);
            assert(r@ =~= footer_head() + payload_items(pv.take(i + 1 as int)));
        }
        i = i + 1;
    }
    proof {
        assert(pv.take(n as int) =~= pv);
    }
    r.append("];\n");
    r.append(activation);
    r.append("</script>\n");
    r
}

} // verus!
