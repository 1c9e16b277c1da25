//! Annotation overlay engine: walks the filtered text once, splices every
//! insertion fragment in just before the character at its offset, escapes each
//! literal character, and wraps boring lines in their presentational span.

use vstd::prelude::*;
use vstd::string::StrSliceExecFns;
use vstd::string::StringExecFns;
use crate::escape::escape_char;
use crate::escape::escape_html_char;
use crate::escape::escape_text;
use crate::escape::lemma_escape_identity;
use crate::escape::needs_escape;
use crate::filter::CodeLine;
use crate::filter::line_views;
use crate::filter::total_cost;
use crate::filter::lemma_total_cost_concat;
use crate::filter::lemma_total_cost_nonneg;
use crate::text::push_char;

verus! {

/// One point-insertion: a markup fragment spliced in immediately before the
/// visible character at `offset`.
pub struct Insertion {
    pub offset: usize,
    pub fragment: String,
}

impl View for Insertion {
    type V = (int, Seq<char>);

    open spec fn view(&self) -> (int, Seq<char>) {
        (self.offset as int, self.fragment@)
    }
}

/// The views of a sequence of insertions.
pub open spec fn ins_views(ins: Seq<Insertion>) -> Seq<(int, Seq<char>)> {
    ins.map_values(|x: Insertion| x@)
}

/// The fragments keyed at offset `o`, concatenated in discovery order.
pub open spec fn frags_at(ins: Seq<(int, Seq<char>)>, o: int) -> Seq<char>
    decreases ins.len(),
{
    if ins.len() == 0 {
        Seq::empty()
    } else {
        frags_at(ins.drop_last(), o) + if ins.last().0 == o {
            ins.last().1
        } else {
            Seq::<char>::empty()
        }
    }
}

/// Same-offset ordering: fragments discovered earlier stand earlier at their
/// offset; insertions appended later only append output.
pub proof fn lemma_frags_at_concat(a: Seq<(int, Seq<char>)>, b: Seq<(int, Seq<char>)>, o: int)
    ensures
        frags_at(a + b, o) == frags_at(a, o) + frags_at(b, o),
    decreases b.len(),
{
    if b.len() == 0 {
        assert(a + b =~= a);
        assert(frags_at(a, o) + frags_at(b, o) =~= frags_at(a, o));
    } else {
        lemma_frags_at_concat(a, b.drop_last(), o);
        assert((a + b).drop_last() =~= a + b.drop_last());
        assert((a + b).last() == b.last());
        assert(frags_at(a, o) + frags_at(b, o) =~= frags_at(a + b, o));
    }
}

/// At every offset the output keeps discovery order: the fragments of the
/// first `k` insertions stand before those of the later ones, so a closing
/// tag discovered earlier is never reordered behind an opening tag discovered
/// later at the same offset.
pub proof fn lemma_frags_at_split(ins: Seq<(int, Seq<char>)>, k: int, o: int)
    requires
        0 <= k <= ins.len(),
    ensures
        frags_at(ins, o) == frags_at(ins.take(k), o) + frags_at(ins.skip(k), o),
{
    assert(ins =~= ins.take(k) + ins.skip(k));
    lemma_frags_at_concat(ins.take(k), ins.skip(k), o);
}

/// Rendering of a run of normal text starting at offset `off`: before each
/// character the fragments keyed at its offset, then the escaped character.
pub open spec fn render_chars(t: Seq<char>, ins: Seq<(int, Seq<char>)>, off: int) -> Seq<char>
    decreases t.len(),
{
    if t.len() == 0 {
        Seq::empty()
    } else {
        frags_at(ins, off) + escape_char(t[0]) + render_chars(t.drop_first(), ins, off + 1)
    }
}

/// The wrapper opening a boring line.
pub open spec fn boring_open() -> Seq<char> {
    "<span class=\"boring\">"@
}

/// The wrapper closing a boring line.
pub open spec fn boring_close() -> Seq<char> {
    "</span>"@
}

/// Rendering of the filtered lines starting at offset `off`: a boring line is
/// emitted escaped inside its wrapper and carries no insertions, a normal
/// line is rendered character by character; either way the offset advances by
/// the line's visible length plus its newline.
pub open spec fn render_lines(
    vs: Seq<(Seq<char>, bool)>,
    ins: Seq<(int, Seq<char>)>,
    off: int,
) -> Seq<char>
    decreases vs.len(),
{
    if vs.len() == 0 {
        Seq::empty()
    } else {
        let l = vs[0];
        (if l.1 {
            boring_open() + escape_text(l.0) + seq!['\n'] + boring_close()
        } else {
            render_chars(l.0 + seq!['\n'], ins, off)
        }) + render_lines(vs.drop_first(), ins, off + l.0.len() + 1)
    }
}

fn emit_frags(r: &mut String, ins: &Vec<Insertion>, o: usize)
    ensures
        final(r)@ == old(r)@ + frags_at(ins_views(ins@), o as int),
{
    let ghost iv = ins_views(ins@);
    let n = ins.len();
    let mut k: usize = 0;
    while k < n
        invariant
            iv == ins_views(ins@),
            n == ins@.len(),
            k <= n,
            r@ == old(r)@ + frags_at(iv.take(k as int), o as int),
        decreases n - k,
    {
        proof {
            assert(iv.take(k + 1 as int).drop_last() =~= iv.take(k as int));
            assert(iv.take(k + 1 as int).last() == iv[k as int]);
            assert(iv[k as int] == ins@[k as int]@);
        }
        if ins[k].offset == o {
            let frag = &ins[k].fragment;
            r.append(frag.as_str());
        }
        proof {
            assert(r@ =~= old(r)@ + frags_at(iv.take(k + 1 as int), o as int));
        }
        k = k + 1;
    }
    proof {
        assert(iv.take(n as int) =~= iv);
    }
}

/// Renders the filtered lines with the given insertions, starting at offset
/// zero.  An insertion whose offset lies beyond the text, or inside a boring
/// line, is silently dropped.
pub fn annotate(lines: &Vec<CodeLine>, ins: &Vec<Insertion>) -> (r: String)
    requires
        total_cost(line_views(lines@)) <= usize::MAX,
    ensures
        r@ == render_lines(line_views(lines@), ins_views(ins@), 0),
{
    let ghost vs = line_views(lines@);
    let ghost iv = ins_views(ins@);
    let mut r = String::new();
    let mut off: usize = 0;
    let n = lines.len();
    let mut li: usize = 0;
    proof {
        assert(vs.skip(0) =~= vs);
        assert(vs.take(0) =~= Seq::<(Seq<char>, bool)>::empty());
        assert(r@ + render_lines(vs, iv, 0) =~= render_lines(vs, iv, 0));
    }
    while li < n
        invariant
            n == lines@.len(),
            vs == line_views(lines@),
            iv == ins_views(ins@),
            li <= n,
            total_cost(vs) <= usize::MAX,
            off == total_cost(vs.take(li as int)),
            r@ + render_lines(vs.skip(li as int), iv, off as int) == render_lines(vs, iv, 0),
        decreases n - li,
    {
        proof {
            assert(vs[li as int] == (lines@[li as int].text@, lines@[li as int].boring));
            // the cost so far plus this line's cost stays within the total
            assert(vs.take(li + 1 as int).drop_last() =~= vs.take(li as int));
            assert(vs.take(li + 1 as int).last() == vs[li as int]);
            assert(vs =~= vs.take(li + 1 as int) + vs.skip(li + 1 as int));
            lemma_total_cost_concat(vs.take(li + 1 as int), vs.skip(li + 1 as int));
            lemma_total_cost_nonneg(vs.skip(li + 1 as int));
            // peel the first remaining line off the render
            assert(vs.skip(li as int).len() > 0);
            assert(vs.skip(li as int)[0] == vs[li as int]);
            assert(vs.skip(li as int).drop_first() =~= vs.skip(li + 1 as int));
        }
        let tlen = lines[li].text.unicode_len();
        let ghost r0 = r@;
        if lines[li].boring {
            r.append("<span class=\"boring\">");
            let escaped = crate::escape::escape_html(lines[li].text.as_str());
            r.append(escaped.as_str());
            push_char(&mut r, '\n');
            r.append("</span>");
            proof {
                assert(r@ =~= r0 + (boring_open() + escape_text(vs[li as int].0) + seq!['\n']
                    + boring_close()));
            }
        } else {
            let ghost tview = lines@[li as int].text@ + seq!['\n'];
            let ghost goal = r0 + render_chars(tview, iv, off as int);
            proof {
                assert(tview.skip(0) =~= tview);
            }
            let mut p: usize = 0;
            while p <= tlen
                invariant
                    n == lines@.len(),
                    li < n,
                    vs == line_views(lines@),
                    iv == ins_views(ins@),
                    tlen == lines@[li as int].text@.len(),
                    tview == lines@[li as int].text@ + seq!['\n'],
                    goal == r0 + render_chars(tview, iv, off as int),
                    off + tlen + 1 <= usize::MAX,
                    p <= tlen + 1,
                    r@ + render_chars(tview.skip(p as int), iv, off + p) == goal,
                decreases tlen + 1 - p,
            {
                emit_frags(&mut r, ins, off + p);
                let c = if p < tlen {
                    lines[li].text.get_char(p)
                } else {
                    '\n'
                };
                proof {
                    assert(tview[p as int] == c);
                    assert(tview.skip(p as int)[0] == tview[p as int]);
                    assert(tview.skip(p as int).drop_first() =~= tview.skip(p + 1 as int));
                }
                let piece = escape_html_char(c);
                r.append(piece.as_str());
                p = p + 1;
            }
            proof {
                assert(tview.skip(tlen + 1 as int) =~= Seq::<char>::empty());
                assert(r@ =~= goal);
            }
        }
        proof {
            assert(total_cost(vs.take(li + 1 as int)) == off + vs[li as int].0.len() + 1);
        }
        off = off + tlen + 1;
        li = li + 1;
    }
    proof {
        assert(vs.skip(n as int) =~= Seq::<(Seq<char>, bool)>::empty());
    }
    r
}

/// Output pieces of a normal-text render: each insertion fragment is its own
/// marked piece, each escaped character a literal piece, in output order.
pub open spec fn frag_pieces(ins: Seq<(int, Seq<char>)>, o: int) -> Seq<(bool, Seq<char>)>
    decreases ins.len(),
{
    if ins.len() == 0 {
        seq![]
    } else {
        frag_pieces(ins.drop_last(), o) + if ins.last().0 == o {
            seq![(true, ins.last().1)]
        } else {
            Seq::<(bool, Seq<char>)>::empty()
        }
    }
}

/// The pieces of the rendered output from offset `off` on.
pub open spec fn pieces(t: Seq<char>, ins: Seq<(int, Seq<char>)>, off: int) -> Seq<
    (bool, Seq<char>),
>
    decreases t.len(),
{
    if t.len() == 0 {
        seq![]
    } else {
        frag_pieces(ins, off) + seq![(false, escape_char(t[0]))] + pieces(
            t.drop_first(),
            ins,
            off + 1,
        )
    }
}

/// All pieces concatenated.
pub open spec fn cat_pieces(ps: Seq<(bool, Seq<char>)>) -> Seq<char>
    decreases ps.len(),
{
    if ps.len() == 0 {
        Seq::empty()
    } else {
        ps[0].1 + cat_pieces(ps.drop_first())
    }
}

/// Only the literal pieces concatenated: the output with every inserted
/// fragment removed at its recorded boundary.
pub open spec fn cat_literals(ps: Seq<(bool, Seq<char>)>) -> Seq<char>
    decreases ps.len(),
{
    if ps.len() == 0 {
        Seq::empty()
    } else {
        (if ps[0].0 {
            Seq::<char>::empty()
        } else {
            ps[0].1
        }) + cat_literals(ps.drop_first())
    }
}

proof fn lemma_cat_concat(a: Seq<(bool, Seq<char>)>, b: Seq<(bool, Seq<char>)>)
    ensures
        cat_pieces(a + b) == cat_pieces(a) + cat_pieces(b),
        cat_literals(a + b) == cat_literals(a) + cat_literals(b),
    decreases a.len(),
{
    if a.len() == 0 {
        assert(a + b =~= b);
        assert(cat_pieces(a) + cat_pieces(b) =~= cat_pieces(b));
        assert(cat_literals(a) + cat_literals(b) =~= cat_literals(b));
    } else {
        lemma_cat_concat(a.drop_first(), b);
        assert((a + b).drop_first() =~= a.drop_first() + b);
        assert((a + b)[0] == a[0]);
        assert(cat_pieces(a) + cat_pieces(b) =~= cat_pieces(a + b));
        assert(cat_literals(a) + cat_literals(b) =~= cat_literals(a + b));
    }
}

proof fn lemma_frag_pieces_cat(ins: Seq<(int, Seq<char>)>, o: int)
    ensures
        cat_pieces(frag_pieces(ins, o)) == frags_at(ins, o),
        cat_literals(frag_pieces(ins, o)) == Seq::<char>::empty(),
    decreases ins.len(),
{
    if ins.len() == 0 {
    } else {
        lemma_frag_pieces_cat(ins.drop_last(), o);
        let tail: Seq<(bool, Seq<char>)> = if ins.last().0 == o {
            seq![(true, ins.last().1)]
        } else {
            Seq::<(bool, Seq<char>)>::empty()
        };
        lemma_cat_concat(frag_pieces(ins.drop_last(), o), tail);
        if ins.last().0 == o {
            assert(tail.len() == 1);
            assert(tail[0] == (true, ins.last().1));
            assert(tail.drop_first() =~= Seq::<(bool, Seq<char>)>::empty());
            assert(cat_pieces(tail.drop_first()) == Seq::<char>::empty());
            assert(cat_literals(tail.drop_first()) == Seq::<char>::empty());
            assert(cat_pieces(tail) == tail[0].1 + cat_pieces(tail.drop_first()));
            assert(cat_pieces(tail) =~= ins.last().1);
            assert(cat_literals(tail) =~= Seq::<char>::empty());
        }
        assert(cat_pieces(frag_pieces(ins, o)) =~= frags_at(ins, o));
        assert(cat_literals(frag_pieces(ins, o)) =~= Seq::<char>::empty());
    }
}

/// Offset fidelity: the render of a normal text is exactly its pieces in
/// order, and removing every inserted fragment at its recorded boundary
/// reconstructs exactly the escaped text.
pub proof fn lemma_offset_fidelity(t: Seq<char>, ins: Seq<(int, Seq<char>)>, off: int)
    ensures
        cat_pieces(pieces(t, ins, off)) == render_chars(t, ins, off),
        cat_literals(pieces(t, ins, off)) == escape_text(t),
    decreases t.len(),
{
    if t.len() == 0 {
        assert(cat_pieces(pieces(t, ins, off)) =~= render_chars(t, ins, off));
        assert(cat_literals(pieces(t, ins, off)) =~= escape_text(t));
    } else {
        lemma_offset_fidelity(t.drop_first(), ins, off + 1);
        lemma_frag_pieces_cat(ins, off);
        let mid: Seq<(bool, Seq<char>)> = seq![(false, escape_char(t[0]))];
        lemma_cat_concat(frag_pieces(ins, off), mid + pieces(t.drop_first(), ins, off + 1));
        lemma_cat_concat(mid, pieces(t.drop_first(), ins, off + 1));
        assert(frag_pieces(ins, off) + seq![(false, escape_char(t[0]))] + pieces(
            t.drop_first(),
            ins,
            off + 1,
        ) =~= frag_pieces(ins, off) + (mid + pieces(t.drop_first(), ins, off + 1)));
        assert(mid.len() == 1);
        assert(mid[0] == (false, escape_char(t[0])));
        assert(mid.drop_first() =~= Seq::<(bool, Seq<char>)>::empty());
        assert(cat_pieces(mid.drop_first()) == Seq::<char>::empty());
        assert(cat_literals(mid.drop_first()) == Seq::<char>::empty());
        assert(cat_pieces(mid) == mid[0].1 + cat_pieces(mid.drop_first()));
        assert(cat_pieces(mid) =~= escape_char(t[0]));
        assert(cat_literals(mid) =~= escape_char(t[0]));
        crate::escape::lemma_escape_head(t);
        assert(cat_pieces(pieces(t, ins, off)) =~= render_chars(t, ins, off));
        assert(cat_literals(pieces(t, ins, off)) =~= escape_text(t));
    }
}

/// The flattened visible text of a group of lines, newlines included.
pub open spec fn flat_views(vs: Seq<(Seq<char>, bool)>) -> Seq<char>
    decreases vs.len(),
{
    if vs.len() == 0 {
        Seq::empty()
    } else {
        vs[0].0 + seq!['\n'] + flat_views(vs.drop_first())
    }
}

/// Rendering distributes over splitting a normal text: the tail renders the
/// same, offset by the head's length.
pub proof fn lemma_render_chars_concat(
    a: Seq<char>,
    b: Seq<char>,
    ins: Seq<(int, Seq<char>)>,
    off: int,
)
    ensures
        render_chars(a + b, ins, off) == render_chars(a, ins, off) + render_chars(
            b,
            ins,
            off + a.len(),
        ),
    decreases a.len(),
{
    if a.len() == 0 {
        assert(a + b =~= b);
        assert(render_chars(a, ins, off) + render_chars(b, ins, off) =~= render_chars(
            b,
            ins,
            off,
        ));
    } else {
        lemma_render_chars_concat(a.drop_first(), b, ins, off + 1);
        assert((a + b).drop_first() =~= a.drop_first() + b);
        assert((a + b)[0] == a[0]);
        assert(render_chars(a, ins, off) + render_chars(b, ins, off + a.len()) =~= render_chars(
            a + b,
            ins,
            off,
        ));
    }
}

/// On lines that are all normal the engine is exactly the character renderer
/// of the flattened text: offsets run through line breaks without drift.
pub proof fn lemma_render_all_normal(
    vs: Seq<(Seq<char>, bool)>,
    ins: Seq<(int, Seq<char>)>,
    off: int,
)
    requires
        forall|k: int| 0 <= k < vs.len() ==> !(#[trigger] vs[k]).1,
    ensures
        render_lines(vs, ins, off) == render_chars(flat_views(vs), ins, off),
    decreases vs.len(),
{
    if vs.len() == 0 {
        assert(render_lines(vs, ins, off) =~= render_chars(flat_views(vs), ins, off));
    } else {
        let rest = vs.drop_first();
        assert forall|k: int| 0 <= k < rest.len() implies !(#[trigger] rest[k]).1 by {
            assert(rest[k] == vs[k + 1]);
        }
        lemma_render_all_normal(rest, ins, off + vs[0].0.len() + 1);
        let head = vs[0].0 + seq!['\n'];
        lemma_render_chars_concat(head, flat_views(rest), ins, off);
        assert(flat_views(vs) =~= head + flat_views(rest));
        assert(head.len() == vs[0].0.len() + 1);
        assert(render_lines(vs, ins, off) =~= render_chars(flat_views(vs), ins, off));
    }
}

/// With no insertions the engine output of a normal text is its escaped form.
pub proof fn lemma_render_no_insertions(t: Seq<char>, off: int)
    ensures
        render_chars(t, Seq::empty(), off) == escape_text(t),
    decreases t.len(),
{
    if t.len() == 0 {
        assert(render_chars(t, Seq::empty(), off) =~= escape_text(t));
    } else {
        lemma_render_no_insertions(t.drop_first(), off + 1);
        crate::escape::lemma_escape_head(t);
        assert(frags_at(Seq::empty(), off) =~= Seq::<char>::empty());
        assert(render_chars(t, Seq::empty(), off) =~= escape_text(t));
    }
}

/// Idempotent escaping at the engine: on text free of `<`, `>` and `&`, with
/// nothing to insert, the engine returns the text unchanged.
pub proof fn lemma_overlay_identity(t: Seq<char>)
    requires
        forall|i: int| 0 <= i < t.len() ==> !needs_escape(t[i]),
    ensures
        render_chars(t, Seq::empty(), 0) == t,
{
    lemma_render_no_insertions(t, 0);
    lemma_escape_identity(t);
}

} // verus!
