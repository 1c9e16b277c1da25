//! Translation of analysis facts into point-insertions: span facts become an
//! opening tag carrying an interned hover id plus a closing tag, inlay facts
//! become one labelled fragment each, all in discovery order.

use vstd::prelude::*;
use vstd::string::StrSliceExecFns;
use vstd::string::StringExecFns;
use crate::escape::escape_html;
use crate::escape::escape_text;
use crate::interner::HoverStore;
use crate::interner::intern_id;
use crate::interner::intern_tbl;
use crate::overlay::Insertion;
use crate::overlay::ins_views;
use crate::text::dec_rep;
use crate::text::usize_to_string;

verus! {

/// A token span in visible-text coordinates with its optional hover payload.
pub struct SpanFact {
    pub start: usize,
    pub end: usize,
    pub hover: Option<String>,
}

/// Which side of its anchor an inlay label lands on.
#[derive(Clone, Copy)]
pub enum InlaySide {
    Before,
    After,
}

/// An inlay label anchored at a range: a trailing label (a type) lands after
/// the range's end, any other label before the range's start.
pub struct InlayFact {
    pub start: usize,
    pub end: usize,
    pub side: InlaySide,
    pub label: String,
}

/// All facts the analysis engine produced for one code segment.
pub struct SegmentFacts {
    pub spans: Vec<SpanFact>,
    pub inlays: Vec<InlayFact>,
}

/// A span fact is kept only when it carries a non-empty hover payload.
pub open spec fn span_has_payload(f: SpanFact) -> bool {
    match f.hover {
        Some(h) => h@.len() > 0,
        None => false,
    }
}

/// The payload of a kept span fact.
pub open spec fn span_payload(f: SpanFact) -> Seq<char> {
    match f.hover {
        Some(h) => h@,
        None => Seq::empty(),
    }
}

/// The opening tag of an annotated token, carrying the hover id.
pub open spec fn open_frag(id: nat) -> Seq<char> {
    "<span class=\"ra\" data-hover=\""@ + dec_rep(id) + "\">"@
}

/// The closing tag of an annotated token.
pub open spec fn close_frag() -> Seq<char> {
    "</span>"@
}

/// The single insertion an inlay fact yields, with its label escaped.
pub open spec fn inlay_frag(f: InlayFact) -> (int, Seq<char>) {
    match f.side {
        InlaySide::After => (
            f.end as int,
            "<span class=\"inlay-hint\">: "@ + escape_text(f.label@) + "</span>"@,
        ),
        InlaySide::Before => (
            f.start as int,
            "<span class=\"inlay-hint\">"@ + escape_text(f.label@) + ": </span>"@,
        ),
    }
}

/// Folding the span facts in discovery order: each kept fact interns its
/// payload and appends its opening and closing insertions.
pub open spec fn spans_fold(spans: Seq<SpanFact>, tbl: Seq<Seq<char>>) -> (
    Seq<(int, Seq<char>)>,
    Seq<Seq<char>>,
)
    decreases spans.len(),
{
    if spans.len() == 0 {
        (Seq::empty(), tbl)
    } else {
        let prev = spans_fold(spans.drop_last(), tbl);
        let f = spans.last();
        if span_has_payload(f) {
            let h = span_payload(f);
            let id = intern_id(prev.1, h);
            (
                prev.0 + seq![
                    (f.start as int, open_frag(id as nat)),
                    (f.end as int, close_frag()),
                ],
                intern_tbl(prev.1, h),
            )
        } else {
            prev
        }
    }
}

/// The inlay insertions, one per fact, in discovery order.
pub open spec fn inlays_fold(inlays: Seq<InlayFact>) -> Seq<(int, Seq<char>)>
    decreases inlays.len(),
{
    if inlays.len() == 0 {
        Seq::empty()
    } else {
        inlays_fold(inlays.drop_last()) + seq![inlay_frag(inlays.last())]
    }
}

/// The full insertion list of a segment: span insertions first, then inlay
/// insertions, each group in discovery order.
pub open spec fn facts_insertions(
    spans: Seq<SpanFact>,
    inlays: Seq<InlayFact>,
    tbl: Seq<Seq<char>>,
) -> Seq<(int, Seq<char>)> {
    spans_fold(spans, tbl).0 + inlays_fold(inlays)
}

/// The hover table after a segment's span facts are interned.
pub open spec fn facts_table(spans: Seq<SpanFact>, tbl: Seq<Seq<char>>) -> Seq<Seq<char>> {
    spans_fold(spans, tbl).1
}

/// Builds the insertion list of one segment, interning every kept hover
/// payload into the chapter's store.
pub fn build_insertions(facts: &SegmentFacts, store: &mut HoverStore) -> (r: Vec<Insertion>)
    requires
        old(store).wf(),
    ensures
        final(store).wf(),
        ins_views(r@) == facts_insertions(facts.spans@, facts.inlays@, old(store)@),
        final(store)@ == facts_table(facts.spans@, old(store)@),
{
    let ghost spans = facts.spans@;
    let ghost inlays = facts.inlays@;
    let ghost tbl0 = old(store)@;
    let mut r: Vec<Insertion> = Vec::new();
    let n = facts.spans.len();
    let mut i: usize = 0;
    proof {
        assert(spans.take(0) =~= Seq::<SpanFact>::empty());
        assert(ins_views(r@) =~= Seq::<(int, Seq<char>)>::empty());
    }
    while i < n
        invariant
            old(store).wf(),
            store.wf(),
            n == spans.len(),
            spans == facts.spans@,
            tbl0 == old(store)@,
            i <= n,
            ins_views(r@) == spans_fold(spans.take(i as int), tbl0).0,
            store@ == spans_fold(spans.take(i as int), tbl0).1,
        decreases n - i,
    {
        proof {
            assert(spans.take(i + 1 as int).drop_last() =~= spans.take(i as int));
            assert(spans.take(i + 1 as int).last() == spans[i as int]);
        }
        let f = &facts.spans[i];
        let ghost fs = spans[i as int];
        match &f.hover {
            Some(h) => {
                if h.as_str().unicode_len() > 0 {
                    proof {
                        assert(span_has_payload(fs));
                        assert(span_payload(fs) == h@);
                    }
                    let id = store.get_id(h.clone());
                    let mut open = String::from_str("<span class=\"ra\" data-hover=\"");
                    let digits = usize_to_string(id);
                    open.append(digits.as_str());
                    open.append("\">");
                    let ghost prev_r = r@;
                    r.push(Insertion { offset: f.start, fragment: open });
                    r.push(Insertion { offset: f.end, fragment: String::from_str("</span>") });
                    proof {
                        let prev = spans_fold(spans.take(i as int), tbl0);
                        assert(ins_views(r@) =~= ins_views(prev_r) + seq![
                            (fs.start as int, open_frag(intern_id(prev.1, h@) as nat)),
                            (fs.end as int, close_frag()),
                        ]);
                        assert(ins_views(r@) == spans_fold(spans.take(i + 1 as int), tbl0).0);
                        assert(store@ == spans_fold(spans.take(i + 1 as int), tbl0).1);
                    }
                } else {
                    proof {
                        assert(!span_has_payload(fs));
                        assert(spans_fold(spans.take(i + 1 as int), tbl0) == spans_fold(
                            spans.take(i as int),
                            tbl0,
                        ));
                    }
                }
            },
            None => {
                proof {
                    assert(!span_has_payload(fs));
                    assert(spans_fold(spans.take(i + 1 as int), tbl0) == spans_fold(
                        spans.take(i as int),
                        tbl0,
                    ));
                }
            },
        }
        i = i + 1;
    }
    proof {
        assert(spans.take(n as int) =~= spans);
        assert(inlays.take(0) =~= Seq::<InlayFact>::empty());
        assert(ins_views(r@) + inlays_fold(inlays.take(0)) =~= ins_views(r@));
    }
    let ghost span_part = ins_views(r@);
    let ghost tbl_done = store@;
    let m = facts.inlays.len();
    let mut j: usize = 0;
    while j < m
        invariant
            m == inlays.len(),
            inlays == facts.inlays@,
            store@ == tbl_done,
            store.wf(),
            j <= m,
            ins_views(r@) == span_part + inlays_fold(inlays.take(j as int)),
        decreases m - j,
    {
        proof {
            assert(inlays.take(j + 1 as int).drop_last() =~= inlays.take(j as int));
            assert(inlays.take(j + 1 as int).last() == inlays[j as int]);
        }
        let f = &facts.inlays[j];
        let ghost fv = inlays[j as int];
        let esc = escape_html(f.label.as_str());
        let ghost prev_r = r@;
        match f.side {
            InlaySide::After => {
                let mut frag = String::from_str("<span class=\"inlay-hint\">: ");
                frag.append(esc.as_str());
                frag.append("</span>");
                r.push(Insertion { offset: f.end, fragment: frag });
            },
            InlaySide::Before => {
                let mut frag = String::from_str("<span class=\"inlay-hint\">");
                frag.append(esc.as_str());
                frag.append(": </span>");
                r.push(Insertion { offset: f.start, fragment: frag });
            },
        }
        proof {
            assert(ins_views(r@) =~= ins_views(prev_r) + seq![inlay_frag(fv)]);
            assert(ins_views(r@) =~= span_part + inlays_fold(inlays.take(j + 1 as int)));
        }
        j = j + 1;
    }
    proof {
        assert(inlays.take(m as int) =~= inlays);
    }
    r
}

} // verus!
