//! Per-segment rendering: resolves the flag line, wraps and filters the code,
//! translates the analysis facts and runs the overlay engine; and the
//! preprocessor handle tying the pipeline together.

use vstd::prelude::*;
use vstd::string::StrSliceExecFns;
use vstd::string::StringExecFns;
use crate::facts::InlayFact;
use crate::facts::SegmentFacts;
use crate::facts::SpanFact;
use crate::facts::build_insertions;
use crate::facts::facts_insertions;
use crate::facts::facts_table;
use crate::filter::filtered_views;
use crate::filter::lemma_cost_bound;
use crate::filter::lemma_line_break;
use crate::filter::line_views;
use crate::filter::split_code_lines;
use crate::filter::split_lines_spec;
use crate::filter::total_cost;
use crate::filter::visible_text;
use crate::filter::raw_code;
use crate::interner::HoverStore;
use crate::overlay::annotate;
use crate::overlay::render_lines;
use crate::segment::RenderError;
use crate::segment::code_of;
use crate::segment::flag_of;
use crate::segment::has_newline;
use crate::segment::parse_flags;
use crate::segment::parse_flags_spec;
use crate::segment::resolve;
use crate::segment::resolve_spec;
use crate::segment::split_flag_line;
use crate::segment::wrap_main;
use crate::segment::wrapped_code;
use crate::segment::wrapper_head;
use crate::segment::wrapper_tail;
use crate::text::str_eq;

verus! {

/// Whether a segment is annotated: its flag line decides, the book default
/// filling in where the flags say nothing.
pub open spec fn segment_annotated(orig: Seq<char>, disabled_by_default: bool) -> bool {
    resolve_spec(parse_flags_spec(flag_of(orig)), disabled_by_default)
}

/// The annotated rendering of a segment: its code, wrapped and filtered, run
/// through the overlay engine with the insertions its facts yield.
pub open spec fn segment_rendered(
    orig: Seq<char>,
    spans: Seq<SpanFact>,
    inlays: Seq<InlayFact>,
    tbl: Seq<Seq<char>>,
) -> Seq<char> {
    render_lines(
        filtered_views(split_lines_spec(wrapped_code(code_of(orig)))),
        facts_insertions(spans, inlays, tbl),
        0,
    )
}

/// The visible text of a segment's wrapped code: what the analysis engine is
/// asked about, and the coordinate space of every fact offset.
pub fn analysis_input(original_code: &str) -> (r: Result<String, RenderError>)
    ensures
        has_newline(original_code@) ==> (r matches Ok(v) && v@ == visible_text(
            wrapped_code(code_of(original_code@)),
        )),
        !has_newline(original_code@) ==> r == Result::<String, RenderError>::Err(
            RenderError::MissingFlagLine,
        ),
{
    let parts = match split_flag_line(original_code) {
        None => {
            return Err(RenderError::MissingFlagLine);
        },
        Some(p) => p,
    };
    let wrapped = wrap_main(parts.1.as_str());
    Ok(raw_code(wrapped.as_str()))
}

/// Whether a segment is annotated, read off its flag line.
pub fn segment_enabled(original_code: &str, disabled_by_default: bool) -> (r: Result<
    bool,
    RenderError,
>)
    ensures
        has_newline(original_code@) ==> (r matches Ok(b) && b == segment_annotated(
            original_code@,
            disabled_by_default,
        )),
        !has_newline(original_code@) ==> r == Result::<bool, RenderError>::Err(
            RenderError::MissingFlagLine,
        ),
{
    let parts = match split_flag_line(original_code) {
        None => {
            return Err(RenderError::MissingFlagLine);
        },
        Some(p) => p,
    };
    let mode = parse_flags(parts.0.as_str());
    Ok(resolve(mode, disabled_by_default))
}

/// Renders one code segment.  A segment whose flags leave it unannotated is
/// returned byte for byte as it came; an annotated one is wrapped, filtered
/// and run through the overlay engine, its hover payloads interned into the
/// chapter's store.
pub fn render_code_segment(
    original_code: &str,
    facts: &SegmentFacts,
    disabled_by_default: bool,
    store: &mut HoverStore,
) -> (r: Result<String, RenderError>)
    requires
        old(store).wf(),
        original_code@.len() + 40 <= usize::MAX,
    ensures
        final(store).wf(),
        !has_newline(original_code@) ==> r == Result::<String, RenderError>::Err(
            RenderError::MissingFlagLine,
        ) && final(store)@ == old(store)@,
        has_newline(original_code@) && !segment_annotated(original_code@, disabled_by_default)
            ==> (r matches Ok(out) && out@ == original_code@) && final(store)@ == old(store)@,
        has_newline(original_code@) && segment_annotated(original_code@, disabled_by_default) ==> (
        r matches Ok(out) && out@ == segment_rendered(
            original_code@,
            facts.spans@,
            facts.inlays@,
            old(store)@,
        )) && final(store)@ == facts_table(facts.spans@, old(store)@),
{
    let parts = match split_flag_line(original_code) {
        None => {
            return Err(RenderError::MissingFlagLine);
        },
        Some(p) => p,
    };
    let mode = parse_flags(parts.0.as_str());
    let annotate_it = resolve(mode, disabled_by_default);
    if !annotate_it {
        let mut out = String::new();
        out.append(original_code);
        proof {
            assert(out@ =~= original_code@);
        }
        return Ok(out);
    }
    let wrapped = wrap_main(parts.1.as_str());
    let lines = split_code_lines(wrapped.as_str());
    let ins = build_insertions(facts, store);
    proof {
        lemma_cost_bound(wrapped@);
        reveal_strlit("# #![allow(unused)]\n# fn main() {\n");
        reveal_strlit("# }");
        assert(wrapper_head().len() == 34);
        assert(wrapper_tail().len() == 3);
        lemma_line_break(original_code@);
        assert(code_of(original_code@).len() <= original_code@.len());
        assert(wrapped@.len() <= original_code@.len() + 37);
        assert(total_cost(line_views(lines@)) <= usize::MAX);
    }
    let out = annotate(&lines, &ins);
    Ok(out)
}

/// The preprocessor handle.
pub struct Nop;

impl Nop {
    /// A fresh preprocessor handle.
    pub fn new() -> Nop {
        Nop
    }

    /// The name the preprocessor registers under.
    pub fn name(&self) -> (r: &'static str)
        ensures
            r@ == "ra"@,
    {
        "ra"
    }

    /// Every renderer is supported but the one explicitly named unsupported.
    pub fn supports_renderer(&self, renderer: &str) -> (r: bool)
        ensures
            r == (renderer@ != "not-supported"@),
    {
        !str_eq(renderer, "not-supported")
    }
}

} // verus!
