//! Snippet extractor: splits a chapter on its code fences, reads each code
//! segment's leading flag line, and reassembles the chapter around the
//! rendered snippets.

use vstd::prelude::*;
use vstd::string::StrSliceExecFns;
use vstd::string::StringExecFns;
use crate::filter::line_break;
use crate::filter::lemma_line_break;
use crate::text::chars_of;
use crate::text::contains_str;
use crate::text::find_sub;
use crate::text::first_match;
use crate::text::has_sub;
use crate::text::lemma_first_match;
use crate::text::string_from_range;

verus! {

/// A malformed code segment; the chapter is rejected rather than mis-rendered.
#[derive(Clone, Copy, Debug, PartialEq, Eq)]
pub enum RenderError {
    /// A code segment with no newline has no flag line to read.
    MissingFlagLine,
    /// A fenced block is never closed.
    MissingFenceEnd,
}

/// How a segment's flag line answers the enable question.
#[derive(Clone, Copy, Debug, PartialEq, Eq)]
pub enum FlagMode {
    /// The flags ask for annotation explicitly.
    Enabled,
    /// The flags refuse annotation explicitly.
    Disabled,
    /// The flags say nothing; the book-wide default decides.
    Inherit,
}

/// The marker refusing annotation of a segment.
pub open spec fn disabled_marker() -> Seq<char> {
    "ra_disabled"@
}

/// The marker requesting annotation of a segment.
pub open spec fn enabled_marker() -> Seq<char> {
    "ra_enabled"@
}

/// The mode a flag line denotes; an explicit refusal wins over a request.
pub open spec fn parse_flags_spec(flags: Seq<char>) -> FlagMode {
    if has_sub(flags, disabled_marker()) {
        FlagMode::Disabled
    } else if has_sub(flags, enabled_marker()) {
        FlagMode::Enabled
    } else {
        FlagMode::Inherit
    }
}

/// Whether a segment is annotated: an explicit flag decides; otherwise the
/// book-wide default does.
pub open spec fn resolve_spec(mode: FlagMode, disabled_by_default: bool) -> bool {
    match mode {
        FlagMode::Enabled => true,
        FlagMode::Disabled => false,
        FlagMode::Inherit => !disabled_by_default,
    }
}

/// Reads the mode off a flag line.
pub fn parse_flags(flags: &str) -> (r: FlagMode)
    ensures
        r == parse_flags_spec(flags@),
{
    proof {
        reveal_strlit("ra_disabled");
        reveal_strlit("ra_enabled");
    }
    if contains_str(flags, "ra_disabled") {
        FlagMode::Disabled
    } else if contains_str(flags, "ra_enabled") {
        FlagMode::Enabled
    } else {
        FlagMode::Inherit
    }
}

/// Whether a segment with this mode is annotated under the given default.
pub fn resolve(mode: FlagMode, disabled_by_default: bool) -> (r: bool)
    ensures
        r == resolve_spec(mode, disabled_by_default),
{
    match mode {
        FlagMode::Enabled => true,
        FlagMode::Disabled => false,
        FlagMode::Inherit => !disabled_by_default,
    }
}

/// A segment has a flag line only if it has a newline.
pub open spec fn has_newline(s: Seq<char>) -> bool {
    line_break(s) < s.len()
}

/// The flag line of a segment: everything before the first newline.
pub open spec fn flag_of(s: Seq<char>) -> Seq<char> {
    s.take(line_break(s))
}

/// The code of a segment: everything after the first newline.
pub open spec fn code_of(s: Seq<char>) -> Seq<char> {
    s.skip(line_break(s) + 1)
}

/// Splits a segment into its flag line and its code, or reports the missing
/// flag line.
pub fn split_flag_line(orig: &str) -> (r: Option<(String, String)>)
    ensures
        r is Some <==> has_newline(orig@),
        r matches Some(p) ==> p.0@ == flag_of(orig@) && p.1@ == code_of(orig@),
{
    let v = chars_of(orig);
    let n = v.len();
    proof {
        lemma_line_break(orig@);
    }
    let mut j: usize = 0;
    while j < n && v[j] != '\n'
        invariant
            n == orig@.len(),
            v@ == orig@,
            j <= n,
            forall|k: int| 0 <= k < j ==> orig@[k] != '\n',
        decreases n - j,
    {
        j = j + 1;
    }
    proof {
        let b = line_break(orig@);
        if b < j {
            assert(orig@[b] == '\n');
            assert(false);
        }
        if b > j {
            assert(j < n);
            assert(orig@[j as int] != '\n');
            assert(false);
        }
        assert(b == j);
    }
    if j == n {
        None
    } else {
        let flags = string_from_range(&v, 0, j);
        let code = string_from_range(&v, j + 1, n);
        Some((flags, code))
    }
}

/// A segment's code is wrapped in the hidden entry-point boilerplate unless
/// it declares its own.
pub open spec fn needs_wrapper(code: Seq<char>) -> bool {
    !has_sub(code, "fn main"@)
}

/// The hidden lines placed before the code by the boilerplate wrapper.
pub open spec fn wrapper_head() -> Seq<char> {
    "# #![allow(unused)]\n# fn main() {\n"@
}

/// The hidden line placed after the code by the boilerplate wrapper.
pub open spec fn wrapper_tail() -> Seq<char> {
    "# }"@
}

/// The code as handed to analysis: wrapped in the hidden entry point when it
/// declares none of its own.
pub open spec fn wrapped_code(code: Seq<char>) -> Seq<char> {
    if needs_wrapper(code) {
        wrapper_head() + code + wrapper_tail()
    } else {
        code
    }
}

/// Wraps a code segment in the hidden entry-point boilerplate if needed.
pub fn wrap_main(code: &str) -> (r: String)
    ensures
        r@ == wrapped_code(code@),
{
    proof {
        reveal_strlit("fn main");
    }
    if contains_str(code, "fn main") {
        let mut r = String::new();
        r.append(code);
        proof {
            assert(r@ =~= code@);
        }
        r
    } else {
        let mut r = String::from_str("# #![allow(unused)]\n# fn main() {\n");
        r.append(code);
        r.append("# }");
        r
    }
}

/// The fence opening a code segment.
pub open spec fn code_start() -> Seq<char> {
    "```rust"@
}

/// The fence closing a code segment.
pub open spec fn code_end() -> Seq<char> {
    "```"@
}

/// The pieces of a text split on a delimiter, the delimiter consumed.
pub open spec fn split_on(s: Seq<char>, d: Seq<char>) -> Seq<Seq<char>>
    decreases s.len(),
    via split_on_decreases
{
    if d.len() == 0 {
        seq![s]
    } else {
        let m = first_match(s, d);
        if m + d.len() <= s.len() {
            seq![s.take(m)] + split_on(s.skip(m + d.len()), d)
        } else {
            seq![s]
        }
    }
}

#[via_fn]
proof fn split_on_decreases(s: Seq<char>, d: Seq<char>) {
    if d.len() > 0 {
        lemma_first_match(s, d);
    }
}

/// The number of code segments a chapter text holds.
pub open spec fn num_segments(text: Seq<char>) -> int {
    split_on(text, code_start()).len() - 1
}

/// Whether a fenced piece carries its closing fence.
pub open spec fn piece_has_end(p: Seq<char>) -> bool {
    first_match(p, code_end()) + code_end().len() <= p.len()
}

/// The code part of a fenced piece: everything before its closing fence.
pub open spec fn piece_code(p: Seq<char>) -> Seq<char> {
    p.take(first_match(p, code_end()))
}

/// The prose part of a fenced piece: everything after its closing fence.
pub open spec fn piece_rest(p: Seq<char>) -> Seq<char> {
    p.skip(first_match(p, code_end()) + code_end().len())
}

/// Every fenced piece of the text is closed.
pub open spec fn all_pieces_closed(ps: Seq<Seq<char>>) -> bool {
    forall|k: int| 1 <= k < ps.len() ==> piece_has_end(#[trigger] ps[k])
}

/// Splits a chapter on its opening fences.
pub fn split_fences(text: &str) -> (r: Vec<String>)
    ensures
        r@.map_values(|p: String| p@) == split_on(text@, code_start()),
        r@.len() >= 1,
{
    proof {
        reveal_strlit("```rust");
    }
    let pat = chars_of("```rust");
    let mut rest = chars_of(text);
    let mut out: Vec<String> = Vec::new();
    let mut going = true;
    while going
        invariant
            pat@ == code_start(),
            pat@.len() == 7,
            going ==> out@.map_values(|p: String| p@) + split_on(rest@, code_start()) == split_on(
                text@,
                code_start(),
            ),
            !going ==> out@.map_values(|p: String| p@) == split_on(text@, code_start()) && out@.len()
                >= 1,
        decreases rest@.len(), (if going { 1int } else { 0int }),
    {
        let m = find_sub(&rest, &pat);
        proof {
            lemma_first_match(rest@, pat@);
        }
        let found = rest.len() >= 7 && m <= rest.len() - 7;
        let ghost prev_out = out@;
        let ghost prev_rest = rest@;
        if found {
            let piece = string_from_range(&rest, 0, m);
            out.push(piece);
            rest = crate::text::vec_range(&rest, m + 7, rest.len());
            proof {
                assert(split_on(prev_rest, code_start()) == seq![prev_rest.take(m as int)]
                    + split_on(rest@, code_start()));
                assert(out@.map_values(|p: String| p@) =~= prev_out.map_values(|p: String| p@)
                    + seq![prev_rest.take(m as int)]);
                assert(out@.map_values(|p: String| p@) + split_on(rest@, code_start())
                    =~= prev_out.map_values(|p: String| p@) + split_on(prev_rest, code_start()));
            }
        } else {
            let piece = string_from_range(&rest, 0, rest.len());
            out.push(piece);
            going = false;
            proof {
                assert(prev_rest.take(prev_rest.len() as int) =~= prev_rest);
                assert(split_on(prev_rest, code_start()) == seq![prev_rest]);
                assert(out@.map_values(|p: String| p@) =~= prev_out.map_values(|p: String| p@)
                    + seq![prev_rest]);
                assert(out@.map_values(|p: String| p@) =~= split_on(text@, code_start()));
            }
        }
    }
    out
}

/// The one-time styling preamble emitted at the start of every chapter.
pub open spec fn style_preamble() -> Seq<char> {
    "\n\n\n<style>\n    .inlay-hint, .inlay-hint * {\n        background-color: #444;\n        color: #999;\n        border-radius: .4em;\n    }\n    .inlay-hint {\n        font-size: 0.8em;\n        user-select: none;\n    }\n    .hover-holder {\n        max-height: 40vh;\n        overflow: auto;\n    }\n</style>\n"@
}

/// The markup opening a rendered snippet.
pub open spec fn pre_open() -> Seq<char> {
    "<pre><code class=\"language-rust hljs\">"@
}

/// The markup closing a rendered snippet.
pub open spec fn pre_close() -> Seq<char> {
    "</code></pre>"@
}

/// The chapter tail from the `k`-th fenced piece on: each rendered snippet in
/// its markup, followed by the piece's trailing prose.
pub open spec fn splice_from(ps: Seq<Seq<char>>, rendered: Seq<Seq<char>>, k: int) -> Seq<char>
    decreases ps.len() - k,
{
    if k >= ps.len() {
        Seq::empty()
    } else {
        pre_open() + rendered[k - 1] + pre_close() + piece_rest(ps[k]) + splice_from(
            ps,
            rendered,
            k + 1,
        )
    }
}

/// The reassembled chapter: the styling preamble, the leading prose, then
/// every rendered snippet followed by its trailing prose.
pub open spec fn chapter_body(text: Seq<char>, rendered: Seq<Seq<char>>) -> Seq<char> {
    let ps = split_on(text, code_start());
    style_preamble() + ps[0] + splice_from(ps, rendered, 1)
}

/// The raw code segments of a chapter, flag lines included, in order.
pub open spec fn segment_codes(text: Seq<char>) -> Seq<Seq<char>> {
    let ps = split_on(text, code_start());
    Seq::new((ps.len() - 1) as nat, |k: int| piece_code(ps[k + 1]))
}

/// Extracts the raw code segments of a chapter, or reports an unclosed fence.
pub fn extract_codes(text: &str) -> (r: Result<Vec<String>, RenderError>)
    ensures
        ({
            let ps = split_on(text@, code_start());
            &&& all_pieces_closed(ps) ==> (r matches Ok(v) && v@.map_values(|s: String| s@)
                == segment_codes(text@))
            &&& !all_pieces_closed(ps) ==> r == Result::<Vec<String>, RenderError>::Err(
                RenderError::MissingFenceEnd,
            )
        }),
{
    proof {
        reveal_strlit("```");
    }
    let endpat = chars_of("```");
    let pieces = split_fences(text);
    let ghost ps = split_on(text@, code_start());
    let mut out: Vec<String> = Vec::new();
    let n = pieces.len();
    let mut k: usize = 1;
    while k < n
        invariant
            endpat@ == code_end(),
            endpat@.len() == 3,
            ps == split_on(text@, code_start()),
            pieces@.map_values(|p: String| p@) == ps,
            n == pieces@.len(),
            1 <= k <= n,
            forall|t: int| 1 <= t < k ==> piece_has_end(#[trigger] ps[t]),
            out@.len() == k - 1,
            forall|t: int| 0 <= t < k - 1 ==> (#[trigger] out@[t])@ == piece_code(ps[t + 1]),
        decreases n - k,
    {
        let pv = chars_of(pieces[k].as_str());
        proof {
            assert(pv@ == ps[k as int]);
        }
        let e = find_sub(&pv, &endpat);
        proof {
            lemma_first_match(pv@, endpat@);
        }
        let closed = pv.len() >= 3 && e <= pv.len() - 3;
        if !closed {
            proof {
                assert(!piece_has_end(ps[k as int]));
            }
            return Err(RenderError::MissingFenceEnd);
        }
        let code = string_from_range(&pv, 0, e);
        proof {
            assert(code@ =~= piece_code(ps[k as int]));
        }
        out.push(code);
        k = k + 1;
    }
    proof {
        assert(out@.map_values(|s: String| s@) =~= segment_codes(text@));
    }
    Ok(out)
}

/// Reassembles a chapter from its prose and the rendered form of each code
/// segment, in order: the splice that the overlay engine's callers rely on.
pub fn run_on_codes(text: &str, rendered: &Vec<String>) -> (r: Result<String, RenderError>)
    requires
        rendered@.len() == num_segments(text@),
    ensures
        ({
            let ps = split_on(text@, code_start());
            let rv = rendered@.map_values(|s: String| s@);
            &&& all_pieces_closed(ps) ==> (r matches Ok(out) && out@ == chapter_body(text@, rv))
            &&& !all_pieces_closed(ps) ==> r == Result::<String, RenderError>::Err(
                RenderError::MissingFenceEnd,
            )
        }),
{
    proof {
        reveal_strlit("```");
    }
    let endpat = chars_of("```");
    let pieces = split_fences(text);
    let ghost ps = split_on(text@, code_start());
    let ghost rv = rendered@.map_values(|s: String| s@);
    let mut out = String::from_str(
        "\n\n\n<style>\n    .inlay-hint, .inlay-hint * {\n        background-color: #444;\n        color: #999;\n        border-radius: .4em;\n    }\n    .inlay-hint {\n        font-size: 0.8em;\n        user-select: none;\n    }\n    .hover-holder {\n        max-height: 40vh;\n        overflow: auto;\n    }\n</style>\n",
    );
    let first = &pieces[0];
    out.append(first.as_str());
    let n = pieces.len();
    let mut k: usize = 1;
    proof {
        assert(out@ + splice_from(ps, rv, 1) =~= chapter_body(text@, rv));
    }
    while k < n
        invariant
            endpat@ == code_end(),
            endpat@.len() == 3,
            ps == split_on(text@, code_start()),
            rv == rendered@.map_values(|s: String| s@),
            rendered@.len() == ps.len() - 1,
            pieces@.map_values(|p: String| p@) == ps,
            n == pieces@.len(),
            1 <= k <= n,
            forall|t: int| 1 <= t < k ==> piece_has_end(#[trigger] ps[t]),
            out@ + splice_from(ps, rv, k as int) == chapter_body(text@, rv),
        decreases n - k,
    {
        let pv = chars_of(pieces[k].as_str());
        proof {
            assert(pv@ == ps[k as int]);
        }
        let e = find_sub(&pv, &endpat);
        proof {
            lemma_first_match(pv@, endpat@);
        }
        let closed = pv.len() >= 3 && e <= pv.len() - 3;
        if !closed {
            proof {
                assert(!piece_has_end(ps[k as int]));
            }
            return Err(RenderError::MissingFenceEnd);
        }
        let ghost out0 = out@;
        out.append("<pre><code class=\"language-rust hljs\">");
        let snippet = &rendered[k - 1];
        out.append(snippet.as_str());
        out.append("</code></pre>");
        let rest = string_from_range(&pv, e + 3, pv.len());
        out.append(rest.as_str());
        proof {
            assert(rest@ =~= piece_rest(ps[k as int]));
            assert(rv[k - 1 as int] == rendered@[k - 1 as int]@);
            assert(splice_from(ps, rv, k as int) == pre_open() + rv[k as int - 1] + pre_close()
                + piece_rest(ps[k as int]) + splice_from(ps, rv, k + 1 as int));
            assert(out@ + splice_from(ps, rv, k + 1 as int) =~= out0 + splice_from(
                ps,
                rv,
                k as int,
            ));
        }
        k = k + 1;
    }
    proof {
        assert(splice_from(ps, rv, n as int) == Seq::<char>::empty());
        assert(out@ =~= chapter_body(text@, rv));
    }
    Ok(out)
}

} // verus!
