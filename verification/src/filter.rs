//! Hidden-line filter: strips the documentation hidden-line marker (`#` plus
//! a separating space, or a lone `#`) from the front of each line, flags such
//! lines as boring, and keeps exact offset accounting into the visible text.

use vstd::prelude::*;
use vstd::string::StrSliceExecFns;
use vstd::string::StringExecFns;
use crate::text::chars_of;
use crate::text::push_char;
use crate::text::string_from_range;

verus! {

/// Index of the first newline of `s`, or `s.len()` if none.
pub open spec fn line_break(s: Seq<char>) -> int
    decreases s.len(),
{
    if s.len() == 0 {
        0
    } else if s[0] == '\n' {
        0
    } else {
        1 + line_break(s.drop_first())
    }
}

/// `line_break` is the least newline position.
pub proof fn lemma_line_break(s: Seq<char>)
    ensures
        0 <= line_break(s) <= s.len(),
        forall|k: int| 0 <= k < line_break(s) ==> s[k] != '\n',
        line_break(s) < s.len() ==> s[line_break(s)] == '\n',
    decreases s.len(),
{
    if s.len() > 0 && s[0] != '\n' {
        lemma_line_break(s.drop_first());
        let b = line_break(s);
        assert forall|k: int| 0 <= k < b implies s[k] != '\n' by {
            if k >= 1 {
                assert(s.drop_first()[k - 1] == s[k]);
            }
        }
        if b < s.len() {
            assert(s.drop_first()[b - 1] == s[b]);
        }
    }
}

/// The lines of a text, split on newline; a trailing newline does not add an
/// empty final line.
pub open spec fn split_lines_spec(s: Seq<char>) -> Seq<Seq<char>>
    decreases s.len(),
    via split_lines_decreases
{
    if s.len() == 0 {
        seq![]
    } else {
        let b = line_break(s);
        if b == s.len() {
            seq![s]
        } else {
            seq![s.take(b)] + split_lines_spec(s.skip(b + 1))
        }
    }
}

#[via_fn]
proof fn split_lines_decreases(s: Seq<char>) {
    lemma_line_break(s);
}

/// A hidden line: the marker and a separating space, or the marker alone.
pub open spec fn is_hidden(l: Seq<char>) -> bool {
    (l.len() >= 2 && l[0] == '#' && l[1] == ' ') || l == seq!['#']
}

/// The visible remainder of a line: a hidden line loses its marker and
/// separator, any other line is kept whole.
pub open spec fn visible_rest(l: Seq<char>) -> Seq<char> {
    if l.len() >= 2 && l[0] == '#' && l[1] == ' ' {
        l.skip(2)
    } else if l == seq!['#'] {
        Seq::<char>::empty()
    } else {
        l
    }
}

/// Each raw line reduced to its visible remainder and its boring flag.
pub open spec fn filtered_views(rawlines: Seq<Seq<char>>) -> Seq<(Seq<char>, bool)> {
    rawlines.map_values(|l: Seq<char>| (visible_rest(l), is_hidden(l)))
}

/// The visible text of a sequence of filtered lines, each followed by a
/// newline.
pub open spec fn visible_of_views(vs: Seq<(Seq<char>, bool)>) -> Seq<char>
    decreases vs.len(),
{
    if vs.len() == 0 {
        Seq::empty()
    } else {
        visible_of_views(vs.drop_last()) + vs.last().0 + seq!['\n']
    }
}

/// The visible text of a raw code block.
pub open spec fn visible_text(s: Seq<char>) -> Seq<char> {
    visible_of_views(filtered_views(split_lines_spec(s)))
}

/// One line of a code block after filtering: its visible text (without the
/// terminating newline) and whether it came from a hidden line.
pub struct CodeLine {
    pub text: String,
    pub boring: bool,
}

/// The views of a sequence of filtered lines.
pub open spec fn line_views(lines: Seq<CodeLine>) -> Seq<(Seq<char>, bool)> {
    lines.map_values(|l: CodeLine| (l.text@, l.boring))
}

/// The number of visible characters a group of lines spans, newlines included.
pub open spec fn total_cost(vs: Seq<(Seq<char>, bool)>) -> int
    decreases vs.len(),
{
    if vs.len() == 0 {
        0
    } else {
        total_cost(vs.drop_last()) + vs.last().0.len() + 1
    }
}

/// A group of lines never spans a negative number of characters.
pub proof fn lemma_total_cost_nonneg(vs: Seq<(Seq<char>, bool)>)
    ensures
        total_cost(vs) >= 0,
    decreases vs.len(),
{
    if vs.len() > 0 {
        lemma_total_cost_nonneg(vs.drop_last());
    }
}

/// The cost of a group of lines splits over concatenation.
pub proof fn lemma_total_cost_concat(a: Seq<(Seq<char>, bool)>, b: Seq<(Seq<char>, bool)>)
    ensures
        total_cost(a + b) == total_cost(a) + total_cost(b),
    decreases b.len(),
{
    if b.len() == 0 {
        assert(a + b =~= a);
    } else {
        lemma_total_cost_concat(a, b.drop_last());
        assert((a + b).drop_last() =~= a + b.drop_last());
        assert((a + b).last() == b.last());
    }
}

/// Filtering never makes a block more than one character longer than the raw
/// text: at most the final missing newline is added.
pub proof fn lemma_cost_bound(s: Seq<char>)
    ensures
        total_cost(filtered_views(split_lines_spec(s))) <= s.len() + 1,
    decreases s.len(),
{
    lemma_line_break(s);
    if s.len() == 0 {
        assert(split_lines_spec(s) =~= Seq::<Seq<char>>::empty());
        assert(filtered_views(split_lines_spec(s)) =~= Seq::<(Seq<char>, bool)>::empty());
    } else {
        let b = line_break(s);
        if b == s.len() {
            let vs = filtered_views(seq![s]);
            assert(split_lines_spec(s) == seq![s]);
            assert(vs =~= seq![(visible_rest(s), is_hidden(s))]);
            assert(vs.drop_last() =~= Seq::<(Seq<char>, bool)>::empty());
            assert(total_cost(vs.drop_last()) == 0);
            assert(total_cost(vs) == visible_rest(s).len() + 1);
            assert(visible_rest(s).len() <= s.len());
        } else {
            let rest = s.skip(b + 1);
            lemma_cost_bound(rest);
            let l0 = s.take(b);
            assert(filtered_views(seq![l0] + split_lines_spec(rest)) =~= filtered_views(seq![l0])
                + filtered_views(split_lines_spec(rest)));
            lemma_total_cost_concat(
                filtered_views(seq![l0]),
                filtered_views(split_lines_spec(rest)),
            );
            assert(split_lines_spec(s) == seq![l0] + split_lines_spec(rest));
            let vs0 = filtered_views(seq![l0]);
            assert(vs0 =~= seq![(visible_rest(l0), is_hidden(l0))]);
            assert(vs0.drop_last() =~= Seq::<(Seq<char>, bool)>::empty());
            assert(total_cost(vs0.drop_last()) == 0);
            assert(total_cost(vs0) == visible_rest(l0).len() + 1);
            assert(visible_rest(l0).len() <= l0.len());
            assert(l0.len() == b);
            assert(rest.len() == s.len() - b - 1);
        }
    }
}

/// Splits a raw code block into its filtered lines.
pub fn split_code_lines(code: &str) -> (r: Vec<CodeLine>)
    ensures
        line_views(r@) == filtered_views(split_lines_spec(code@)),
{
    let v = chars_of(code);
    let n = v.len();
    let mut r: Vec<CodeLine> = Vec::new();
    let ghost s = code@;
    let ghost mut processed: Seq<Seq<char>> = seq![];
    proof {
        assert(s.skip(0) =~= s);
        assert(processed + split_lines_spec(s) =~= split_lines_spec(s));
    }
    let mut i: usize = 0;
    while i < n
        invariant
            n == s.len(),
            v@ == s,
            i <= n,
            split_lines_spec(s) == processed + split_lines_spec(s.skip(i as int)),
            line_views(r@) == filtered_views(processed),
        decreases n - i,
    {
        let ghost rest = s.skip(i as int);
        // scan to the end of the current line
        let mut j: usize = i;
        while j < n && v[j] != '\n'
            invariant
                n == s.len(),
                v@ == s,
                i <= j <= n,
                forall|k: int| i <= k < j ==> s[k] != '\n',
            decreases n - j,
        {
            j = j + 1;
        }
        proof {
            lemma_line_break(rest);
            let b = line_break(rest);
            // the scan found exactly the first newline of the remainder
            assert forall|k: int| 0 <= k < j - i implies rest[k] != '\n' by {
                assert(rest[k] == s[i + k]);
            }
            if b < j - i {
                assert(rest[b] == s[i + b]);
                assert(false);
            }
            if b > j - i {
                assert(j < n);
                assert(rest[j - i] == s[j as int]);
                assert(false);
            }
            assert(b == j - i);
        }
        // extract the visible remainder and the boring flag
        let hidden_pair = j - i >= 2 && v[i] == '#' && v[i + 1] == ' ';
        let hidden_lone = j - i == 1 && v[i] == '#';
        let ghost rawline = s.subrange(i as int, j as int);
        let line = if hidden_pair {
            CodeLine { text: string_from_range(&v, i + 2, j), boring: true }
        } else if hidden_lone {
            CodeLine { text: String::new(), boring: true }
        } else {
            CodeLine { text: string_from_range(&v, i, j), boring: false }
        };
        proof {
            if hidden_lone {
                assert(rawline =~= seq!['#']);
            }
            if !hidden_pair && !hidden_lone {
                if rawline == seq!['#'] {
                    assert(rawline.len() == 1);
                    assert(s[i as int] == rawline[0]);
                    assert(false);
                }
            }
            if hidden_pair {
                assert(rawline.skip(2) =~= s.subrange(i + 2, j as int));
            }
            assert(line.text@ == visible_rest(rawline));
            assert(line.boring == is_hidden(rawline));
        }
        let ghost prev_processed = processed;
        let ghost prev_r = r@;
        r.push(line);
        proof {
            processed = prev_processed.push(rawline);
            assert(line_views(prev_r).len() == prev_r.len());
            assert(filtered_views(prev_processed).len() == prev_processed.len());
            assert(prev_r.len() == prev_processed.len());
            assert forall|m: int| 0 <= m < r@.len() implies line_views(r@)[m] == filtered_views(
                processed,
            )[m] by {
                if m < prev_r.len() {
                    assert(r@[m] == prev_r[m]);
                    assert(processed[m] == prev_processed[m]);
                    assert(line_views(prev_r)[m] == filtered_views(prev_processed)[m]);
                } else {
                    assert(r@[m] == line);
                    assert(processed[m] == rawline);
                }
            }
            assert(line_views(r@) =~= filtered_views(processed));
            // peel the line off the remainder in the split
            let b = line_break(rest);
            if j < n {
                assert(rest.len() > 0);
                assert(rest.take(b) =~= rawline);
                assert(rest.skip(b + 1) =~= s.skip(j + 1));
                assert(split_lines_spec(rest) == seq![rawline] + split_lines_spec(s.skip(j + 1)));
                assert(prev_processed + (seq![rawline] + split_lines_spec(s.skip(j + 1)))
                    =~= processed + split_lines_spec(s.skip(j + 1)));
            } else {
                assert(rest =~= rawline);
                assert(rest.len() > 0);
                assert(split_lines_spec(rest) == seq![rawline]);
                assert(s.skip(n as int) =~= Seq::<char>::empty());
                assert(split_lines_spec(s.skip(n as int)) =~= Seq::<Seq<char>>::empty());
                assert(prev_processed + seq![rawline] =~= processed + split_lines_spec(
                    s.skip(n as int),
                ));
            }
        }
        if j < n {
            i = j + 1;
        } else {
            i = n;
        }
    }
    proof {
        assert(s.skip(n as int) =~= Seq::<char>::empty());
        assert(split_lines_spec(s) =~= processed);
    }
    r
}

/// The visible text of a raw code block: hidden-line markers stripped, every
/// line terminated by a newline.
pub fn raw_code(code: &str) -> (r: String)
    ensures
        r@ == visible_text(code@),
{
    let lines = split_code_lines(code);
    let ghost vs = line_views(lines@);
    let mut r = String::new();
    let n = lines.len();
    let mut k: usize = 0;
    while k < n
        invariant
            n == lines@.len(),
            vs == line_views(lines@),
            k <= n,
            r@ == visible_of_views(vs.take(k as int)),
        decreases n - k,
    {
        r.append(lines[k].text.as_str());
        push_char(&mut r, '\n');
        proof {
            assert(vs.take(k + 1 as int).drop_last() =~= vs.take(k as int));
            assert(vs.take(k + 1 as int).last() == vs[k as int]);
            assert(vs[k as int].0 == lines@[k as int].text@);
            assert(r@ =~= visible_of_views(vs.take(k + 1 as int)));
        }
        k = k + 1;
    }
    proof {
        assert(vs.take(n as int) =~= vs);
    }
    r
}

} // verus!
