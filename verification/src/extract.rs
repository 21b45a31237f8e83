//! Subexpression extraction: the pass that finds a bracketed expression in
//! an axis argument, hoists it into a temporary-register assignment, and
//! rewrites the instruction to reference that register; with diagnostics for
//! nested brackets and for user code that assigns to the reserved register.

use vstd::prelude::*;
use crate::line::{render_loc, views, wf_lines, LineRec, PipelineError, SourceLine};
use crate::text::{
    begins_with, chars_of, copy_range, push_chars, push_str_chars, starts_with, trim_chars,
    trim_spec,
};

verus! {

/// The line begins with the register-prefix marker, which excludes it from
/// extraction.
pub open spec fn starts_hash(t: Seq<char>) -> bool {
    t.len() > 0 && t[0] == '#'
}

/// The recognized axis letters.
pub open spec fn is_axis(c: char) -> bool {
    c == 'X' || c == 'Y' || c == 'Z'
}

/// Position of the first closing bracket at or after `k`.
pub open spec fn find_rbracket(t: Seq<char>, k: int) -> Option<int>
    decreases t.len() - k,
    when 0 <= k
{
    if k >= t.len() {
        None
    } else if t[k] == ']' {
        Some(k)
    } else {
        find_rbracket(t, k + 1)
    }
}

/// The first position at or after `from` where an axis letter is immediately
/// followed by a bracketed group with at least one character between the
/// brackets, paired with the position of the group's closing bracket.
pub open spec fn find_axis_match(t: Seq<char>, from: int) -> Option<(int, int)>
    decreases t.len() - from,
    when 0 <= from
{
    if from + 1 >= t.len() {
        None
    } else if is_axis(t[from]) && t[from + 1] == '[' {
        match find_rbracket(t, from + 2) {
            Some(j) => if j > from + 2 {
                Some((from, j))
            } else {
                find_axis_match(t, from + 1)
            },
            None => find_axis_match(t, from + 1),
        }
    } else {
        find_axis_match(t, from + 1)
    }
}

/// The detection rule: the first bracketed axis argument of the line, unless
/// the line begins with the register-prefix marker.
pub open spec fn line_match(t: Seq<char>) -> Option<(int, int)> {
    if starts_hash(t) {
        None
    } else {
        find_axis_match(t, 0)
    }
}

/// A found closing bracket lies at or after the search start and within the
/// line.
pub proof fn lemma_find_rbracket_some(t: Seq<char>, k: int, j: int)
    requires
        0 <= k,
        find_rbracket(t, k) == Some(j),
    ensures
        k <= j < t.len(),
        t[j] == ']',
    decreases t.len() - k,
{
    if k >= t.len() {
        assert(false);
    } else if t[k] == ']' {
    } else {
        lemma_find_rbracket_some(t, k + 1, j);
    }
}

/// A found match lies within the line: axis letter, opening bracket, at
/// least one character, closing bracket.
pub proof fn lemma_find_axis_match_bounds(t: Seq<char>, from: int, m: (int, int))
    requires
        0 <= from,
        find_axis_match(t, from) == Some(m),
    ensures
        from <= m.0,
        m.0 + 2 < m.1 < t.len(),
        is_axis(t[m.0]),
        t[m.0 + 1] == '[',
        t[m.1] == ']',
    decreases t.len() - from,
{
    if from + 1 >= t.len() {
        assert(false);
    } else if is_axis(t[from]) && t[from + 1] == '[' {
        match find_rbracket(t, from + 2) {
            Some(j) => {
                lemma_find_rbracket_some(t, from + 2, j);
                if j <= from + 2 {
                    lemma_find_axis_match_bounds(t, from + 1, m);
                }
            },
            None => {
                lemma_find_axis_match_bounds(t, from + 1, m);
            },
        }
    } else {
        lemma_find_axis_match_bounds(t, from + 1, m);
    }
}

/// The expression between the brackets of a match.
pub open spec fn expr_of(t: Seq<char>, m: (int, int)) -> Seq<char> {
    t.subrange(m.0 + 2, m.1)
}

/// The expression itself contains an opening bracket: a nested expression,
/// which the pass rejects.
pub open spec fn has_lbracket(e: Seq<char>) -> bool {
    exists|k: int| 0 <= k < e.len() && e[k] == '['
}

/// The line's own text assigns to the reserved temporary register.
pub open spec fn collides(t: Seq<char>) -> bool {
    starts_with(t, crate::dialect::temp_assign_prefix())
}

/// The diagnostic for a line that assigns to the reserved register.
pub open spec fn collision_msg(loc: int) -> Seq<char> {
    "Temp variable '103' is assigned to on line "@ + render_loc(loc)
}

/// The diagnostic for a nested bracketed expression.
pub open spec fn nested_msg(text: Seq<char>, loc: int) -> Seq<char> {
    "Nested brackets are not supported\n\n  "@ + text + "\n\n(line "@ + render_loc(loc) + ")"@
}

/// The error the pass reports for this record, if any: a collision is
/// checked before extraction is attempted, then a matched expression with
/// nested brackets is rejected.
pub open spec fn line_error(l: LineRec) -> Option<Seq<char>> {
    if collides(l.text) {
        Some(collision_msg(l.loc))
    } else {
        match line_match(l.text) {
            Some(m) => if has_lbracket(expr_of(l.text, m)) {
                Some(nested_msg(l.text, l.loc))
            } else {
                None
            },
            None => None,
        }
    }
}

/// The comment line that echoes the trimmed original instruction.
pub open spec fn comment_text(t: Seq<char>) -> Seq<char> {
    "(m3tu: \""@ + trim_spec(t) + "\")"@
}

/// The temporary-register assignment line for a match, annotated with the
/// axis letter the expression came from.
pub open spec fn assign_text(t: Seq<char>, m: (int, int)) -> Seq<char> {
    "#103 = ["@ + expr_of(t, m) + "] (m3tu: extracted subexpression for "@ + seq![t[m.0]] + ")"@
}

/// The instruction with the bracketed group replaced by a reference to the
/// temporary register.
pub open spec fn rewrite_text(t: Seq<char>, m: (int, int)) -> Seq<char> {
    t.subrange(0, m.0 + 1) + crate::dialect::temp_ref_text() + t.skip(m.1 + 1)
}

/// The records an error-free line becomes: itself when it has no bracketed
/// axis argument, otherwise comment, assignment and rewritten instruction,
/// the first two synthetic and the last keeping the line's provenance.
pub open spec fn extract_line_spec(l: LineRec) -> Seq<LineRec> {
    match line_match(l.text) {
        None => seq![l],
        Some(m) => seq![
            LineRec { text: comment_text(l.text), loc: -1 },
            LineRec { text: assign_text(l.text, m), loc: -1 },
            LineRec { text: rewrite_text(l.text, m), loc: l.loc },
        ],
    }
}

/// The whole pass: records in order, stopping at the first error, whose
/// diagnostic is the overall result.
pub open spec fn extract_all_spec(s: Seq<LineRec>) -> Result<Seq<LineRec>, Seq<char>>
    decreases s.len(),
{
    if s.len() == 0 {
        Ok(Seq::empty())
    } else {
        match line_error(s[0]) {
            Some(m) => Err(m),
            None => match extract_all_spec(s.drop_first()) {
                Ok(rest) => Ok(extract_line_spec(s[0]) + rest),
                Err(m) => Err(m),
            },
        }
    }
}

fn find_rbracket_at(t: &Vec<char>, k: usize) -> (r: Option<usize>)
    ensures
        match r {
            Some(j) => find_rbracket(t@, k as int) == Some(j as int) && k <= j < t@.len(),
            None => find_rbracket(t@, k as int) is None,
        },
{
    let n = t.len();
    let mut m: usize = k;
    while m < n
        invariant
            n == t@.len(),
            k <= m,
            find_rbracket(t@, k as int) == find_rbracket(t@, m as int),
        decreases n - m,
    {
        if t[m] == ']' {
            return Some(m);
        }
        m = m + 1;
    }
    None
}

fn axis_char(c: char) -> (r: bool)
    ensures
        r == is_axis(c),
{
    c == 'X' || c == 'Y' || c == 'Z'
}

fn axis_match(t: &Vec<char>) -> (r: Option<(usize, usize)>)
    ensures
        match r {
            Some(m) => find_axis_match(t@, 0) == Some((m.0 as int, m.1 as int)) && m.0 + 2 < m.1
                < t@.len(),
            None => find_axis_match(t@, 0) is None,
        },
{
    let n = t.len();
    let mut i: usize = 0;
    loop
        invariant
            n == t@.len(),
            i <= n,
            find_axis_match(t@, 0) == find_axis_match(t@, i as int),
        decreases n - i,
    {
        if i >= n {
            return None;
        }
        if i + 1 >= n {
            return None;
        }
        if axis_char(t[i]) && t[i + 1] == '[' {
            match find_rbracket_at(t, i + 2) {
                Some(j) => {
                    if j > i + 2 {
                        return Some((i, j));
                    }
                },
                None => {},
            }
        }
        proof {
            assert(find_axis_match(t@, i as int) == find_axis_match(t@, i + 1));
        }
        i = i + 1;
    }
}

fn matched_bracket(t: &Vec<char>) -> (r: Option<(usize, usize)>)
    ensures
        match r {
            Some(m) => line_match(t@) == Some((m.0 as int, m.1 as int)) && m.0 + 2 < m.1
                < t@.len(),
            None => line_match(t@) is None,
        },
{
    if t.len() > 0 && t[0] == '#' {
        None
    } else {
        axis_match(t)
    }
}

fn expr_has_lbracket(t: &Vec<char>, i: usize, j: usize) -> (r: bool)
    requires
        i + 2 <= j <= t@.len(),
    ensures
        r == has_lbracket(t@.subrange(i + 2, j as int)),
{
    let ghost e = t@.subrange(i + 2, j as int);
    let mut k: usize = i + 2;
    while k < j
        invariant
            i + 2 <= k <= j <= t@.len(),
            e == t@.subrange(i + 2, j as int),
            forall|q: int| 0 <= q < k - i - 2 ==> e[q] != '[',
        decreases j - k,
    {
        if t[k] == '[' {
            proof {
                assert(e[k - i - 2] == '[');
            }
            return true;
        }
        k = k + 1;
    }
    false
}

fn build_collision_error(line: &SourceLine) -> (e: PipelineError)
    requires
        line@.wf(),
    ensures
        e@ == collision_msg(line@.loc),
{
    let mut msg = chars_of("Temp variable '103' is assigned to on line ");
    let lineno = line.format_lineno();
    push_chars(&mut msg, &lineno);
    PipelineError { message: msg }
}

fn build_nested_error(line: &SourceLine) -> (e: PipelineError)
    requires
        line@.wf(),
    ensures
        e@ == nested_msg(line@.text, line@.loc),
{
    let mut msg = chars_of("Nested brackets are not supported\n\n  ");
    push_chars(&mut msg, &line.text);
    push_str_chars(&mut msg, "\n\n(line ");
    let lineno = line.format_lineno();
    push_chars(&mut msg, &lineno);
    push_str_chars(&mut msg, ")");
    PipelineError { message: msg }
}

/// Run extraction on one record: pass it through, rewrite it into three
/// records, or report its diagnostic.
pub fn extract_line(line: &SourceLine) -> (r: Result<Vec<SourceLine>, PipelineError>)
    requires
        line@.wf(),
    ensures
        match r {
            Ok(out) => line_error(line@) is None && views(out@) == extract_line_spec(line@),
            Err(e) => line_error(line@) == Some(e@),
        },
{
    let ghost t = line@.text;
    if begins_with(&line.text, "#103 = ") {
        return Err(build_collision_error(line));
    }
    match matched_bracket(&line.text) {
        None => {
            let text = copy_range(&line.text, 0, line.text.len());
            proof {
                assert(text@ =~= t);
            }
            let mut out: Vec<SourceLine> = Vec::new();
            out.push(SourceLine { text, loc: line.loc });
            proof {
                assert(views(out@) =~= seq![line@]);
            }
            Ok(out)
        },
        Some((i, j)) => {
            if expr_has_lbracket(&line.text, i, j) {
                return Err(build_nested_error(line));
            }
            let ghost m = (i as int, j as int);
            // the comment echoing the trimmed instruction
            let mut comment = chars_of("(m3tu: \"");
            let trimmed = trim_chars(&line.text);
            push_chars(&mut comment, &trimmed);
            push_str_chars(&mut comment, "\")");
            proof {
                assert(comment@ == comment_text(t));
            }
            // the temporary-register assignment
            let mut assign = chars_of("#103 = [");
            let expr = copy_range(&line.text, i + 2, j);
            push_chars(&mut assign, &expr);
            push_str_chars(&mut assign, "] (m3tu: extracted subexpression for ");
            let ghost before_axis = assign@;
            assign.push(line.text[i]);
            proof {
                assert(assign@ =~= before_axis + seq![t[m.0]]);
            }
            push_str_chars(&mut assign, ")");
            proof {
                assert(assign@ == assign_text(t, m));
            }
            // the instruction referencing the register instead
            let mut rewritten = copy_range(&line.text, 0, i + 1);
            push_str_chars(&mut rewritten, "#103");
            let text_len = line.text.len();
            let suffix = copy_range(&line.text, j + 1, text_len);
            push_chars(&mut rewritten, &suffix);
            proof {
                assert(suffix@ =~= t.skip(m.1 + 1));
                assert(rewritten@ == rewrite_text(t, m));
            }
            let mut out: Vec<SourceLine> = Vec::new();
            out.push(SourceLine::synthetic(comment));
            out.push(SourceLine::synthetic(assign));
            out.push(SourceLine { text: rewritten, loc: line.loc });
            proof {
                assert(views(out@) =~= extract_line_spec(line@));
            }
            Ok(out)
        },
    }
}

/// Run extraction over the whole record sequence, stopping at the first
/// error; on success the records of each line stand in order.
pub fn extract_subexpressions(lines: &Vec<SourceLine>) -> (r: Result<
    Vec<SourceLine>,
    PipelineError,
>)
    requires
        wf_lines(views(lines@)),
    ensures
        match r {
            Ok(out) => extract_all_spec(views(lines@)) == Ok::<Seq<LineRec>, Seq<char>>(
                views(out@),
            ),
            Err(e) => extract_all_spec(views(lines@)) == Err::<Seq<LineRec>, Seq<char>>(e@),
        },
{
    let ghost vs = views(lines@);
    let n = lines.len();
    let mut out: Vec<SourceLine> = Vec::new();
    let mut i: usize = 0;
    proof {
        assert(vs.skip(0) =~= vs);
    }
    while i < n
        invariant
            n == lines@.len(),
            i <= n,
            vs == views(lines@),
            wf_lines(vs),
            extract_all_spec(vs) == (match extract_all_spec(vs.skip(i as int)) {
                Ok(rest) => Ok::<Seq<LineRec>, Seq<char>>(views(out@) + rest),
                Err(m) => Err::<Seq<LineRec>, Seq<char>>(m),
            }),
        decreases n - i,
    {
        let l = &lines[i];
        let ghost tail = vs.skip(i as int);
        proof {
            assert(tail[0] == vs[i as int]);
            assert(tail.drop_first() =~= vs.skip(i + 1));
            assert(vs[i as int].wf());
        }
        match extract_line(l) {
            Ok(mut pieces) => {
                let ghost prev = out@;
                let ghost pv = views(pieces@);
                out.append(&mut pieces);
                proof {
                    assert(views(out@) =~= views(prev) + pv);
                    assert(extract_all_spec(tail) == (match extract_all_spec(vs.skip(i + 1)) {
                        Ok(rest) => Ok::<Seq<LineRec>, Seq<char>>(
                            extract_line_spec(vs[i as int]) + rest,
                        ),
                        Err(m) => Err::<Seq<LineRec>, Seq<char>>(m),
                    }));
                    if extract_all_spec(vs.skip(i + 1)) is Ok {
                        let rest = extract_all_spec(vs.skip(i + 1))->Ok_0;
                        assert(views(prev) + (pv + rest) =~= views(out@) + rest);
                    }
                }
                i = i + 1;
            },
            Err(e) => {
                proof {
                    assert(extract_all_spec(tail) == Err::<Seq<LineRec>, Seq<char>>(e@));
                }
                return Err(e);
            },
        }
    }
    proof {
        assert(vs.skip(n as int).len() == 0);
        assert(extract_all_spec(vs.skip(n as int)) == Ok::<Seq<LineRec>, Seq<char>>(
            Seq::empty(),
        ));
        assert(views(out@) + Seq::<LineRec>::empty() =~= views(out@));
    }
    Ok(out)
}

} // verus!
