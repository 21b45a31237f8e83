//! The pipeline driver: runs the passes in their fixed order over the
//! source text and renders the surviving records, or stops at the first
//! diagnostic with no partial output.

use vstd::prelude::*;
use crate::extract::{extract_all_spec, extract_subexpressions};
use crate::line::{views, LineRec, PipelineError, SourceLine};
use crate::splitter::{split_lines, split_spec};
use crate::stages::{
    drop_pauses_spec, inject_dwells, inject_dwells_spec, lemma_stages_preserve_wf,
    remap_registers, remap_spec, remove_pauses,
};
use crate::text::{chars_of, push_chars};

verus! {

/// The rendered output text: every record's text followed by a newline, in
/// sequence order.
pub open spec fn render_spec(s: Seq<LineRec>) -> Seq<char>
    decreases s.len(),
{
    if s.len() == 0 {
        Seq::empty()
    } else {
        s[0].text + seq!['\n'] + render_spec(s.drop_first())
    }
}

/// The whole run: split, remap, remove pauses, inject dwells, extract
/// subexpressions, then render; the first diagnostic of any pass is the
/// run's sole result.
pub open spec fn pipeline_spec(src: Seq<char>) -> Result<Seq<char>, Seq<char>> {
    let numbered = split_spec(src);
    let remapped = remap_spec(numbered);
    let cleaned = drop_pauses_spec(remapped);
    let dwelled = inject_dwells_spec(cleaned);
    match extract_all_spec(dwelled) {
        Ok(recs) => Ok(render_spec(recs)),
        Err(m) => Err(m),
    }
}

/// Render the surviving records to output text, one line per record, each
/// followed by a newline.
pub fn render_output(lines: &Vec<SourceLine>) -> (r: Vec<char>)
    ensures
        r@ == render_spec(views(lines@)),
{
    let ghost vs = views(lines@);
    let n = lines.len();
    let mut out: Vec<char> = Vec::new();
    let mut i: usize = 0;
    proof {
        assert(vs.skip(0) =~= vs);
        assert(out@ + render_spec(vs) =~= render_spec(vs));
    }
    while i < n
        invariant
            n == lines@.len(),
            i <= n,
            vs == views(lines@),
            render_spec(vs) == out@ + render_spec(vs.skip(i as int)),
        decreases n - i,
    {
        let l = &lines[i];
        let ghost tail = vs.skip(i as int);
        proof {
            assert(tail[0] == vs[i as int]);
            assert(tail.drop_first() =~= vs.skip(i + 1));
        }
        let ghost prev = out@;
        push_chars(&mut out, &l.text);
        let ghost mid = out@;
        out.push('\n');
        proof {
            assert(out@ =~= mid + seq!['\n']);
            assert(render_spec(tail) == tail[0].text + seq!['\n'] + render_spec(vs.skip(i + 1)));
            assert(prev + (tail[0].text + seq!['\n'] + render_spec(vs.skip(i + 1))) =~= out@
                + render_spec(vs.skip(i + 1)));
        }
        i = i + 1;
    }
    proof {
        assert(vs.skip(n as int).len() == 0);
        assert(render_spec(vs.skip(n as int)) == Seq::<char>::empty());
        assert(out@ + Seq::<char>::empty() =~= out@);
    }
    out
}

/// Run the full translation on raw program text.  On success the result is
/// the output text; on the first diagnostic of any pass the result is that
/// diagnostic alone and no output is produced.
pub fn run_pipeline(source: &str) -> (r: Result<Vec<char>, PipelineError>)
    requires
        source@.len() < i64::MAX,
    ensures
        match r {
            Ok(out) => pipeline_spec(source@) == Ok::<Seq<char>, Seq<char>>(out@),
            Err(e) => pipeline_spec(source@) == Err::<Seq<char>, Seq<char>>(e@),
        },
{
    let raw = chars_of(source);
    let numbered = split_lines(&raw);
    let remapped = remap_registers(&numbered);
    let cleaned = remove_pauses(&remapped);
    let dwelled = inject_dwells(&cleaned);
    proof {
        lemma_stages_preserve_wf(views(numbered@));
        lemma_stages_preserve_wf(views(remapped@));
        lemma_stages_preserve_wf(views(cleaned@));
    }
    match extract_subexpressions(&dwelled) {
        Ok(final_lines) => Ok(render_output(&final_lines)),
        Err(e) => Err(e),
    }
}

} // verus!
