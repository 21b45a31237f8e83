//! The three simple passes: probe-register remapping, pause removal, and
//! dwell injection.  Each consumes the ordered record sequence of the
//! previous pass and produces a new ordered sequence.

use vstd::prelude::*;
use crate::dialect::{dwell_text, pause_text, probe_mach3, probe_ucnc, spindle_on_prefix};
use crate::line::{views, wf_lines, LineRec, SourceLine};
use crate::text::{begins_with, copy_range, replace_all, replace_all_chars, starts_with, text_eq};

verus! {

/// One line after probe-register remapping: every occurrence of the Mach3
/// probe register replaced by the UCNC one, provenance kept.
pub open spec fn remap_line(l: LineRec) -> LineRec {
    LineRec { text: replace_all(l.text, probe_mach3(), probe_ucnc()), loc: l.loc }
}

/// The record sequence after probe-register remapping.
pub open spec fn remap_spec(s: Seq<LineRec>) -> Seq<LineRec> {
    s.map_values(|l: LineRec| remap_line(l))
}

/// The record sequence with every line whose whole text is the pause
/// directive removed; all other records kept in order.
pub open spec fn drop_pauses_spec(s: Seq<LineRec>) -> Seq<LineRec>
    decreases s.len(),
{
    if s.len() == 0 {
        Seq::empty()
    } else if s[0].text == pause_text() {
        drop_pauses_spec(s.drop_first())
    } else {
        seq![s[0]] + drop_pauses_spec(s.drop_first())
    }
}

/// The synthetic dwell record inserted after each spindle-on command.
pub open spec fn dwell_rec() -> LineRec {
    LineRec { text: dwell_text(), loc: -1 }
}

/// The record sequence after dwell injection: every record whose text begins
/// with the spindle-on prefix is followed by one synthetic dwell record; all
/// records pass through in order.
pub open spec fn inject_dwells_spec(s: Seq<LineRec>) -> Seq<LineRec>
    decreases s.len(),
{
    if s.len() == 0 {
        Seq::empty()
    } else if starts_with(s[0].text, spindle_on_prefix()) {
        seq![s[0], dwell_rec()] + inject_dwells_spec(s.drop_first())
    } else {
        seq![s[0]] + inject_dwells_spec(s.drop_first())
    }
}

/// Remap the probe-data register on every line: a plain substring
/// replacement, not a pattern match, preserving order and provenance.
pub fn remap_registers(lines: &Vec<SourceLine>) -> (r: Vec<SourceLine>)
    ensures
        views(r@) == remap_spec(views(lines@)),
{
    let ghost vs = views(lines@);
    proof {
        reveal_strlit("#2002");
    }
    let n = lines.len();
    let mut out: Vec<SourceLine> = Vec::new();
    let mut i: usize = 0;
    while i < n
        invariant
            n == lines@.len(),
            i <= n,
            vs == views(lines@),
            views(out@) =~= remap_spec(vs).subrange(0, i as int),
            probe_mach3().len() >= 1,
        decreases n - i,
    {
        let l = &lines[i];
        let text = replace_all_chars(&l.text, "#2002", "#5063");
        let ghost prev = out@;
        out.push(SourceLine { text, loc: l.loc });
        proof {
            assert(views(out@) =~= views(prev).push(remap_line(vs[i as int])));
            assert(views(out@) =~= remap_spec(vs).subrange(0, i + 1));
        }
        i = i + 1;
    }
    proof {
        assert(remap_spec(vs).subrange(0, n as int) =~= remap_spec(vs));
    }
    out
}

/// Drop every record whose entire text equals the pause directive; all other
/// records pass through unchanged, preserving order and provenance.
pub fn remove_pauses(lines: &Vec<SourceLine>) -> (r: Vec<SourceLine>)
    ensures
        views(r@) == drop_pauses_spec(views(lines@)),
{
    let ghost vs = views(lines@);
    let n = lines.len();
    let mut out: Vec<SourceLine> = Vec::new();
    let mut i: usize = 0;
    proof {
        assert(vs.skip(0) =~= vs);
        assert(views(out@) + drop_pauses_spec(vs) =~= drop_pauses_spec(vs));
    }
    while i < n
        invariant
            n == lines@.len(),
            i <= n,
            vs == views(lines@),
            drop_pauses_spec(vs) == views(out@) + drop_pauses_spec(vs.skip(i as int)),
        decreases n - i,
    {
        let l = &lines[i];
        let ghost tail = vs.skip(i as int);
        proof {
            assert(tail[0] == vs[i as int]);
            assert(tail.drop_first() =~= vs.skip(i + 1));
        }
        if !text_eq(&l.text, "M0 (PAUSE PROGRAM)") {
            let text = copy_range(&l.text, 0, l.text.len());
            proof {
                assert(text@ =~= l.text@);
            }
            let ghost prev = out@;
            out.push(SourceLine { text, loc: l.loc });
            proof {
                assert(views(out@) =~= views(prev).push(vs[i as int]));
                assert(drop_pauses_spec(tail) == seq![tail[0]] + drop_pauses_spec(
                    vs.skip(i + 1),
                ));
                assert(views(prev) + (seq![tail[0]] + drop_pauses_spec(vs.skip(i + 1)))
                    =~= views(out@) + drop_pauses_spec(vs.skip(i + 1)));
            }
        } else {
            proof {
                assert(drop_pauses_spec(tail) == drop_pauses_spec(vs.skip(i + 1)));
            }
        }
        i = i + 1;
    }
    proof {
        assert(vs.skip(n as int).len() == 0);
        assert(drop_pauses_spec(vs.skip(n as int)) == Seq::<LineRec>::empty());
        assert(views(out@) + Seq::<LineRec>::empty() =~= views(out@));
    }
    out
}

/// Emit every record unchanged and, immediately after each record whose text
/// begins with the spindle-on prefix, one synthetic dwell record.
pub fn inject_dwells(lines: &Vec<SourceLine>) -> (r: Vec<SourceLine>)
    ensures
        views(r@) == inject_dwells_spec(views(lines@)),
{
    let ghost vs = views(lines@);
    let n = lines.len();
    let mut out: Vec<SourceLine> = Vec::new();
    let mut i: usize = 0;
    proof {
        assert(vs.skip(0) =~= vs);
        assert(views(out@) + inject_dwells_spec(vs) =~= inject_dwells_spec(vs));
    }
    while i < n
        invariant
            n == lines@.len(),
            i <= n,
            vs == views(lines@),
            inject_dwells_spec(vs) == views(out@) + inject_dwells_spec(vs.skip(i as int)),
        decreases n - i,
    {
        let l = &lines[i];
        let ghost tail = vs.skip(i as int);
        proof {
            assert(tail[0] == vs[i as int]);
            assert(tail.drop_first() =~= vs.skip(i + 1));
        }
        let spindle = begins_with(&l.text, "M3 ");
        let text = copy_range(&l.text, 0, l.text.len());
        proof {
            assert(text@ =~= l.text@);
        }
        let ghost prev = out@;
        out.push(SourceLine { text, loc: l.loc });
        if spindle {
            let dwell = crate::text::chars_of("G4 P8000 (m3tu: added sleep after M3)");
            out.push(SourceLine::synthetic(dwell));
            proof {
                assert(views(out@) =~= views(prev).push(vs[i as int]).push(dwell_rec()));
                assert(inject_dwells_spec(tail) == seq![tail[0], dwell_rec()]
                    + inject_dwells_spec(vs.skip(i + 1)));
                assert(views(prev) + (seq![tail[0], dwell_rec()] + inject_dwells_spec(
                    vs.skip(i + 1),
                )) =~= views(out@) + inject_dwells_spec(vs.skip(i + 1)));
            }
        } else {
            proof {
                assert(views(out@) =~= views(prev).push(vs[i as int]));
                assert(inject_dwells_spec(tail) == seq![tail[0]] + inject_dwells_spec(
                    vs.skip(i + 1),
                ));
                assert(views(prev) + (seq![tail[0]] + inject_dwells_spec(vs.skip(i + 1)))
                    =~= views(out@) + inject_dwells_spec(vs.skip(i + 1)));
            }
        }
        i = i + 1;
    }
    proof {
        assert(vs.skip(n as int).len() == 0);
        assert(inject_dwells_spec(vs.skip(n as int)) == Seq::<LineRec>::empty());
        assert(views(out@) + Seq::<LineRec>::empty() =~= views(out@));
    }
    out
}

/// Remapping, pause removal and dwell injection keep every record well
/// formed: remapping and removal keep provenance, and the dwell record is
/// synthetic.
pub proof fn lemma_stages_preserve_wf(s: Seq<LineRec>)
    requires
        wf_lines(s),
    ensures
        wf_lines(remap_spec(s)),
        wf_lines(drop_pauses_spec(s)),
        wf_lines(inject_dwells_spec(s)),
    decreases s.len(),
{
    assert forall|k: int| 0 <= k < remap_spec(s).len() implies (#[trigger] remap_spec(s)[k]).wf()
        by {
        assert(remap_spec(s)[k] == remap_line(s[k]));
        assert(s[k].wf());
    }
    if s.len() > 0 {
        assert(wf_lines(s.drop_first())) by {
            assert(forall|k: int|
                0 <= k < s.drop_first().len() ==> (#[trigger] s.drop_first()[k]) == s[k + 1]);
        }
        lemma_stages_preserve_wf(s.drop_first());
        assert(s[0].wf());
    }
}

} // verus!
