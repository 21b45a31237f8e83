//! Pipeline-wide laws: properties that relate the passes to one another,
//! stated over the same spec functions that the passes' own contracts use.

use vstd::prelude::*;
use crate::dialect::{generated_marker, pause_text, spindle_on_prefix};
use crate::extract::{
    assign_text, comment_text, lemma_find_axis_match_bounds, rewrite_text,
    collides, collision_msg, extract_all_spec, extract_line_spec, line_error, line_match,
    nested_msg,
};
use crate::line::{render_loc, LineRec};
use crate::pipeline::{pipeline_spec, render_spec};
use crate::splitter::split_spec;
use crate::stages::{drop_pauses_spec, dwell_rec, inject_dwells_spec, remap_spec};
use crate::text::starts_with;

verus! {

/// A line that no pass rewrites, drops, or reacts to: not the pause
/// directive, not a spindle-on command, without a bracketed axis argument,
/// and not an assignment to the reserved temporary register.
pub open spec fn untouched_line(t: Seq<char>) -> bool {
    t != pause_text() && !starts_with(t, spindle_on_prefix()) && line_match(t) is None
        && !collides(t)
}

proof fn lemma_drop_pauses_id(s: Seq<LineRec>)
    requires
        forall|k: int| 0 <= k < s.len() ==> (#[trigger] s[k]).text != pause_text(),
    ensures
        drop_pauses_spec(s) == s,
    decreases s.len(),
{
    if s.len() == 0 {
        assert(drop_pauses_spec(s) =~= s);
    } else {
        assert(forall|k: int|
            0 <= k < s.drop_first().len() ==> (#[trigger] s.drop_first()[k]) == s[k + 1]);
        lemma_drop_pauses_id(s.drop_first());
        assert(seq![s[0]] + s.drop_first() =~= s);
    }
}

proof fn lemma_inject_dwells_id(s: Seq<LineRec>)
    requires
        forall|k: int|
            0 <= k < s.len() ==> !starts_with((#[trigger] s[k]).text, spindle_on_prefix()),
    ensures
        inject_dwells_spec(s) == s,
    decreases s.len(),
{
    if s.len() == 0 {
        assert(inject_dwells_spec(s) =~= s);
    } else {
        assert(forall|k: int|
            0 <= k < s.drop_first().len() ==> (#[trigger] s.drop_first()[k]) == s[k + 1]);
        lemma_inject_dwells_id(s.drop_first());
        assert(seq![s[0]] + s.drop_first() =~= s);
    }
}

proof fn lemma_extract_id(s: Seq<LineRec>)
    requires
        forall|k: int|
            0 <= k < s.len() ==> !collides((#[trigger] s[k]).text) && line_match(s[k].text)
                is None,
    ensures
        extract_all_spec(s) == Ok::<Seq<LineRec>, Seq<char>>(s),
    decreases s.len(),
{
    if s.len() == 0 {
        assert(s =~= Seq::<LineRec>::empty());
    } else {
        assert(forall|k: int|
            0 <= k < s.drop_first().len() ==> (#[trigger] s.drop_first()[k]) == s[k + 1]);
        lemma_extract_id(s.drop_first());
        assert(line_error(s[0]) is None);
        assert(extract_line_spec(s[0]) == seq![s[0]]);
        assert(seq![s[0]] + s.drop_first() =~= s);
    }
}

/// A program whose remapped lines contain no pause directive, no spindle-on
/// command, no bracketed axis argument and no assignment to the reserved
/// register passes through the pipeline with only the probe-register rename
/// applied: the run succeeds and its output renders exactly the renamed
/// split lines, in order.
pub proof fn lemma_plain_program_passes_through(src: Seq<char>)
    requires
        forall|k: int|
            0 <= k < remap_spec(split_spec(src)).len() ==> untouched_line(
                (#[trigger] remap_spec(split_spec(src))[k]).text,
            ),
    ensures
        pipeline_spec(src) == Ok::<Seq<char>, Seq<char>>(
            render_spec(remap_spec(split_spec(src))),
        ),
{
    let s = remap_spec(split_spec(src));
    lemma_drop_pauses_id(s);
    lemma_inject_dwells_id(s);
    lemma_extract_id(s);
}

proof fn lemma_drop_pauses_push(s: Seq<LineRec>, x: LineRec)
    ensures
        drop_pauses_spec(s.push(x)) == (if x.text != pause_text() {
            drop_pauses_spec(s).push(x)
        } else {
            drop_pauses_spec(s)
        }),
    decreases s.len(),
{
    let sp = s.push(x);
    if s.len() == 0 {
        assert(sp.drop_first() =~= Seq::<LineRec>::empty());
        assert(drop_pauses_spec(Seq::<LineRec>::empty()) == Seq::<LineRec>::empty());
        if x.text != pause_text() {
            assert(sp[0] == x);
            assert(drop_pauses_spec(sp) =~= drop_pauses_spec(s).push(x));
        } else {
            assert(drop_pauses_spec(sp) =~= drop_pauses_spec(s));
        }
    } else {
        assert(sp[0] == s[0]);
        assert(sp.drop_first() =~= s.drop_first().push(x));
        lemma_drop_pauses_push(s.drop_first(), x);
        if s[0].text != pause_text() {
            if x.text != pause_text() {
                assert(seq![s[0]] + drop_pauses_spec(s.drop_first()).push(x)
                    =~= (seq![s[0]] + drop_pauses_spec(s.drop_first())).push(x));
            }
        }
    }
}

/// Pause removal is exactly a filter: every record whose text is the pause
/// directive is absent, and all other records survive in their relative
/// order, unchanged.
pub proof fn lemma_remove_pauses_is_filter(s: Seq<LineRec>)
    ensures
        drop_pauses_spec(s) == s.filter(|l: LineRec| l.text != pause_text()),
    decreases s.len(),
{
    reveal(Seq::filter);
    let pred = |l: LineRec| l.text != pause_text();
    if s.len() == 0 {
        assert(s.filter(pred) == s);
        assert(drop_pauses_spec(s) =~= s);
    } else {
        lemma_remove_pauses_is_filter(s.drop_last());
        lemma_drop_pauses_push(s.drop_last(), s.last());
        assert(s.drop_last().push(s.last()) =~= s);
        assert(s.filter(pred) == (if pred(s.last()) {
            s.drop_last().filter(pred).push(s.last())
        } else {
            s.drop_last().filter(pred)
        }));
    }
}

proof fn lemma_drop_pauses_output_not_pause(s: Seq<LineRec>)
    ensures
        forall|k: int|
            0 <= k < drop_pauses_spec(s).len() ==> (#[trigger] drop_pauses_spec(s)[k]).text
                != pause_text(),
    decreases s.len(),
{
    if s.len() > 0 {
        lemma_drop_pauses_output_not_pause(s.drop_first());
        let d = drop_pauses_spec(s);
        let rest = drop_pauses_spec(s.drop_first());
        if s[0].text != pause_text() {
            assert(d == seq![s[0]] + rest);
            assert forall|k: int| 0 <= k < d.len() implies (#[trigger] d[k]).text != pause_text()
                by {
                if k > 0 {
                    assert(d[k] == rest[k - 1]);
                }
            }
        }
    }
}

proof fn lemma_inject_output_not_pause(s: Seq<LineRec>)
    requires
        forall|k: int| 0 <= k < s.len() ==> (#[trigger] s[k]).text != pause_text(),
    ensures
        forall|k: int|
            0 <= k < inject_dwells_spec(s).len() ==> (#[trigger] inject_dwells_spec(s)[k]).text
                != pause_text(),
    decreases s.len(),
{
    reveal_strlit("G4 P8000 (m3tu: added sleep after M3)");
    reveal_strlit("M0 (PAUSE PROGRAM)");
    assert(dwell_rec().text.len() == 37);
    assert(pause_text().len() == 18);
    assert(dwell_rec().text != pause_text());
    if s.len() > 0 {
        assert(forall|k: int|
            0 <= k < s.drop_first().len() ==> (#[trigger] s.drop_first()[k]) == s[k + 1]);
        lemma_inject_output_not_pause(s.drop_first());
        let out = inject_dwells_spec(s);
        let rest = inject_dwells_spec(s.drop_first());
        let head: int = if starts_with(s[0].text, spindle_on_prefix()) {
            2
        } else {
            1
        };
        assert forall|k: int| 0 <= k < out.len() implies (#[trigger] out[k]).text != pause_text()
            by {
            if k == 0 {
                assert(out[0] == s[0]);
            } else if k == 1 && head == 2 {
                assert(out[1] == dwell_rec());
            } else {
                assert(out[k] == rest[k - head]);
            }
        }
    }
}

/// No character of the pause directive is the register-prefix marker.
proof fn lemma_pause_has_no_hash()
    ensures
        forall|k: int| 0 <= k < pause_text().len() ==> pause_text()[k] != '#',
        pause_text().len() == 18,
{
    reveal_strlit("M0 (PAUSE PROGRAM)");
    assert forall|k: int| 0 <= k < pause_text().len() implies pause_text()[k] != '#' by {
        if k == 0 {
        } else if k == 1 {
        } else if k == 2 {
        } else if k == 3 {
        } else if k == 4 {
        } else if k == 5 {
        } else if k == 6 {
        } else if k == 7 {
        } else if k == 8 {
        } else if k == 9 {
        } else if k == 10 {
        } else if k == 11 {
        } else if k == 12 {
        } else if k == 13 {
        } else if k == 14 {
        } else if k == 15 {
        } else if k == 16 {
        } else {
            assert(k == 17);
        }
    }
}

proof fn lemma_extract_line_not_pause(l: LineRec)
    requires
        l.text != pause_text(),
    ensures
        forall|k: int|
            0 <= k < extract_line_spec(l).len() ==> (#[trigger] extract_line_spec(l)[k]).text
                != pause_text(),
{
    match line_match(l.text) {
        None => {},
        Some(m) => {
            lemma_find_axis_match_bounds(l.text, 0, m);
            lemma_pause_has_no_hash();
            reveal_strlit("(m3tu: \"");
            reveal_strlit("#103 = [");
            reveal_strlit("#103");
            reveal_strlit("M0 (PAUSE PROGRAM)");
            assert(comment_text(l.text)[0] == '(');
            assert(pause_text()[0] == 'M');
            assert(comment_text(l.text) != pause_text());
            assert(assign_text(l.text, m)[0] == '#');
            assert(assign_text(l.text, m) != pause_text());
            let r = rewrite_text(l.text, m);
            assert(r[m.0 + 1] == '#');
            if r == pause_text() {
                assert(pause_text()[m.0 + 1] == '#');
                assert(false);
            }
        },
    }
}

proof fn lemma_extract_output_not_pause(s: Seq<LineRec>, out: Seq<LineRec>)
    requires
        forall|k: int| 0 <= k < s.len() ==> (#[trigger] s[k]).text != pause_text(),
        extract_all_spec(s) == Ok::<Seq<LineRec>, Seq<char>>(out),
    ensures
        forall|k: int| 0 <= k < out.len() ==> (#[trigger] out[k]).text != pause_text(),
    decreases s.len(),
{
    if s.len() == 0 {
    } else {
        assert(forall|k: int|
            0 <= k < s.drop_first().len() ==> (#[trigger] s.drop_first()[k]) == s[k + 1]);
        let rest = extract_all_spec(s.drop_first())->Ok_0;
        lemma_extract_output_not_pause(s.drop_first(), rest);
        lemma_extract_line_not_pause(s[0]);
        assert(out == extract_line_spec(s[0]) + rest);
        assert(forall|k: int|
            0 <= k < out.len() ==> (#[trigger] out[k]) == (if k < extract_line_spec(s[0]).len() {
                extract_line_spec(s[0])[k]
            } else {
                rest[k - extract_line_spec(s[0]).len()]
            }));
    }
}

/// On a successful run, no surviving record's text is the pause directive:
/// pause removal drops every such line, and no later pass reintroduces one.
pub proof fn lemma_pause_absent_from_output(src: Seq<char>, out: Seq<LineRec>)
    requires
        extract_all_spec(inject_dwells_spec(drop_pauses_spec(remap_spec(split_spec(src)))))
            == Ok::<Seq<LineRec>, Seq<char>>(out),
    ensures
        forall|k: int| 0 <= k < out.len() ==> (#[trigger] out[k]).text != pause_text(),
{
    let s1 = drop_pauses_spec(remap_spec(split_spec(src)));
    lemma_drop_pauses_output_not_pause(remap_spec(split_spec(src)));
    lemma_inject_output_not_pause(s1);
    lemma_extract_output_not_pause(inject_dwells_spec(s1), out);
}

/// Dwell injection puts, immediately after every record whose text begins
/// with the spindle-on prefix, one synthetic dwell record.
pub proof fn lemma_dwell_follows_spindle(s: Seq<LineRec>, k: int)
    requires
        0 <= k < s.len(),
        starts_with(s[k].text, spindle_on_prefix()),
    ensures
        exists|m: int|
            0 <= m && m + 1 < inject_dwells_spec(s).len() && #[trigger] inject_dwells_spec(s)[m]
                == s[k] && inject_dwells_spec(s)[m + 1] == dwell_rec(),
    decreases s.len(),
{
    let out = inject_dwells_spec(s);
    if k == 0 {
        assert(out[0] == s[0] && out[1] == dwell_rec() && out.len() >= 2);
    } else {
        assert(forall|q: int|
            0 <= q < s.drop_first().len() ==> (#[trigger] s.drop_first()[q]) == s[q + 1]);
        lemma_dwell_follows_spindle(s.drop_first(), k - 1);
        let rest = inject_dwells_spec(s.drop_first());
        let m0 = choose|m: int|
            0 <= m && m + 1 < rest.len() && #[trigger] rest[m] == s.drop_first()[k - 1] && rest[m
                + 1] == dwell_rec();
        if starts_with(s[0].text, spindle_on_prefix()) {
            assert(out[m0 + 2] == rest[m0] && out[m0 + 3] == rest[m0 + 1]);
        } else {
            assert(out[m0 + 1] == rest[m0] && out[m0 + 2] == rest[m0 + 1]);
        }
    }
}

/// Every record of the dwell-injection output is either a record of the
/// input or a synthetic record: the pass inserts nothing that carries a
/// source position.
pub proof fn lemma_injected_lines_are_synthetic(s: Seq<LineRec>)
    ensures
        forall|m: int|
            0 <= m < inject_dwells_spec(s).len() ==> ((exists|k: int|
                0 <= k < s.len() && #[trigger] s[k] == inject_dwells_spec(s)[m])
                || (#[trigger] inject_dwells_spec(s)[m]).loc == -1),
    decreases s.len(),
{
    let out = inject_dwells_spec(s);
    if s.len() > 0 {
        lemma_injected_lines_are_synthetic(s.drop_first());
        let rest = inject_dwells_spec(s.drop_first());
        let head: int = if starts_with(s[0].text, spindle_on_prefix()) {
            2
        } else {
            1
        };
        assert forall|m: int| 0 <= m < out.len() implies ((exists|k: int|
            0 <= k < s.len() && #[trigger] s[k] == out[m]) || (#[trigger] out[m]).loc == -1) by {
            if m == 0 {
                assert(s[0] == out[0]);
            } else if m == 1 && head == 2 {
                assert(out[1] == dwell_rec());
            } else {
                assert(out[m] == rest[m - head]);
                if exists|k: int|
                    0 <= k < s.drop_first().len() && #[trigger] s.drop_first()[k] == rest[m
                        - head] {
                    let k0 = choose|k: int|
                        0 <= k < s.drop_first().len() && #[trigger] s.drop_first()[k] == rest[m
                            - head];
                    assert(s[k0 + 1] == out[m]);
                }
            }
        }
    }
}

/// A record with synthetic provenance renders its position in either
/// diagnostic as the generated-code marker, never as a line number.
pub proof fn lemma_synthetic_error_position(l: LineRec)
    requires
        l.loc == -1,
    ensures
        render_loc(l.loc) == generated_marker(),
        collision_msg(l.loc) == "Temp variable '103' is assigned to on line "@
            + generated_marker(),
        nested_msg(l.text, l.loc) == "Nested brackets are not supported\n\n  "@ + l.text
            + "\n\n(line "@ + generated_marker() + ")"@,
{
}

} // verus!
