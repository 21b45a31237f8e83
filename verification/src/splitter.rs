//! The line splitter: detects the line-ending convention of the raw program
//! text and yields one record per physical line, numbered from 1.

use vstd::prelude::*;
use crate::line::{views, wf_lines, LineRec, SourceLine};
use crate::text::{
    copy_range, find_pat, find_pat_at, lemma_find_pat_none, lemma_find_pat_shift,
    lemma_find_pat_some, occurs_at,
};

verus! {

/// Whether the raw text contains the two-character CRLF sequence.
pub open spec fn has_crlf(s: Seq<char>) -> bool {
    exists|i: int| occurs_at(s, "\r\n"@, i)
}

/// The separator the splitter uses: CRLF when the text contains one,
/// otherwise LF.
pub open spec fn sep_of(s: Seq<char>) -> Seq<char> {
    if has_crlf(s) {
        "\r\n"@
    } else {
        "\n"@
    }
}

/// The pieces of `s` between consecutive occurrences of `sep`, in order.
/// A text without a separator is a single piece; a trailing separator
/// yields a final empty piece.
pub open spec fn split_on(s: Seq<char>, sep: Seq<char>) -> Seq<Seq<char>>
    decreases s.len(),
    when sep.len() >= 1
    via split_on_decreases
{
    match find_pat(s, sep, 0) {
        None => seq![s],
        Some(i) => seq![s.subrange(0, i)] + split_on(s.skip(i + sep.len()), sep),
    }
}

#[via_fn]
proof fn split_on_decreases(s: Seq<char>, sep: Seq<char>) {
    match find_pat(s, sep, 0) {
        None => {},
        Some(i) => {
            lemma_find_pat_some(s, sep, 0, i);
        },
    }
}

/// The pieces turned into records numbered `start`, `start + 1`, ...
pub open spec fn number_from(pieces: Seq<Seq<char>>, start: int) -> Seq<LineRec>
    decreases pieces.len(),
{
    if pieces.len() == 0 {
        Seq::empty()
    } else {
        seq![LineRec { text: pieces[0], loc: start }] + number_from(pieces.drop_first(), start + 1)
    }
}

/// The records the splitter owes for raw text `s`: its pieces under the
/// detected separator, numbered from 1.
pub open spec fn split_spec(s: Seq<char>) -> Seq<LineRec> {
    number_from(split_on(s, sep_of(s)), 1)
}

fn detect_crlf(source: &Vec<char>) -> (r: bool)
    ensures
        r == has_crlf(source@),
{
    proof {
        reveal_strlit("\r\n");
    }
    let found = find_pat_at(source, "\r\n", 0);
    proof {
        match find_pat(source@, "\r\n"@, 0) {
            None => {
                lemma_find_pat_none(source@, "\r\n"@, 0);
            },
            Some(i) => {
                lemma_find_pat_some(source@, "\r\n"@, 0, i);
            },
        }
    }
    found.is_some()
}

/// Split the raw program text into records, one per physical line, numbered
/// 1, 2, 3, ... in file order.  No line is dropped or merged, blank lines
/// included.
pub fn split_lines(source: &Vec<char>) -> (r: Vec<SourceLine>)
    requires
        source@.len() < i64::MAX,
    ensures
        views(r@) == split_spec(source@),
        wf_lines(views(r@)),
{
    let crlf = detect_crlf(source);
    let sep: &str = if crlf {
        "\r\n"
    } else {
        "\n"
    };
    proof {
        reveal_strlit("\r\n");
        reveal_strlit("\n");
        assert(sep@ == sep_of(source@));
        assert(source@.skip(0) =~= source@);
        assert(views(Seq::<SourceLine>::empty()) + number_from(split_on(source@, sep@), 1)
            =~= number_from(split_on(source@, sep@), 1));
    }
    let ghost sepv = sep@;
    let slen: usize = source.len();
    let mut out: Vec<SourceLine> = Vec::new();
    let mut pos: usize = 0;
    loop
        invariant
            slen == source@.len(),
            source@.len() < i64::MAX,
            crlf == has_crlf(source@),
            sepv == sep@,
            sepv == sep_of(source@),
            1 <= sepv.len(),
            pos <= source@.len(),
            out@.len() <= pos,
            wf_lines(views(out@)),
            number_from(split_on(source@, sepv), 1) == views(out@) + number_from(
                split_on(source@.skip(pos as int), sepv),
                out@.len() as int + 1,
            ),
        ensures
            views(out@) == split_spec(source@),
            wf_lines(views(out@)),
        decreases source@.len() - pos,
    {
        let ghost suf = source@.skip(pos as int);
        let found = find_pat_at(source, sep, pos);
        proof {
            lemma_find_pat_shift(source@, sepv, pos as int, 0);
        }
        match found {
            Some(i) => {
                proof {
                    lemma_find_pat_some(source@, sepv, pos as int, i as int);
                    assert(find_pat(suf, sepv, 0) == Some(i - pos));
                    assert(split_on(suf, sepv) == seq![suf.subrange(0, i - pos)] + split_on(
                        suf.skip(i - pos + sepv.len()),
                        sepv,
                    ));
                    assert(suf.subrange(0, i - pos) =~= source@.subrange(pos as int, i as int));
                    assert(suf.skip(i - pos + sepv.len()) =~= source@.skip(i + sepv.len()));
                }
                let piece = copy_range(source, pos, i);
                let n: i64 = out.len() as i64 + 1;
                let ghost prev = out@;
                out.push(SourceLine::original(piece, n));
                proof {
                    assert(views(out@) =~= views(prev).push(
                        LineRec { text: suf.subrange(0, i - pos), loc: prev.len() as int + 1 },
                    ));
                    let rest = split_on(source@.skip(i + sepv.len()), sepv);
                    let pieces = split_on(suf, sepv);
                    assert(pieces.drop_first() =~= rest);
                    assert(number_from(pieces, prev.len() as int + 1) == seq![
                        LineRec { text: suf.subrange(0, i - pos), loc: prev.len() as int + 1 },
                    ] + number_from(rest, prev.len() as int + 2));
                    assert(views(prev) + number_from(pieces, prev.len() as int + 1) =~= views(out@)
                        + number_from(rest, out@.len() as int + 1));
                    assert(wf_lines(views(out@)));
                }
                let sep_len: usize = if crlf {
                    2
                } else {
                    1
                };
                proof {
                    reveal_strlit("\r\n");
                    reveal_strlit("\n");
                    assert(sep_len == sepv.len());
                    assert(i + sep_len <= slen);
                }
                pos = i + sep_len;
            },
            None => {
                proof {
                    assert(find_pat(suf, sepv, 0) is None);
                    assert(split_on(suf, sepv) == seq![suf]);
                    assert(suf =~= source@.subrange(pos as int, source@.len() as int));
                }
                let piece = copy_range(source, pos, source.len());
                let n: i64 = out.len() as i64 + 1;
                let ghost prev = out@;
                out.push(SourceLine::original(piece, n));
                proof {
                    assert(views(out@) =~= views(prev).push(
                        LineRec { text: suf, loc: prev.len() as int + 1 },
                    ));
                    let c = prev.len() as int + 1;
                    assert(seq![suf].drop_first() =~= Seq::<Seq<char>>::empty());
                    assert(number_from(Seq::<Seq<char>>::empty(), c + 1)
                        == Seq::<LineRec>::empty());
                    assert(number_from(seq![suf], c) =~= seq![LineRec { text: suf, loc: c }]);
                    assert(views(prev) + number_from(split_on(suf, sepv), prev.len() as int + 1)
                        =~= views(out@));
                    assert(wf_lines(views(out@)));
                }
                return out;
            },
        }
    }
}

} // verus!
