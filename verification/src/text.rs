//! Verified utilities over character sequences.
//!
//! Program lines are handled as `Vec<char>` so that every pass can state its
//! effect over the mathematical view `Seq<char>`.

use vstd::prelude::*;
use vstd::string::StrSliceExecFns;

verus! {

/// The characters of a string slice, as an indexable vector.
pub fn chars_of(s: &str) -> (r: Vec<char>)
    ensures
        r@ == s@,
{
    let n = s.unicode_len();
    let mut r: Vec<char> = Vec::new();
    let mut i: usize = 0;
    while i < n
        invariant
            n == s@.len(),
            i <= n,
            r@ == s@.subrange(0, i as int),
        decreases n - i,
    {
        r.push(s.get_char(i));
        i = i + 1;
        proof {
            assert(r@ =~= s@.subrange(0, i as int));
        }
    }
    proof {
        assert(r@ =~= s@);
    }
    r
}

/// Append the characters of a string slice to a vector.
pub fn push_str_chars(dst: &mut Vec<char>, s: &str)
    ensures
        final(dst)@ == old(dst)@ + s@,
{
    let n = s.unicode_len();
    let mut i: usize = 0;
    while i < n
        invariant
            n == s@.len(),
            i <= n,
            dst@ == old(dst)@ + s@.subrange(0, i as int),
        decreases n - i,
    {
        dst.push(s.get_char(i));
        i = i + 1;
        proof {
            assert(dst@ =~= old(dst)@ + s@.subrange(0, i as int));
        }
    }
    proof {
        assert(old(dst)@ + s@.subrange(0, n as int) =~= old(dst)@ + s@);
    }
}

/// Append the characters of another vector to a vector.
pub fn push_chars(dst: &mut Vec<char>, src: &Vec<char>)
    ensures
        final(dst)@ == old(dst)@ + src@,
{
    let n = src.len();
    let mut i: usize = 0;
    while i < n
        invariant
            n == src@.len(),
            i <= n,
            dst@ == old(dst)@ + src@.subrange(0, i as int),
        decreases n - i,
    {
        dst.push(src[i]);
        i = i + 1;
        proof {
            assert(dst@ =~= old(dst)@ + src@.subrange(0, i as int));
        }
    }
    proof {
        assert(old(dst)@ + src@.subrange(0, n as int) =~= old(dst)@ + src@);
    }
}

/// A copy of a range `[from, to)` of a vector.
pub fn copy_range(t: &Vec<char>, from: usize, to: usize) -> (r: Vec<char>)
    requires
        from <= to <= t@.len(),
    ensures
        r@ == t@.subrange(from as int, to as int),
{
    let mut r: Vec<char> = Vec::new();
    let mut i: usize = from;
    while i < to
        invariant
            from <= i <= to <= t@.len(),
            r@ == t@.subrange(from as int, i as int),
        decreases to - i,
    {
        r.push(t[i]);
        i = i + 1;
        proof {
            assert(r@ =~= t@.subrange(from as int, i as int));
        }
    }
    r
}

/// `p` is a prefix of `t`.
pub open spec fn starts_with(t: Seq<char>, p: Seq<char>) -> bool {
    p.len() <= t.len() && t.subrange(0, p.len() as int) == p
}

/// Whether the text begins with the given literal prefix.
pub fn begins_with(t: &Vec<char>, p: &str) -> (r: bool)
    ensures
        r == starts_with(t@, p@),
{
    let plen = p.unicode_len();
    if plen > t.len() {
        return false;
    }
    let mut i: usize = 0;
    while i < plen
        invariant
            plen == p@.len(),
            plen <= t@.len(),
            i <= plen,
            forall|k: int| 0 <= k < i ==> t@[k] == p@[k],
        decreases plen - i,
    {
        if t[i] != p.get_char(i) {
            proof {
                assert(t@.subrange(0, plen as int)[i as int] != p@[i as int]);
            }
            return false;
        }
        i = i + 1;
    }
    proof {
        assert(t@.subrange(0, plen as int) =~= p@);
    }
    true
}

/// Whether the text equals the given literal.
pub fn text_eq(t: &Vec<char>, p: &str) -> (r: bool)
    ensures
        r == (t@ == p@),
{
    let plen = p.unicode_len();
    if plen != t.len() {
        return false;
    }
    let mut i: usize = 0;
    while i < plen
        invariant
            plen == p@.len(),
            plen == t@.len(),
            i <= plen,
            forall|k: int| 0 <= k < i ==> t@[k] == p@[k],
        decreases plen - i,
    {
        if t[i] != p.get_char(i) {
            return false;
        }
        i = i + 1;
    }
    proof {
        assert(t@ =~= p@);
    }
    true
}

/// The pattern `p` occurs in `t` at position `i`.
pub open spec fn occurs_at(t: Seq<char>, p: Seq<char>, i: int) -> bool {
    0 <= i && i + p.len() <= t.len() && t.subrange(i, i + p.len()) == p
}

/// Whether the pattern occurs in the text at position `i`.
pub fn check_occurs_at(t: &Vec<char>, p: &str, i: usize) -> (r: bool)
    ensures
        r == occurs_at(t@, p@, i as int),
{
    let plen = p.unicode_len();
    if i > t.len() || plen > t.len() - i {
        return false;
    }
    let tlen = t.len();
    let mut k: usize = 0;
    while k < plen
        invariant
            plen == p@.len(),
            i + plen <= tlen,
            tlen == t@.len(),
            k <= plen,
            forall|m: int| 0 <= m < k ==> t@[i + m] == p@[m],
        decreases plen - k,
    {
        if t[i + k] != p.get_char(k) {
            proof {
                assert(t@.subrange(i as int, i + p@.len())[k as int] != p@[k as int]);
            }
            return false;
        }
        k = k + 1;
    }
    proof {
        assert(t@.subrange(i as int, i + p@.len()) =~= p@);
    }
    true
}

/// Position of the first occurrence of `pat` in `s` at or after `from`.
pub open spec fn find_pat(s: Seq<char>, pat: Seq<char>, from: int) -> Option<int>
    decreases s.len() - from,
    when 0 <= from && pat.len() >= 1
{
    if from + pat.len() > s.len() {
        None
    } else if occurs_at(s, pat, from) {
        Some(from)
    } else {
        find_pat(s, pat, from + 1)
    }
}

/// First occurrence of the literal pattern at or after `from`, if any.
pub fn find_pat_at(t: &Vec<char>, pat: &str, from: usize) -> (r: Option<usize>)
    requires
        pat@.len() >= 1,
    ensures
        match r {
            Some(i) => from <= i && Some(i as int) == find_pat(t@, pat@, from as int),
            None => find_pat(t@, pat@, from as int) is None,
        },
{
    let mut i: usize = from;
    loop
        invariant
            pat@.len() >= 1,
            from <= i,
            find_pat(t@, pat@, from as int) == find_pat(t@, pat@, i as int),
        decreases t@.len() + pat@.len() - i,
    {
        if check_occurs_at(t, pat, i) {
            return Some(i);
        }
        if i >= t.len() {
            return None;
        }
        i = i + 1;
    }
}

/// A found occurrence lies at or after the start of the search, fits in the
/// text, and is the first occurrence from there.
pub proof fn lemma_find_pat_some(s: Seq<char>, pat: Seq<char>, from: int, i: int)
    requires
        pat.len() >= 1,
        0 <= from,
        find_pat(s, pat, from) == Some(i),
    ensures
        from <= i,
        occurs_at(s, pat, i),
        forall|k: int| from <= k < i ==> !occurs_at(s, pat, k),
    decreases s.len() - from,
{
    if from + pat.len() > s.len() {
        assert(false);
    } else if occurs_at(s, pat, from) {
    } else {
        lemma_find_pat_some(s, pat, from + 1, i);
    }
}

/// A failed search means no occurrence at or after the start.
pub proof fn lemma_find_pat_none(s: Seq<char>, pat: Seq<char>, from: int)
    requires
        pat.len() >= 1,
        0 <= from,
        find_pat(s, pat, from) is None,
    ensures
        forall|k: int| from <= k ==> !occurs_at(s, pat, k),
    decreases s.len() - from,
{
    if from + pat.len() > s.len() {
        assert forall|k: int| from <= k implies !occurs_at(s, pat, k) by {}
    } else if occurs_at(s, pat, from) {
        assert(false);
    } else {
        lemma_find_pat_none(s, pat, from + 1);
    }
}

/// Searching the whole text from `pos + k` agrees with searching the suffix
/// that starts at `pos` from `k`.
pub proof fn lemma_find_pat_shift(s: Seq<char>, pat: Seq<char>, pos: int, k: int)
    requires
        pat.len() >= 1,
        0 <= pos <= s.len(),
        0 <= k,
    ensures
        find_pat(s, pat, pos + k) == match find_pat(s.skip(pos), pat, k) {
            None => None::<int>,
            Some(j) => Some(pos + j),
        },
    decreases s.len() - pos - k,
{
    let suf = s.skip(pos);
    assert(suf.len() == s.len() - pos);
    if pos + k + pat.len() <= s.len() {
        assert(s.subrange(pos + k, pos + k + pat.len()) =~= suf.subrange(k, k + pat.len()));
        assert(occurs_at(s, pat, pos + k) == occurs_at(suf, pat, k));
        if !occurs_at(suf, pat, k) {
            lemma_find_pat_shift(s, pat, pos, k + 1);
        }
    }
}

/// Left-to-right, non-overlapping replacement of every occurrence of `pat`
/// by `rep`.
pub open spec fn replace_all(s: Seq<char>, pat: Seq<char>, rep: Seq<char>) -> Seq<char>
    decreases s.len(),
    when pat.len() >= 1
{
    if s.len() < pat.len() {
        s
    } else if s.subrange(0, pat.len() as int) == pat {
        rep + replace_all(s.skip(pat.len() as int), pat, rep)
    } else {
        seq![s[0]] + replace_all(s.skip(1), pat, rep)
    }
}

/// Replace every occurrence of the literal `pat` by the literal `rep`,
/// scanning left to right without overlap.
pub fn replace_all_chars(t: &Vec<char>, pat: &str, rep: &str) -> (r: Vec<char>)
    requires
        pat@.len() >= 1,
    ensures
        r@ == replace_all(t@, pat@, rep@),
{
    let plen = pat.unicode_len();
    let mut out: Vec<char> = Vec::new();
    let mut i: usize = 0;
    proof {
        assert(t@.skip(0) =~= t@);
        assert(Seq::<char>::empty() + replace_all(t@, pat@, rep@) =~= replace_all(
            t@,
            pat@,
            rep@,
        ));
    }
    while i < t.len()
        invariant
            plen == pat@.len(),
            1 <= plen,
            i <= t@.len(),
            replace_all(t@, pat@, rep@) == out@ + replace_all(t@.skip(i as int), pat@, rep@),
        decreases t@.len() - i,
    {
        let ghost tail = t@.skip(i as int);
        if check_occurs_at(t, pat, i) {
            proof {
                assert(tail.subrange(0, plen as int) =~= t@.subrange(
                    i as int,
                    i + plen,
                ));
                assert(tail.skip(plen as int) =~= t@.skip(i + plen));
                assert(replace_all(tail, pat@, rep@) == rep@ + replace_all(
                    t@.skip(i + plen),
                    pat@,
                    rep@,
                ));
            }
            let ghost old_out = out@;
            push_str_chars(&mut out, rep);
            i = i + plen;
            proof {
                assert(old_out + (rep@ + replace_all(t@.skip(i as int), pat@, rep@)) =~= out@
                    + replace_all(t@.skip(i as int), pat@, rep@));
            }
        } else {
            proof {
                assert(tail.len() == t@.len() - i);
                if tail.len() >= plen {
                    assert(tail.subrange(0, plen as int) =~= t@.subrange(i as int, i + plen));
                    assert(tail.subrange(0, plen as int) != pat@);
                    assert(tail.skip(1) =~= t@.skip(i + 1));
                    assert(replace_all(tail, pat@, rep@) == seq![tail[0]] + replace_all(
                        t@.skip(i + 1),
                        pat@,
                        rep@,
                    ));
                } else {
                    assert(replace_all(tail, pat@, rep@) == tail);
                    assert(t@.skip(i + 1).len() < plen);
                    assert(replace_all(t@.skip(i + 1), pat@, rep@) == t@.skip(i + 1));
                    assert(tail =~= seq![tail[0]] + t@.skip(i + 1));
                }
            }
            let ghost old_out = out@;
            out.push(t[i]);
            i = i + 1;
            proof {
                assert(old_out + (seq![t@[i - 1]] + replace_all(t@.skip(i as int), pat@, rep@))
                    =~= out@ + replace_all(t@.skip(i as int), pat@, rep@));
            }
        }
    }
    proof {
        assert(t@.skip(t@.len() as int).len() == 0);
        assert(replace_all(t@.skip(t@.len() as int), pat@, rep@) == t@.skip(t@.len() as int));
        assert(out@ + t@.skip(t@.len() as int) =~= out@);
    }
    out
}

/// ASCII whitespace, the characters trimmed from instruction text.
pub open spec fn is_space(c: char) -> bool {
    c == ' ' || c == '\t' || c == '\r' || c == '\n'
}

/// `s` without its leading whitespace.
pub open spec fn trim_start_spec(s: Seq<char>) -> Seq<char>
    decreases s.len(),
{
    if s.len() > 0 && is_space(s[0]) {
        trim_start_spec(s.drop_first())
    } else {
        s
    }
}

/// `s` without its trailing whitespace.
pub open spec fn trim_end_spec(s: Seq<char>) -> Seq<char>
    decreases s.len(),
{
    if s.len() > 0 && is_space(s[s.len() - 1]) {
        trim_end_spec(s.drop_last())
    } else {
        s
    }
}

/// `s` without leading and trailing whitespace.
pub open spec fn trim_spec(s: Seq<char>) -> Seq<char> {
    trim_end_spec(trim_start_spec(s))
}

fn is_space_char(c: char) -> (r: bool)
    ensures
        r == is_space(c),
{
    c == ' ' || c == '\t' || c == '\r' || c == '\n'
}

/// The text without leading and trailing whitespace.
pub fn trim_chars(t: &Vec<char>) -> (r: Vec<char>)
    ensures
        r@ == trim_spec(t@),
{
    let tlen = t.len();
    let mut a: usize = 0;
    proof {
        assert(t@.skip(0) =~= t@);
    }
    while a < tlen && is_space_char(t[a])
        invariant
            tlen == t@.len(),
            a <= tlen,
            trim_start_spec(t@) == trim_start_spec(t@.skip(a as int)),
        decreases tlen - a,
    {
        proof {
            assert(t@.skip(a as int).drop_first() =~= t@.skip(a + 1));
        }
        a = a + 1;
    }
    proof {
        assert(trim_start_spec(t@.skip(a as int)) == t@.skip(a as int));
        assert(t@.skip(a as int) =~= t@.subrange(a as int, tlen as int));
    }
    let mut b: usize = tlen;
    while b > a && is_space_char(t[b - 1])
        invariant
            tlen == t@.len(),
            a <= b <= tlen,
            trim_end_spec(t@.skip(a as int)) == trim_end_spec(t@.subrange(a as int, b as int)),
        decreases b,
    {
        proof {
            assert(t@.subrange(a as int, b as int).drop_last() =~= t@.subrange(a as int, b - 1));
        }
        b = b - 1;
    }
    proof {
        assert(trim_end_spec(t@.subrange(a as int, b as int)) == t@.subrange(a as int, b as int));
    }
    copy_range(t, a, b)
}

/// The character for the decimal digit `d`.
pub open spec fn digit_char(d: int) -> char {
    ((d + 48) as u8) as char
}

/// The decimal digits of `n`, most significant first, with no sign and no
/// leading zero.
pub open spec fn dec_digits(n: int) -> Seq<char>
    decreases n,
{
    if n < 10 {
        seq![digit_char(n)]
    } else {
        dec_digits(n / 10).push(digit_char(n % 10))
    }
}

/// The decimal rendering of `n`.
pub fn render_u64(n: u64) -> (r: Vec<char>)
    ensures
        r@ == dec_digits(n as int),
{
    let mut out: Vec<char> = Vec::new();
    let mut m: u64 = n;
    while m >= 10
        invariant
            dec_digits(n as int) == dec_digits(m as int) + out@,
        decreases m,
    {
        let d: u8 = (m % 10) as u8;
        let ghost prev = out@;
        let ghost mm = m as int;
        out.insert(0, (d + 48) as char);
        proof {
            assert(out@ =~= seq![digit_char(mm % 10)] + prev);
            assert(dec_digits(mm) =~= dec_digits(mm / 10) + seq![digit_char(mm % 10)]);
            assert(dec_digits(mm / 10) + (seq![digit_char(mm % 10)] + prev) =~= dec_digits(mm)
                + prev);
        }
        m = m / 10;
    }
    let d: u8 = m as u8;
    let ghost prev = out@;
    out.insert(0, (d + 48) as char);
    proof {
        assert(out@ =~= seq![digit_char(m as int)] + prev);
        assert(dec_digits(m as int) =~= seq![digit_char(m as int)]);
        assert(seq![digit_char(m as int)] + prev =~= dec_digits(m as int) + prev);
    }
    out
}

} // verus!
