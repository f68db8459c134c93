//! Character-level text utilities shared by the snippet synthesizer, the
//! sanitizers and the transport-format codec.
//!
//! Everything here works on `Vec<char>` so that indexing is cheap and every
//! function can carry an exact contract over the corresponding `Seq<char>`.

use vstd::prelude::*;

verus! {

// ---------------------------------------------------------------------------
// chars <-> strings
// ---------------------------------------------------------------------------

/// Relies on `String::push`: appends one character at the end of the string.
#[verifier::external_body]
pub fn push_char(s: &mut String, c: char)
    ensures
        final(s)@ == old(s)@ + seq![c],
{
    s.push(c);
}

pub fn to_char_vec(s: &str) -> (r: Vec<char>)
    ensures
        r@ == s@,
{
    let n = s.unicode_len();
    let mut r: Vec<char> = Vec::new();
    let mut i: usize = 0;
    while i < n
        invariant
            n == s@.len(),
            i <= n,
            r@ == s@.take(i as int),
        decreases n - i,
    {
        r.push(s.get_char(i));
        i = i + 1;
        proof {
            assert(r@ =~= s@.take(i as int));
        }
    }
    proof {
        assert(s@.take(n as int) =~= s@);
    }
    r
}

pub fn chars_to_string(v: &Vec<char>) -> (r: String)
    ensures
        r@ == v@,
{
    let mut r = String::new();
    let mut i: usize = 0;
    while i < v.len()
        invariant
            i <= v@.len(),
            r@ == v@.take(i as int),
        decreases v@.len() - i,
    {
        push_char(&mut r, v[i]);
        i = i + 1;
        proof {
            assert(r@ =~= v@.take(i as int));
        }
    }
    proof {
        assert(v@.take(v@.len() as int) =~= v@);
    }
    r
}

pub fn push_all(out: &mut Vec<char>, xs: &Vec<char>)
    ensures
        final(out)@ == old(out)@ + xs@,
{
    let mut k: usize = 0;
    while k < xs.len()
        invariant
            k <= xs@.len(),
            out@ == old(out)@ + xs@.take(k as int),
        decreases xs@.len() - k,
    {
        out.push(xs[k]);
        k = k + 1;
        proof {
            assert(out@ =~= old(out)@ + xs@.take(k as int));
        }
    }
    proof {
        assert(xs@.take(xs@.len() as int) =~= xs@);
    }
}

pub fn copy_chars(s: &Vec<char>) -> (r: Vec<char>)
    ensures
        r@ == s@,
{
    let mut r: Vec<char> = Vec::new();
    push_all(&mut r, s);
    proof {
        assert(Seq::<char>::empty() + s@ =~= s@);
    }
    r
}

/// Character-by-character equality of two string slices.
pub fn str_eq(a: &str, b: &str) -> (r: bool)
    ensures
        r == (a@ == b@),
{
    let na = a.unicode_len();
    let nb = b.unicode_len();
    if na != nb {
        return false;
    }
    let mut i: usize = 0;
    while i < na
        invariant
            na == a@.len(),
            na == b@.len(),
            i <= na,
            forall|j: int| 0 <= j < i ==> a@[j] == b@[j],
        decreases na - i,
    {
        if a.get_char(i) != b.get_char(i) {
            return false;
        }
        i = i + 1;
    }
    proof {
        assert(a@ =~= b@);
    }
    true
}

// ---------------------------------------------------------------------------
// substring matching
// ---------------------------------------------------------------------------

pub open spec fn spec_match_at(h: Seq<char>, n: Seq<char>, i: int) -> bool {
    0 <= i && i + n.len() <= h.len() && h.subrange(i, i + n.len() as int) == n
}

pub open spec fn spec_contains(h: Seq<char>, n: Seq<char>) -> bool {
    exists|i: int| spec_match_at(h, n, i)
}

pub fn match_at(s: &Vec<char>, i: usize, pat: &Vec<char>) -> (r: bool)
    requires
        i + pat@.len() <= s@.len(),
    ensures
        r == (s@.subrange(i as int, i as int + pat@.len() as int) == pat@),
{
    let slen = s.len();
    let plen = pat.len();
    let mut k: usize = 0;
    while k < plen
        invariant
            slen == s@.len(),
            plen == pat@.len(),
            i + plen <= slen,
            k <= plen,
            forall|j: int| 0 <= j < k ==> s@[i + j] == pat@[j],
        decreases plen - k,
    {
        if s[i + k] != pat[k] {
            proof {
                assert(s@.subrange(i as int, i as int + pat@.len() as int)[k as int]
                    != pat@[k as int]);
            }
            return false;
        }
        k = k + 1;
    }
    proof {
        assert(s@.subrange(i as int, i as int + pat@.len() as int) =~= pat@);
    }
    true
}

pub fn contains_chars(h: &Vec<char>, n: &Vec<char>) -> (r: bool)
    ensures
        r == spec_contains(h@, n@),
{
    let hlen = h.len();
    let nlen = n.len();
    if nlen == 0 {
        proof {
            assert(h@.subrange(0, 0) =~= n@);
            assert(spec_match_at(h@, n@, 0));
        }
        return true;
    }
    if nlen > hlen {
        proof {
            assert(forall|i: int| !spec_match_at(h@, n@, i));
        }
        return false;
    }
    let mut i: usize = 0;
    while i <= hlen - nlen
        invariant
            hlen == h@.len(),
            nlen == n@.len(),
            1 <= nlen <= hlen,
            i <= hlen,
            forall|j: int| 0 <= j < i ==> !spec_match_at(h@, n@, j),
        decreases hlen - i,
    {
        if match_at(h, i, n) {
            proof {
                assert(spec_match_at(h@, n@, i as int));
            }
            return true;
        }
        i = i + 1;
    }
    proof {
        assert(forall|j: int| !spec_match_at(h@, n@, j));
    }
    false
}

// ---------------------------------------------------------------------------
// leftmost non-overlapping replacement
// ---------------------------------------------------------------------------

/// Leftmost, non-overlapping replacement of `pat` by `rep`, the semantics of
/// `str::replace`; replacement text is never rescanned.
pub open spec fn spec_replace(s: Seq<char>, pat: Seq<char>, rep: Seq<char>) -> Seq<char>
    decreases s.len(),
{
    if pat.len() == 0 || s.len() < pat.len() {
        s
    } else if s.take(pat.len() as int) == pat {
        rep + spec_replace(s.skip(pat.len() as int), pat, rep)
    } else {
        seq![s[0]] + spec_replace(s.skip(1), pat, rep)
    }
}

pub fn replace_chars(s: &Vec<char>, pat: &Vec<char>, rep: &Vec<char>) -> (r: Vec<char>)
    ensures
        r@ == spec_replace(s@, pat@, rep@),
{
    let slen = s.len();
    let plen = pat.len();
    if plen == 0 {
        return copy_chars(s);
    }
    let mut out: Vec<char> = Vec::new();
    let mut i: usize = 0;
    proof {
        assert(s@.skip(0) =~= s@);
        assert(Seq::<char>::empty() + spec_replace(s@, pat@, rep@) =~= spec_replace(
            s@,
            pat@,
            rep@,
        ));
    }
    while i < slen
        invariant
            slen == s@.len(),
            plen == pat@.len(),
            plen >= 1,
            i <= slen,
            spec_replace(s@, pat@, rep@) == out@ + spec_replace(s@.skip(i as int), pat@, rep@),
        decreases slen - i,
    {
        if plen <= slen - i && match_at(s, i, pat) {
            proof {
                assert(s@.skip(i as int).take(plen as int) =~= s@.subrange(
                    i as int,
                    i + plen as int,
                ));
                assert(s@.skip(i as int).skip(plen as int) =~= s@.skip(i + plen as int));
            }
            push_all(&mut out, rep);
            i = i + plen;
        } else {
            proof {
                assert(s@.skip(i as int)[0] == s@[i as int]);
                assert(s@.skip(i as int).skip(1) =~= s@.skip(i as int + 1));
                if i + plen <= slen {
                    assert(s@.skip(i as int).take(plen as int) =~= s@.subrange(
                        i as int,
                        i + plen as int,
                    ));
                }
            }
            out.push(s[i]);
            i = i + 1;
        }
    }
    proof {
        assert(s@.skip(slen as int) =~= Seq::<char>::empty());
        assert(out@ + Seq::<char>::empty() =~= out@);
    }
    out
}

// ---------------------------------------------------------------------------
// whitespace, trimming
// ---------------------------------------------------------------------------

/// The ASCII whitespace characters this library trims.
pub open spec fn is_space_char(c: char) -> bool {
    c == ' ' || c == '\t' || c == '\r' || c == '\n'
}

pub fn is_space(c: char) -> (r: bool)
    ensures
        r == is_space_char(c),
{
    c == ' ' || c == '\t' || c == '\r' || c == '\n'
}

pub open spec fn spec_trim_start(s: Seq<char>) -> Seq<char>
    decreases s.len(),
{
    if s.len() > 0 && is_space_char(s[0]) {
        spec_trim_start(s.skip(1))
    } else {
        s
    }
}

pub open spec fn spec_trim_end(s: Seq<char>) -> Seq<char>
    decreases s.len(),
{
    if s.len() > 0 && is_space_char(s[s.len() - 1]) {
        spec_trim_end(s.take(s.len() - 1))
    } else {
        s
    }
}

/// Both ends trimmed of ASCII whitespace.
pub open spec fn spec_trim(s: Seq<char>) -> Seq<char> {
    spec_trim_end(spec_trim_start(s))
}

pub fn trim_chars(s: &Vec<char>) -> (r: Vec<char>)
    ensures
        r@ == spec_trim(s@),
{
    let slen = s.len();
    let mut lo: usize = 0;
    proof {
        assert(s@.skip(0) =~= s@);
    }
    while lo < slen && is_space(s[lo])
        invariant
            slen == s@.len(),
            lo <= slen,
            spec_trim_start(s@) == spec_trim_start(s@.skip(lo as int)),
        decreases slen - lo,
    {
        proof {
            assert(s@.skip(lo as int)[0] == s@[lo as int]);
            assert(s@.skip(lo as int).skip(1) =~= s@.skip(lo as int + 1));
        }
        lo = lo + 1;
    }
    if lo == slen {
        proof {
            assert(s@.skip(lo as int) =~= Seq::<char>::empty());
        }
        return Vec::new();
    }
    proof {
        assert(spec_trim_start(s@) == s@.skip(lo as int));
        assert(s@.skip(lo as int) =~= s@.subrange(lo as int, slen as int));
    }
    let mut hi: usize = slen;
    while hi > lo && is_space(s[hi - 1])
        invariant
            slen == s@.len(),
            lo < hi <= slen,
            !is_space_char(s@[lo as int]),
            spec_trim_end(s@.skip(lo as int)) == spec_trim_end(
                s@.subrange(lo as int, hi as int),
            ),
        decreases hi,
    {
        proof {
            let t = s@.subrange(lo as int, hi as int);
            assert(t[t.len() - 1] == s@[hi as int - 1]);
            assert(t.take(t.len() - 1) =~= s@.subrange(lo as int, hi as int - 1));
            if hi - 1 == lo {
                assert(s@[lo as int] == s@[hi as int - 1]);
                assert(false);
            }
        }
        hi = hi - 1;
    }
    proof {
        let t = s@.subrange(lo as int, hi as int);
        assert(t[t.len() - 1] == s@[hi as int - 1]);
        assert(spec_trim_end(t) == t);
    }
    let mut r: Vec<char> = Vec::new();
    let mut j: usize = lo;
    while j < hi
        invariant
            slen == s@.len(),
            lo <= j <= hi <= slen,
            r@ == s@.subrange(lo as int, j as int),
        decreases hi - j,
    {
        r.push(s[j]);
        j = j + 1;
        proof {
            assert(r@ =~= s@.subrange(lo as int, j as int));
        }
    }
    r
}

// ---------------------------------------------------------------------------
// splitting on newlines, joining with a separator
// ---------------------------------------------------------------------------

/// Index of the first `'\n'`, or `-1` when there is none.
pub open spec fn spec_find_nl(s: Seq<char>) -> int
    decreases s.len(),
{
    if s.len() == 0 {
        -1
    } else if s[0] == '\n' {
        0
    } else {
        let r = spec_find_nl(s.skip(1));
        if r == -1 {
            -1
        } else {
            r + 1
        }
    }
}

pub open spec fn spec_split_nl(s: Seq<char>) -> Seq<Seq<char>>
    decreases s.len(),
{
    let i = spec_find_nl(s);
    if 0 <= i < s.len() {
        seq![s.take(i)] + spec_split_nl(s.skip(i + 1))
    } else {
        seq![s]
    }
}

proof fn lemma_find_nl_none(s: Seq<char>)
    requires
        forall|j: int| 0 <= j < s.len() ==> s[j] != '\n',
    ensures
        spec_find_nl(s) == -1,
    decreases s.len(),
{
    if s.len() > 0 {
        assert forall|j: int| 0 <= j < s.skip(1).len() implies s.skip(1)[j] != '\n' by {
            assert(s.skip(1)[j] == s[j + 1]);
        }
        lemma_find_nl_none(s.skip(1));
    }
}

proof fn lemma_find_nl_at(s: Seq<char>, k: int)
    requires
        0 <= k < s.len(),
        s[k] == '\n',
        forall|j: int| 0 <= j < k ==> s[j] != '\n',
    ensures
        spec_find_nl(s) == k,
    decreases s.len(),
{
    if k > 0 {
        assert(s.skip(1)[k - 1] == s[k]);
        assert forall|j: int| 0 <= j < k - 1 implies s.skip(1)[j] != '\n' by {
            assert(s.skip(1)[j] == s[j + 1]);
        }
        lemma_find_nl_at(s.skip(1), k - 1);
    }
}

pub open spec fn views_of(rs: Seq<Vec<char>>) -> Seq<Seq<char>> {
    Seq::new(rs.len(), |k: int| rs[k]@)
}

pub fn split_newlines(s: &Vec<char>) -> (r: Vec<Vec<char>>)
    ensures
        views_of(r@) == spec_split_nl(s@),
{
    let slen = s.len();
    let mut r: Vec<Vec<char>> = Vec::new();
    let mut start: usize = 0;
    let mut i: usize = 0;
    proof {
        assert(s@.skip(0) =~= s@);
        assert(views_of(r@) =~= Seq::<Seq<char>>::empty());
        assert(Seq::<Seq<char>>::empty() + spec_split_nl(s@) =~= spec_split_nl(s@));
    }
    while i < slen
        invariant
            slen == s@.len(),
            start <= i <= slen,
            forall|j: int| start <= j < i ==> s@[j] != '\n',
            spec_split_nl(s@) == views_of(r@) + spec_split_nl(s@.skip(start as int)),
        decreases slen - i,
    {
        if s[i] == '\n' {
            let mut seg: Vec<char> = Vec::new();
            let mut j: usize = start;
            while j < i
                invariant
                    slen == s@.len(),
                    start <= j <= i <= slen,
                    seg@ == s@.subrange(start as int, j as int),
                decreases i - j,
            {
                seg.push(s[j]);
                j = j + 1;
                proof {
                    assert(seg@ =~= s@.subrange(start as int, j as int));
                }
            }
            proof {
                let t = s@.skip(start as int);
                assert(t[i - start] == s@[i as int]);
                assert forall|j2: int| 0 <= j2 < i - start implies t[j2] != '\n' by {
                    assert(t[j2] == s@[start + j2]);
                }
                lemma_find_nl_at(t, i - start);
                assert(t.take(i - start) =~= s@.subrange(start as int, i as int));
                assert(t.skip(i - start + 1) =~= s@.skip(i as int + 1));
                assert(spec_split_nl(t) == seq![seg@] + spec_split_nl(s@.skip(i as int + 1)));
            }
            let ghost old_r = r@;
            r.push(seg);
            proof {
                assert(views_of(r@) =~= views_of(old_r).push(seg@));
                assert(views_of(old_r) + (seq![seg@] + spec_split_nl(s@.skip(i as int + 1)))
                    =~= views_of(old_r).push(seg@) + spec_split_nl(s@.skip(i as int + 1)));
            }
            start = i + 1;
        }
        i = i + 1;
    }
    proof {
        let t = s@.skip(start as int);
        assert forall|j2: int| 0 <= j2 < t.len() implies t[j2] != '\n' by {
            assert(t[j2] == s@[start + j2]);
        }
        lemma_find_nl_none(t);
        assert(spec_split_nl(t) == seq![t]);
    }
    let mut seg: Vec<char> = Vec::new();
    let mut j: usize = start;
    while j < slen
        invariant
            slen == s@.len(),
            start <= j <= slen,
            seg@ == s@.subrange(start as int, j as int),
        decreases slen - j,
    {
        seg.push(s[j]);
        j = j + 1;
        proof {
            assert(seg@ =~= s@.subrange(start as int, j as int));
        }
    }
    proof {
        assert(s@.subrange(start as int, slen as int) =~= s@.skip(start as int));
    }
    let ghost old_r = r@;
    r.push(seg);
    proof {
        assert(views_of(r@) =~= views_of(old_r).push(s@.skip(start as int)));
        assert(views_of(old_r) + seq![s@.skip(start as int)] =~= views_of(old_r).push(
            s@.skip(start as int),
        ));
    }
    r
}

/// The given parts joined with `" | "`.
pub open spec fn spec_sep_join(parts: Seq<Seq<char>>) -> Seq<char>
    decreases parts.len(),
{
    if parts.len() == 0 {
        Seq::empty()
    } else if parts.len() == 1 {
        parts[0]
    } else {
        spec_sep_join(parts.drop_last()) + " | "@ + parts.last()
    }
}

/// The parts that are non-empty, in order.
pub open spec fn spec_keep_nonempty(parts: Seq<Seq<char>>) -> Seq<Seq<char>>
    decreases parts.len(),
{
    if parts.len() == 0 {
        Seq::empty()
    } else if parts.last().len() > 0 {
        spec_keep_nonempty(parts.drop_last()).push(parts.last())
    } else {
        spec_keep_nonempty(parts.drop_last())
    }
}

pub open spec fn spec_trimmed_all(parts: Seq<Seq<char>>) -> Seq<Seq<char>> {
    Seq::new(parts.len(), |k: int| spec_trim(parts[k]))
}

/// Split on newlines, trim each line, drop the empty ones, join with `" | "`.
pub open spec fn spec_join_lines(s: Seq<char>) -> Seq<char> {
    spec_sep_join(spec_keep_nonempty(spec_trimmed_all(spec_split_nl(s))))
}

pub fn join_lines(s: &Vec<char>) -> (r: Vec<char>)
    ensures
        r@ == spec_join_lines(s@),
{
    let segs = split_newlines(s);
    let ghost trimmed = spec_trimmed_all(spec_split_nl(s@));
    let mut out: Vec<char> = Vec::new();
    let mut any: bool = false;
    let mut k: usize = 0;
    proof {
        assert(trimmed.take(0) =~= Seq::<Seq<char>>::empty());
    }
    while k < segs.len()
        invariant
            k <= segs@.len(),
            views_of(segs@) == spec_split_nl(s@),
            trimmed == spec_trimmed_all(spec_split_nl(s@)),
            trimmed.len() == segs@.len(),
            out@ == spec_sep_join(spec_keep_nonempty(trimmed.take(k as int))),
            any == (spec_keep_nonempty(trimmed.take(k as int)).len() > 0),
        decreases segs@.len() - k,
    {
        proof {
            assert(segs@[k as int]@ == views_of(segs@)[k as int]);
        }
        let t = trim_chars(&segs[k]);
        proof {
            let pre = trimmed.take(k as int);
            let post = trimmed.take(k as int + 1);
            assert(post.drop_last() =~= pre);
            assert(post.last() == spec_trim(spec_split_nl(s@)[k as int]));
            assert(post.last() == t@);
        }
        if t.len() > 0 {
            if any {
                proof {
                    let kept = spec_keep_nonempty(trimmed.take(k as int));
                    let kept2 = spec_keep_nonempty(trimmed.take(k as int + 1));
                    assert(kept2 == kept.push(t@));
                    assert(kept2.drop_last() =~= kept);
                    assert(kept2.last() == t@);
                    assert(kept2.len() >= 2);
                }
                let mut sep: Vec<char> = Vec::new();
                sep.push(' ');
                sep.push('|');
                sep.push(' ');
                proof {
                    reveal_strlit(" | ");
                    assert(sep@ =~= " | "@);
                }
                push_all(&mut out, &sep);
                push_all(&mut out, &t);
            } else {
                proof {
                    let kept = spec_keep_nonempty(trimmed.take(k as int));
                    let kept2 = spec_keep_nonempty(trimmed.take(k as int + 1));
                    assert(kept2 == kept.push(t@));
                    assert(kept2.len() == 1);
                    assert(kept2[0] == t@);
                    assert(kept2.last() == t@);
                }
                push_all(&mut out, &t);
                proof {
                    assert(Seq::<char>::empty() + t@ =~= t@);
                }
            }
            any = true;
        } else {
            proof {
                let pre = trimmed.take(k as int);
                let post = trimmed.take(k as int + 1);
                assert(spec_keep_nonempty(post) == spec_keep_nonempty(pre));
            }
        }
        k = k + 1;
    }
    proof {
        assert(trimmed.take(trimmed.len() as int) =~= trimmed);
    }
    out
}

// ---------------------------------------------------------------------------
// collapsing runs of spaces
// ---------------------------------------------------------------------------

/// Every run of two or more spaces reduced to a single space.
pub open spec fn spec_collapse_spaces(s: Seq<char>) -> Seq<char>
    decreases s.len(),
{
    if s.len() == 0 {
        Seq::empty()
    } else if s.len() >= 2 && s[0] == ' ' && s[1] == ' ' {
        spec_collapse_spaces(s.skip(1))
    } else {
        seq![s[0]] + spec_collapse_spaces(s.skip(1))
    }
}

pub fn collapse_spaces(s: &Vec<char>) -> (r: Vec<char>)
    ensures
        r@ == spec_collapse_spaces(s@),
{
    let slen = s.len();
    let mut out: Vec<char> = Vec::new();
    let mut i: usize = 0;
    proof {
        assert(s@.skip(0) =~= s@);
        assert(Seq::<char>::empty() + spec_collapse_spaces(s@) =~= spec_collapse_spaces(s@));
    }
    while i < slen
        invariant
            slen == s@.len(),
            i <= slen,
            spec_collapse_spaces(s@) == out@ + spec_collapse_spaces(s@.skip(i as int)),
        decreases slen - i,
    {
        proof {
            assert(s@.skip(i as int)[0] == s@[i as int]);
            if i + 1 < slen {
                assert(s@.skip(i as int)[1] == s@[i as int + 1]);
            }
            assert(s@.skip(i as int).skip(1) =~= s@.skip(i as int + 1));
        }
        if !(s[i] == ' ' && i + 1 < slen && s[i + 1] == ' ') {
            out.push(s[i]);
        }
        i = i + 1;
    }
    proof {
        assert(s@.skip(slen as int) =~= Seq::<char>::empty());
        assert(out@ + Seq::<char>::empty() =~= out@);
    }
    out
}

// ---------------------------------------------------------------------------
// UTF-8 byte budget truncation
// ---------------------------------------------------------------------------

/// Number of bytes the character occupies in UTF-8.
pub open spec fn spec_utf8_len(c: char) -> nat {
    if (c as u32) < 0x80 {
        1
    } else if (c as u32) < 0x800 {
        2
    } else if (c as u32) < 0x10000 {
        3
    } else {
        4
    }
}

pub open spec fn spec_bytes_len(s: Seq<char>) -> nat
    decreases s.len(),
{
    if s.len() == 0 {
        0
    } else {
        spec_utf8_len(s[0]) + spec_bytes_len(s.skip(1))
    }
}

/// The longest prefix whose UTF-8 encoding fits in `budget` bytes.
pub open spec fn spec_cut(s: Seq<char>, budget: nat) -> Seq<char>
    decreases s.len(),
{
    if s.len() == 0 {
        Seq::empty()
    } else if spec_utf8_len(s[0]) <= budget {
        seq![s[0]] + spec_cut(s.skip(1), (budget - spec_utf8_len(s[0])) as nat)
    } else {
        Seq::empty()
    }
}

pub fn utf8_len_of(c: char) -> (r: u64)
    ensures
        r == spec_utf8_len(c),
{
    let u = c as u32;
    if u < 0x80 {
        1
    } else if u < 0x800 {
        2
    } else if u < 0x10000 {
        3
    } else {
        4
    }
}

/// Whether the UTF-8 encoding of `s` exceeds `cap` bytes.
pub fn bytes_len_exceeds(s: &Vec<char>, cap: u64) -> (r: bool)
    requires
        cap <= 0xFFFF_FFFF,
    ensures
        r == (spec_bytes_len(s@) > cap),
{
    let slen = s.len();
    let mut total: u64 = 0;
    let mut i: usize = 0;
    proof {
        assert(s@.skip(0) =~= s@);
    }
    while i < slen && total <= cap
        invariant
            slen == s@.len(),
            cap <= 0xFFFF_FFFF,
            i <= slen,
            total <= cap + 4,
            spec_bytes_len(s@) == total + spec_bytes_len(s@.skip(i as int)),
        decreases slen - i,
    {
        proof {
            assert(s@.skip(i as int)[0] == s@[i as int]);
            assert(s@.skip(i as int).skip(1) =~= s@.skip(i as int + 1));
        }
        total = total + utf8_len_of(s[i]);
        i = i + 1;
    }
    proof {
        if i == slen {
            assert(s@.skip(slen as int) =~= Seq::<char>::empty());
        }
    }
    total > cap
}

pub fn cut_chars(s: &Vec<char>, budget: u64) -> (r: Vec<char>)
    ensures
        r@ == spec_cut(s@, budget as nat),
{
    let slen = s.len();
    let mut out: Vec<char> = Vec::new();
    let mut left: u64 = budget;
    let mut i: usize = 0;
    proof {
        assert(s@.skip(0) =~= s@);
        assert(Seq::<char>::empty() + spec_cut(s@, budget as nat) =~= spec_cut(
            s@,
            budget as nat,
        ));
    }
    while i < slen
        invariant
            slen == s@.len(),
            i <= slen,
            left <= budget,
            spec_cut(s@, budget as nat) == out@ + spec_cut(s@.skip(i as int), left as nat),
        decreases slen - i,
    {
        proof {
            assert(s@.skip(i as int)[0] == s@[i as int]);
            assert(s@.skip(i as int).skip(1) =~= s@.skip(i as int + 1));
        }
        let l = utf8_len_of(s[i]);
        if l <= left {
            out.push(s[i]);
            left = left - l;
            i = i + 1;
        } else {
            proof {
                assert(spec_cut(s@.skip(i as int), left as nat) =~= Seq::<char>::empty());
                assert(out@ + Seq::<char>::empty() =~= out@);
            }
            return out;
        }
    }
    proof {
        assert(s@.skip(slen as int) =~= Seq::<char>::empty());
        assert(out@ + Seq::<char>::empty() =~= out@);
    }
    out
}

// ---------------------------------------------------------------------------
// decimal digits of unsigned integers
// ---------------------------------------------------------------------------

pub open spec fn spec_digit_char(d: nat) -> char {
    if d == 0 {
        '0'
    } else if d == 1 {
        '1'
    } else if d == 2 {
        '2'
    } else if d == 3 {
        '3'
    } else if d == 4 {
        '4'
    } else if d == 5 {
        '5'
    } else if d == 6 {
        '6'
    } else if d == 7 {
        '7'
    } else if d == 8 {
        '8'
    } else {
        '9'
    }
}

/// The decimal digits of `n`, most significant first, no leading zeros
/// (except for `n == 0` itself).
pub open spec fn spec_u64_digits(n: nat) -> Seq<char>
    decreases n,
{
    if n < 10 {
        seq![spec_digit_char(n)]
    } else {
        spec_u64_digits(n / 10) + seq![spec_digit_char(n % 10)]
    }
}

pub fn digit_char_of(d: u64) -> (r: char)
    requires
        d < 10,
    ensures
        r == spec_digit_char(d as nat),
{
    if d == 0 {
        '0'
    } else if d == 1 {
        '1'
    } else if d == 2 {
        '2'
    } else if d == 3 {
        '3'
    } else if d == 4 {
        '4'
    } else if d == 5 {
        '5'
    } else if d == 6 {
        '6'
    } else if d == 7 {
        '7'
    } else if d == 8 {
        '8'
    } else {
        '9'
    }
}

pub fn push_u64_digits(out: &mut Vec<char>, n: u64)
    ensures
        final(out)@ == old(out)@ + spec_u64_digits(n as nat),
    decreases n,
{
    if n < 10 {
        out.push(digit_char_of(n));
        proof {
            assert(old(out)@.push(spec_digit_char(n as nat)) =~= old(out)@ + seq![
                spec_digit_char(n as nat),
            ]);
        }
    } else {
        push_u64_digits(out, n / 10);
        out.push(digit_char_of(n % 10));
        proof {
            assert((old(out)@ + spec_u64_digits(n as nat / 10)).push(
                spec_digit_char(n as nat % 10),
            ) =~= old(out)@ + (spec_u64_digits(n as nat / 10) + seq![
                spec_digit_char(n as nat % 10),
            ]));
        }
    }
}

pub fn u64_chars(n: u64) -> (r: Vec<char>)
    ensures
        r@ == spec_u64_digits(n as nat),
{
    let mut out: Vec<char> = Vec::new();
    push_u64_digits(&mut out, n);
    proof {
        assert(Seq::<char>::empty() + spec_u64_digits(n as nat) =~= spec_u64_digits(n as nat));
    }
    out
}

} // verus!
