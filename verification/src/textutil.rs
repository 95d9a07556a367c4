//! Verified text utilities shared by the parser, the detection engine and
//! the masker: substring search, simultaneous literal replacement, and
//! splitting and joining of newline-terminated lines.

use vstd::prelude::*;

verus! {

/// Bridges `String` to the `Vec<char>` form the verified algorithms work on.
/// Relies on `str::chars` of std: the iterator yields exactly the characters
/// of the string, in order.
#[verifier::external_body]
pub fn chars_of(s: &str) -> (r: Vec<char>)
    ensures
        r@ == s@,
{
    s.chars().collect()
}

/// Bridges `Vec<char>` back to `String`. Relies on `String::from_iter` of
/// std: collecting characters yields the string with exactly those
/// characters, in order.
#[verifier::external_body]
pub fn string_of(v: &Vec<char>) -> (r: String)
    ensures
        r@ == v@,
{
    v.iter().collect()
}

/// The pattern `p` occurs in `t` starting at position `i`.
pub open spec fn substr_at(t: Seq<char>, p: Seq<char>, i: int) -> bool {
    0 <= i && i + p.len() <= t.len() && t.subrange(i, i + p.len() as int) == p
}

/// The pattern `p` occurs somewhere in `t`.
pub open spec fn has_substr(t: Seq<char>, p: Seq<char>) -> bool {
    exists|i: int| substr_at(t, p, i)
}

/// An occurrence in a suffix is an occurrence in the whole, shifted.
pub proof fn lemma_substr_extend_left(a: Seq<char>, b: Seq<char>, p: Seq<char>, i: int)
    requires
        substr_at(b, p, i),
    ensures
        substr_at(a + b, p, i + a.len()),
{
    assert((a + b).subrange(i + a.len(), i + a.len() + p.len() as int) =~= b.subrange(
        i,
        i + p.len() as int,
    ));
}

/// Occurrences within the tail of `t` correspond to shifted occurrences in `t`.
pub proof fn lemma_substr_skip(t: Seq<char>, p: Seq<char>, k: int, i: int)
    requires
        0 <= k <= t.len(),
        0 <= i,
    ensures
        substr_at(t.skip(k), p, i) == substr_at(t, p, i + k),
{
    if i + p.len() <= t.skip(k).len() {
        assert(t.skip(k).subrange(i, i + p.len() as int) =~= t.subrange(i + k, i + k
            + p.len() as int));
    }
}

/// Whether `p` occurs in `t` at exactly position `i`.
pub fn matches_at(t: &Vec<char>, p: &Vec<char>, i: usize) -> (r: bool)
    requires
        i + p@.len() <= t@.len(),
    ensures
        r == substr_at(t@, p@, i as int),
{
    let tlen: usize = t.len();
    let mut j: usize = 0;
    while j < p.len()
        invariant
            i + p@.len() <= t@.len(),
            t@.len() == tlen,
            j <= p@.len(),
            forall|k: int| 0 <= k < j ==> t@[i + k] == p@[k],
        decreases p@.len() - j,
    {
        assert(i + j < t@.len());
        if t[i + j] != p[j] {
            assert(!substr_at(t@, p@, i as int)) by {
                if t@.subrange(i as int, i + p@.len() as int) == p@ {
                    assert(t@.subrange(i as int, i + p@.len() as int)[j as int] == p@[j as int]);
                }
            }
            return false;
        }
        j += 1;
    }
    assert(t@.subrange(i as int, i + p@.len() as int) =~= p@);
    true
}

/// Substring search: does `p` occur anywhere in `t`?
pub fn has_sub(t: &Vec<char>, p: &Vec<char>) -> (r: bool)
    ensures
        r == has_substr(t@, p@),
{
    if p.len() > t.len() {
        assert(!has_substr(t@, p@));
        return false;
    }
    let bound: usize = t.len() - p.len();
    let mut i: usize = 0;
    loop
        invariant
            p@.len() <= t@.len(),
            bound == t@.len() - p@.len(),
            i <= bound,
            forall|k: int| 0 <= k < i ==> !substr_at(t@, p@, k),
        decreases bound - i,
    {
        if matches_at(t, p, i) {
            return true;
        }
        if i == bound {
            assert(forall|k: int| #[trigger] substr_at(t@, p@, k) ==> 0 <= k <= bound);
            return false;
        }
        i += 1;
    }
}

/// `p` is a prefix of `t`.
pub open spec fn is_prefix(t: Seq<char>, p: Seq<char>) -> bool {
    substr_at(t, p, 0)
}

/// Prefix test, the executable form of [`is_prefix`].
pub fn starts_with(t: &Vec<char>, p: &Vec<char>) -> (r: bool)
    ensures
        r == is_prefix(t@, p@),
{
    if p.len() > t.len() {
        return false;
    }
    matches_at(t, p, 0)
}

/// The tail of `v` from position `k` on.
pub fn tail_from(v: &Vec<char>, k: usize) -> (r: Vec<char>)
    requires
        k <= v@.len(),
    ensures
        r@ == v@.skip(k as int),
{
    let mut r: Vec<char> = Vec::new();
    let mut i: usize = k;
    while i < v.len()
        invariant
            k <= i <= v@.len(),
            r@ == v@.subrange(k as int, i as int),
        decreases v@.len() - i,
    {
        r.push(v[i]);
        assert(r@ =~= v@.subrange(k as int, i + 1));
        i += 1;
    }
    assert(r@ =~= v@.skip(k as int));
    r
}

/// The element-wise views of a sequence of character vectors.
pub open spec fn views_of(s: Seq<Vec<char>>) -> Seq<Seq<char>> {
    s.map_values(|v: Vec<char>| v@)
}

/// Index of the first pattern of `pats` (ignoring empty ones) that occurs in
/// `t` at position `i`, if any.
pub open spec fn first_match(pats: Seq<Seq<char>>, t: Seq<char>, i: int) -> Option<int>
    decreases pats.len(),
{
    if pats.len() == 0 {
        None
    } else if pats[0].len() > 0 && substr_at(t, pats[0], i) {
        Some(0)
    } else {
        match first_match(pats.drop_first(), t, i) {
            Some(j) => Some(j + 1),
            None => None,
        }
    }
}

pub proof fn lemma_first_match_props(pats: Seq<Seq<char>>, t: Seq<char>, i: int)
    ensures
        match first_match(pats, t, i) {
            Some(j) => 0 <= j < pats.len() && pats[j].len() > 0 && substr_at(t, pats[j], i)
                && (forall|k: int|
                0 <= k < j ==> !(pats[k].len() > 0 && substr_at(t, pats[k], i))),
            None => forall|k: int|
                0 <= k < pats.len() ==> !(pats[k].len() > 0 && substr_at(t, pats[k], i)),
        },
    decreases pats.len(),
{
    if pats.len() > 0 {
        if !(pats[0].len() > 0 && substr_at(t, pats[0], i)) {
            lemma_first_match_props(pats.drop_first(), t, i);
            assert forall|k: int| 1 <= k < pats.len() implies pats.drop_first()[k - 1] == pats[k]
            by {
            }
        }
    }
}

/// The patterns only ever see `t` through `substr_at` at position `i`, so a
/// match in a tail of `t` is a match in `t` at the shifted position.
pub proof fn lemma_first_match_skip(pats: Seq<Seq<char>>, t: Seq<char>, k: int, i: int)
    requires
        0 <= k <= t.len(),
        0 <= i,
    ensures
        first_match(pats, t.skip(k), i) == first_match(pats, t, i + k),
    decreases pats.len(),
{
    if pats.len() > 0 {
        lemma_substr_skip(t, pats[0], k, i);
        lemma_first_match_skip(pats.drop_first(), t, k, i);
    }
}

/// Replaces, in one left-to-right pass over `t`, every occurrence of each
/// non-empty pattern by the replacement of the same index.  Occurrences are
/// found against `t` itself, never against already-produced output, and the
/// first pattern in registry order wins at each position.
pub open spec fn scan_replace(t: Seq<char>, pats: Seq<Seq<char>>, reps: Seq<Seq<char>>) -> Seq<
    char,
>
    recommends
        pats.len() == reps.len(),
    decreases t.len(),
    via scan_replace_decreases
{
    if t.len() == 0 {
        Seq::empty()
    } else {
        match first_match(pats, t, 0) {
            Some(j) => reps[j] + scan_replace(t.skip(pats[j].len() as int), pats, reps),
            None => seq![t[0]] + scan_replace(t.skip(1), pats, reps),
        }
    }
}

#[via_fn]
proof fn scan_replace_decreases(t: Seq<char>, pats: Seq<Seq<char>>, reps: Seq<Seq<char>>) {
    lemma_first_match_props(pats, t, 0);
}

/// Simultaneous literal replacement over a text snapshot.
pub fn replace_all(t: &Vec<char>, pats: &Vec<Vec<char>>, reps: &Vec<Vec<char>>) -> (r: Vec<char>)
    requires
        pats@.len() == reps@.len(),
    ensures
        r@ == scan_replace(t@, views_of(pats@), views_of(reps@)),
{
    let ghost gpats = views_of(pats@);
    let ghost greps = views_of(reps@);
    let mut out: Vec<char> = Vec::new();
    let mut i: usize = 0;
    proof {
        assert(t@.skip(0) =~= t@);
        assert(Seq::<char>::empty() + scan_replace(t@, gpats, greps) =~= scan_replace(
            t@,
            gpats,
            greps,
        ));
    }
    while i < t.len()
        invariant
            pats@.len() == reps@.len(),
            gpats == views_of(pats@),
            greps == views_of(reps@),
            i <= t@.len(),
            out@ + scan_replace(t@.skip(i as int), gpats, greps) == scan_replace(
                t@,
                gpats,
                greps,
            ),
        decreases t@.len() - i,
    {
        let ghost suffix = t@.skip(i as int);
        proof {
            lemma_first_match_props(gpats, suffix, 0);
            lemma_first_match_skip(gpats, t@, i as int, 0);
        }
        // look for the first pattern that matches at position i
        let mut j: usize = 0;
        let mut hit: Option<usize> = None;
        while j < pats.len() && hit.is_none()
            invariant
                pats@.len() == reps@.len(),
                gpats == views_of(pats@),
                i <= t@.len(),
                j <= pats@.len(),
                match hit {
                    Some(h) => h < pats@.len() && first_match(gpats, t@, i as int) == Some(
                        h as int,
                    ),
                    None => forall|k: int|
                        0 <= k < j ==> !(gpats[k].len() > 0 && substr_at(t@, gpats[k], i as int)),
                },
            decreases pats@.len() - j,
        {
            let p = &pats[j];
            if p.len() > 0 && p.len() <= t.len() - i && matches_at(t, p, i) {
                assert(gpats[j as int].len() > 0 && substr_at(t@, gpats[j as int], i as int));
                proof {
                    lemma_first_match_props(gpats, t@, i as int);
                    let fm = first_match(gpats, t@, i as int);
                    if fm is Some {
                        let jj = fm->0;
                        if jj < j {
                            assert(!(gpats[jj].len() > 0 && substr_at(t@, gpats[jj], i as int)));
                        }
                        if jj > j {
                            assert(!(gpats[j as int].len() > 0 && substr_at(
                                t@,
                                gpats[j as int],
                                i as int,
                            )));
                        }
                        assert(jj == j);
                    } else {
                        assert(!(gpats[j as int].len() > 0 && substr_at(
                            t@,
                            gpats[j as int],
                            i as int,
                        )));
                    }
                }
                hit = Some(j);
                j += 1;
            } else {
                assert(!(gpats[j as int].len() > 0 && substr_at(t@, gpats[j as int], i as int)));
                j += 1;
            }
        }
        proof {
            lemma_first_match_props(gpats, t@, i as int);
        }
        let ghost out0 = out@;
        match hit {
            Some(h) => {
                // emit the replacement, then skip over the matched pattern
                let rep = &reps[h];
                let mut k: usize = 0;
                while k < rep.len()
                    invariant
                        h < reps@.len(),
                        rep@ == greps[h as int],
                        k <= rep@.len(),
                        out@ == out0 + rep@.take(k as int),
                    decreases rep@.len() - k,
                {
                    out.push(rep[k]);
                    assert(out@ =~= out0 + rep@.take(k + 1));
                    k += 1;
                }
                assert(out@ =~= out0 + greps[h as int]);
                let step: usize = pats[h].len();
                proof {
                    assert(first_match(gpats, suffix, 0) == Some(h as int));
                    assert(scan_replace(suffix, gpats, greps) == greps[h as int] + scan_replace(
                        suffix.skip(gpats[h as int].len() as int),
                        gpats,
                        greps,
                    ));
                    assert(suffix.skip(step as int) =~= t@.skip(i + step));
                    assert((out0 + greps[h as int]) + scan_replace(t@.skip(i + step), gpats, greps)
                        =~= out0 + (greps[h as int] + scan_replace(t@.skip(i + step), gpats, greps)));
                }
                i += step;
            },
            None => {
                proof {
                    assert(first_match(gpats, suffix, 0) is None);
                    assert(scan_replace(suffix, gpats, greps) == seq![suffix[0]] + scan_replace(
                        suffix.skip(1),
                        gpats,
                        greps,
                    ));
                    assert(suffix[0] == t@[i as int]);
                    assert(suffix.skip(1) =~= t@.skip(i + 1));
                    assert((out0 + seq![t@[i as int]]) + scan_replace(t@.skip(i + 1), gpats, greps)
                        =~= out0 + (seq![t@[i as int]] + scan_replace(t@.skip(i + 1), gpats, greps)));
                }
                out.push(t[i]);
                assert(out@ =~= out0 + seq![t@[i as int]]);
                i += 1;
            },
        }
    }
    assert(t@.skip(i as int) =~= Seq::<char>::empty());
    assert(out@ + Seq::<char>::empty() =~= out@);
    out
}

/// With a single non-empty pattern that occurs in `t`, the replacement pass
/// leaves its replacement visible in the output.
pub proof fn lemma_scan_single_contains(t: Seq<char>, s: Seq<char>, r: Seq<char>)
    requires
        s.len() > 0,
        has_substr(t, s),
    ensures
        has_substr(scan_replace(t, seq![s], seq![r]), r),
    decreases t.len(),
{
    let pats = seq![s];
    let reps = seq![r];
    let i = choose|i: int| substr_at(t, s, i);
    assert(t.len() > 0);
    lemma_first_match_props(pats, t, 0);
    match first_match(pats, t, 0) {
        Some(j) => {
            assert(j == 0);
            let rest = scan_replace(t.skip(s.len() as int), pats, reps);
            assert((r + rest).subrange(0, r.len() as int) =~= r);
            assert(substr_at(r + rest, r, 0));
        },
        None => {
            assert(!substr_at(t, s, 0));
            assert(i >= 1);
            lemma_substr_skip(t, s, 1, i - 1);
            assert(substr_at(t.skip(1), s, i - 1));
            lemma_scan_single_contains(t.skip(1), s, r);
            let rest = scan_replace(t.skip(1), pats, reps);
            let k = choose|k: int| substr_at(rest, r, k);
            lemma_substr_extend_left(seq![t[0]], rest, r, k);
        },
    }
}

/// Index of the first occurrence of `c` in `t`, if any.
pub open spec fn first_index_of(t: Seq<char>, c: char) -> Option<int>
    decreases t.len(),
{
    if t.len() == 0 {
        None
    } else if t[0] == c {
        Some(0)
    } else {
        match first_index_of(t.drop_first(), c) {
            Some(i) => Some(i + 1),
            None => None,
        }
    }
}

pub proof fn lemma_first_index_props(t: Seq<char>, c: char)
    ensures
        match first_index_of(t, c) {
            Some(i) => 0 <= i < t.len() && t[i] == c && (forall|k: int| 0 <= k < i ==> t[k] != c),
            None => forall|k: int| 0 <= k < t.len() ==> t[k] != c,
        },
    decreases t.len(),
{
    if t.len() > 0 && t[0] != c {
        lemma_first_index_props(t.drop_first(), c);
        assert forall|k: int| 1 <= k < t.len() implies t.drop_first()[k - 1] == t[k] by {
        }
    }
}

/// The characterization is complete: a least occurrence pins the result.
pub proof fn lemma_first_index_is(t: Seq<char>, c: char, i: int)
    requires
        0 <= i < t.len(),
        t[i] == c,
        forall|k: int| 0 <= k < i ==> t[k] != c,
    ensures
        first_index_of(t, c) == Some(i),
{
    lemma_first_index_props(t, c);
    match first_index_of(t, c) {
        Some(j) => {
            if j < i {
                assert(t[j] != c);
            }
            if j > i {
                assert(t[i] != c);
            }
        },
        None => {
            assert(t[i] != c);
        },
    }
}

/// Drops a final carriage return, the way reading a CRLF-terminated
/// history line leaves only the line's own text.
pub open spec fn chop_cr(l: Seq<char>) -> Seq<char> {
    if l.len() > 0 && l.last() == '\r' {
        l.drop_last()
    } else {
        l
    }
}

/// Splits a text into lines at `'\n'`, dropping each line's terminator and a
/// final `'\r'` before it; a last line without a terminator is kept whole.
pub open spec fn line_split(t: Seq<char>) -> Seq<Seq<char>>
    decreases t.len(),
    via line_split_decreases
{
    if t.len() == 0 {
        Seq::empty()
    } else {
        match first_index_of(t, '\n') {
            Some(i) => seq![chop_cr(t.take(i))] + line_split(t.skip(i + 1)),
            None => seq![t],
        }
    }
}

#[via_fn]
proof fn line_split_decreases(t: Seq<char>) {
    lemma_first_index_props(t, '\n');
}

/// Serializes lines back to a text, terminating every line with `'\n'`.
pub open spec fn join_lines(ls: Seq<Seq<char>>) -> Seq<char>
    decreases ls.len(),
{
    if ls.len() == 0 {
        Seq::empty()
    } else {
        ls[0] + seq!['\n'] + join_lines(ls.drop_first())
    }
}

/// A line that joining and splitting hand back unchanged: it holds no
/// newline, and no final carriage return that splitting would chop.
pub open spec fn line_ok(l: Seq<char>) -> bool {
    (forall|k: int| 0 <= k < l.len() ==> l[k] != '\n') && (l.len() > 0 ==> l.last() != '\r')
}

/// Splitting a text rebuilt from its lines is the identity, for texts that
/// end in a newline and carry no CRLF endings.
pub proof fn lemma_join_split(t: Seq<char>)
    requires
        t.len() > 0 ==> t.last() == '\n',
        forall|i: int| 0 <= i < t.len() - 1 ==> !(#[trigger] t[i] == '\r' && t[i + 1] == '\n'),
    ensures
        join_lines(line_split(t)) == t,
    decreases t.len(),
{
    if t.len() > 0 {
        lemma_first_index_props(t, '\n');
        match first_index_of(t, '\n') {
            Some(i) => {
                let line = t.take(i);
                if i > 0 && t[i - 1] == '\r' {
                    assert(t[i - 1] == '\r' && t[i] == '\n');
                    assert(false);
                }
                assert(chop_cr(line) == line);
                let rest = t.skip(i + 1);
                assert forall|k: int| 0 <= k < rest.len() - 1 implies !(#[trigger] rest[k] == '\r'
                    && rest[k + 1] == '\n') by {
                    assert(rest[k] == t[k + i + 1]);
                    assert(rest[k + 1] == t[k + i + 2]);
                }
                if rest.len() > 0 {
                    assert(rest.last() == t.last());
                }
                lemma_join_split(rest);
                let parts = seq![chop_cr(line)] + line_split(rest);
                assert(parts.drop_first() =~= line_split(rest));
                assert(line + seq!['\n'] + rest =~= t);
            },
            None => {
                assert(t[t.len() - 1] == '\n');
                assert(false);
            },
        }
    }
}

/// Rebuilding from split lines is also the identity from the other side:
/// well-formed lines joined then split come back unchanged.
pub proof fn lemma_split_join(ls: Seq<Seq<char>>)
    requires
        forall|i: int| 0 <= i < ls.len() ==> line_ok(#[trigger] ls[i]),
    ensures
        line_split(join_lines(ls)) == ls,
    decreases ls.len(),
{
    if ls.len() > 0 {
        let l0 = ls[0];
        assert(line_ok(l0));
        let rest = join_lines(ls.drop_first());
        let j = l0 + seq!['\n'] + rest;
        assert(j.len() > 0);
        assert(j[l0.len() as int] == '\n');
        assert forall|k: int| 0 <= k < l0.len() implies j[k] != '\n' by {
            assert(j[k] == l0[k]);
        }
        lemma_first_index_is(j, '\n', l0.len() as int);
        assert(j.take(l0.len() as int) =~= l0);
        assert(chop_cr(l0) == l0);
        assert(j.skip(l0.len() as int + 1) =~= rest);
        lemma_split_join(ls.drop_first());
        assert(seq![l0] + line_split(rest) =~= ls);
    }
}

/// Splits a text into lines, the executable form of [`line_split`].
pub fn split_lines(t: &Vec<char>) -> (r: Vec<Vec<char>>)
    ensures
        views_of(r@) == line_split(t@),
{
    let mut out: Vec<Vec<char>> = Vec::new();
    let mut pos: usize = 0;
    proof {
        assert(t@.skip(0) =~= t@);
        assert(views_of(out@) + line_split(t@) =~= line_split(t@));
    }
    while pos < t.len()
        invariant
            pos <= t@.len(),
            views_of(out@) + line_split(t@.skip(pos as int)) == line_split(t@),
        decreases t@.len() - pos,
    {
        let ghost suffix = t@.skip(pos as int);
        // find the next newline
        let mut m: usize = pos;
        while m < t.len() && t[m] != '\n'
            invariant
                pos <= m <= t@.len(),
                forall|k: int| pos <= k < m ==> t@[k] != '\n',
            decreases t@.len() - m,
        {
            m += 1;
        }
        proof {
            assert forall|k: int| 0 <= k < m - pos implies suffix[k] != '\n' by {
                assert(suffix[k] == t@[k + pos]);
            }
        }
        let mut line: Vec<char> = Vec::new();
        let end: usize = if m < t.len() && m > pos && t[m - 1] == '\r' {
            m - 1
        } else {
            m
        };
        let mut k: usize = pos;
        while k < end
            invariant
                pos <= k <= end <= t@.len(),
                line@ == t@.subrange(pos as int, k as int),
            decreases end - k,
        {
            line.push(t[k]);
            assert(line@ =~= t@.subrange(pos as int, k + 1));
            k += 1;
        }
        if m < t.len() {
            // a terminated line
            proof {
                assert(suffix[m - pos] == '\n');
                lemma_first_index_is(suffix, '\n', m - pos);
                let cut = suffix.take(m - pos);
                assert(cut =~= t@.subrange(pos as int, m as int));
                if m > pos && t@[m - 1] == '\r' {
                    assert(cut.len() > 0 && cut.last() == '\r');
                    assert(chop_cr(cut) =~= t@.subrange(pos as int, m - 1));
                } else {
                    assert(chop_cr(cut) =~= t@.subrange(pos as int, m as int));
                }
                assert(line@ == chop_cr(cut));
                assert(suffix.skip(m - pos + 1) =~= t@.skip(m + 1));
                assert(line_split(suffix) == seq![chop_cr(cut)] + line_split(t@.skip(m + 1)));
            }
            let ghost out0 = out@;
            out.push(line);
            proof {
                assert(views_of(out@) =~= views_of(out0) + seq![line@]);
                assert((views_of(out0) + seq![line@]) + line_split(t@.skip(m + 1)) =~= views_of(
                    out0,
                ) + (seq![line@] + line_split(t@.skip(m + 1))));
            }
            pos = m + 1;
        } else {
            // the final, unterminated line
            proof {
                lemma_first_index_props(suffix, '\n');
                if first_index_of(suffix, '\n') is Some {
                    let ii = first_index_of(suffix, '\n')->0;
                    assert(suffix[ii] == t@[ii + pos]);
                    assert(false);
                }
                assert(line@ =~= suffix);
                assert(line_split(suffix) == seq![suffix]);
            }
            let ghost out0 = out@;
            out.push(line);
            proof {
                assert(views_of(out@) =~= views_of(out0) + seq![line@]);
                assert(t@.skip(t@.len() as int) =~= Seq::<char>::empty());
                assert((views_of(out0) + seq![suffix]) + line_split(Seq::<char>::empty())
                    =~= views_of(out0) + (seq![suffix] + line_split(Seq::<char>::empty())));
            }
            pos = t.len();
        }
    }
    assert(t@.skip(pos as int) =~= Seq::<char>::empty());
    assert(views_of(out@) + Seq::<Seq<char>>::empty() =~= views_of(out@));
    out
}

} // verus!
