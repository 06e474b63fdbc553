//! Which parts of a commit message the timeline highlights for a search.
use vstd::prelude::*;
use crate::text::{
    chars_of, lowercase, occurs_at, occurs_at_exec, split_words, to_lowercase, words,
    lemma_trim_start_suffix, lemma_find_whitespace_bounds, find_whitespace, trim_start,
};

verus! {

/// The first position at or after `p` where `tok` occurs in `hay`.
pub open spec fn first_occurrence(hay: Seq<char>, tok: Seq<char>, p: int) -> Option<int>
    decreases hay.len() + 1 - p,
{
    if p < 0 || p + tok.len() > hay.len() {
        None
    } else if occurs_at(hay, tok, p) {
        Some(p)
    } else {
        first_occurrence(hay, tok, p + 1)
    }
}

/// The occurrences of a non-empty `tok` in `hay` found scanning from `p`,
/// each search resuming right after the previous occurrence, as ranges
/// `[start, end)`.
pub open spec fn scan_occurrences(hay: Seq<char>, tok: Seq<char>, p: int) -> Seq<(int, int)>
    decreases hay.len() + 1 - p,
{
    if tok.len() == 0 {
        seq![]
    } else {
        match first_occurrence(hay, tok, p) {
            Some(q) => if q >= p {
                proof {
                    lemma_first_occurrence(hay, tok, p);
                }
                seq![(q, q + tok.len())] + scan_occurrences(hay, tok, q + tok.len())
            } else {
                seq![]
            },
            None => seq![],
        }
    }
}

/// The occurrences of every query word, word after word.
pub open spec fn all_occurrences(hay: Seq<char>, toks: Seq<Seq<char>>) -> Seq<(int, int)>
    decreases toks.len(),
{
    if toks.len() == 0 {
        seq![]
    } else {
        all_occurrences(hay, toks.drop_last()) + scan_occurrences(hay, toks.last(), 0)
    }
}

/// Position `x` lies in one of the ranges.
pub open spec fn covered(rs: Seq<(int, int)>, x: int) -> bool {
    exists|i: int| 0 <= i < rs.len() && #[trigger] rs[i].0 <= x && x < rs[i].1
}

/// The highlighted ranges of a message for a search text: the occurrences
/// of the lower-cased query words in the lower-cased message.
pub open spec fn highlight_occurrences(message: Seq<char>, query: Seq<char>) -> Seq<(int, int)> {
    all_occurrences(lowercase(message), words(lowercase(query)))
}

/// The ranges as integers.
pub open spec fn ranges_view(v: Seq<(usize, usize)>) -> Seq<(int, int)> {
    v.map_values(|r: (usize, usize)| (r.0 as int, r.1 as int))
}

/// Ranges in increasing order, each non-empty, with a gap between
/// neighbours: the maximal runs of a set of positions.
pub open spec fn separated(rs: Seq<(int, int)>) -> bool {
    &&& forall|i: int| 0 <= i < rs.len() ==> #[trigger] rs[i].0 < rs[i].1
    &&& forall|i: int| 0 <= i < rs.len() - 1 ==> #[trigger] rs[i].1 < rs[i + 1].0
}

pub proof fn lemma_first_occurrence(hay: Seq<char>, tok: Seq<char>, p: int)
    ensures
        first_occurrence(hay, tok, p) matches Some(q) ==> p <= q && occurs_at(hay, tok, q),
        0 <= p && first_occurrence(hay, tok, p) is None ==> forall|q: int| p <= q ==> !occurs_at(hay, tok, q),
    decreases hay.len() + 1 - p,
{
    if !(p < 0 || p + tok.len() > hay.len()) && !occurs_at(hay, tok, p) {
        lemma_first_occurrence(hay, tok, p + 1);
    }
}

/// Every word of a text is non-empty.
pub proof fn lemma_words_nonempty(s: Seq<char>)
    ensures
        forall|i: int| 0 <= i < words(s).len() ==> #[trigger] words(s)[i].len() > 0,
    decreases s.len(),
{
    let t = trim_start(s);
    lemma_trim_start_suffix(s);
    if t.len() > 0 {
        lemma_find_whitespace_bounds(t);
        let k = find_whitespace(t);
        if k > 0 {
            lemma_words_nonempty(t.skip(k));
            let w = words(s);
            assert(w == seq![t.take(k)] + words(t.skip(k)));
            assert forall|i: int| 0 <= i < w.len() implies #[trigger] w[i].len() > 0 by {
                if i > 0 {
                    assert(w[i] == words(t.skip(k))[i - 1]);
                }
            }
        }
    }
}

/// The ranges a scan finds lie in `hay`, start at or after `p`, and are as
/// long as the word.
proof fn lemma_scan_bounds(hay: Seq<char>, tok: Seq<char>, p: int)
    requires
        tok.len() > 0,
        p >= 0,
    ensures
        forall|i: int| 0 <= i < scan_occurrences(hay, tok, p).len() ==> {
            let r = #[trigger] scan_occurrences(hay, tok, p)[i];
            p <= r.0 && r.0 + tok.len() == r.1 && r.1 <= hay.len()
        },
    decreases hay.len() + 1 - p,
{
    lemma_first_occurrence(hay, tok, p);
    match first_occurrence(hay, tok, p) {
        Some(q) => {
            lemma_scan_bounds(hay, tok, q + tok.len());
            let sc = scan_occurrences(hay, tok, p);
            let rest = scan_occurrences(hay, tok, q + tok.len());
            assert(sc == seq![(q, q + tok.len())] + rest);
            assert forall|i: int| 0 <= i < sc.len() implies {
                let r = #[trigger] sc[i];
                p <= r.0 && r.0 + tok.len() == r.1 && r.1 <= hay.len()
            } by {
                if i > 0 {
                    assert(sc[i] == rest[i - 1]);
                }
            }
        },
        None => {},
    }
}

/// The first occurrence of `tok` at or after `p`.
fn find_occurrence(hay: &Vec<char>, tok: &Vec<char>, p: usize) -> (r: Option<usize>)
    requires
        tok.len() > 0,
    ensures
        match r {
            Some(q) => first_occurrence(hay@, tok@, p as int) == Some(q as int),
            None => first_occurrence(hay@, tok@, p as int) is None,
        },
{
    let mut q = p;
    while q <= hay.len() && tok.len() <= hay.len() - q
        invariant
            p <= q,
            tok.len() > 0,
            first_occurrence(hay@, tok@, q as int) == first_occurrence(hay@, tok@, p as int),
        decreases hay.len() + 1 - q,
    {
        if occurs_at_exec(hay, tok, q) {
            return Some(q);
        }
        q += 1;
    }
    None
}

/// The occurrences of one non-empty word, each search resuming right after
/// the previous occurrence.
fn scan_word(hay: &Vec<char>, tok: &Vec<char>, out: &mut Vec<(usize, usize)>)
    requires
        tok.len() > 0,
    ensures
        ranges_view(final(out)@) == ranges_view(old(out)@) + scan_occurrences(hay@, tok@, 0),
{
    let ghost base = ranges_view(out@);
    let mut start: usize = 0;
    loop
        invariant
            tok.len() > 0,
            base == ranges_view(old(out)@),
            ranges_view(out@) + scan_occurrences(hay@, tok@, start as int) == base
                + scan_occurrences(hay@, tok@, 0),
        decreases hay.len() + 1 - start,
    {
        let ghost before = ranges_view(out@);
        match find_occurrence(hay, tok, start) {
            Some(q) => {
                proof {
                    lemma_first_occurrence(hay@, tok@, start as int);
                }
                let end = q + tok.len();
                out.push((q, end));
                assert(ranges_view(out@) =~= before.push((q as int, end as int)));
                assert(scan_occurrences(hay@, tok@, start as int) == seq![(q as int, end as int)]
                    + scan_occurrences(hay@, tok@, end as int));
                assert(ranges_view(out@) + scan_occurrences(hay@, tok@, end as int) =~= before
                    + scan_occurrences(hay@, tok@, start as int));
                start = end;
            },
            None => {
                assert(scan_occurrences(hay@, tok@, start as int) =~= Seq::<(int, int)>::empty());
                assert(ranges_view(out@) + Seq::<(int, int)>::empty() =~= ranges_view(out@));
                return;
            },
        }
    }
}

/// Ranges that lie in a text of length `n`, each non-empty.
pub open spec fn ranges_within(rs: Seq<(int, int)>, n: int) -> bool {
    forall|i: int| 0 <= i < rs.len() ==> 0 <= #[trigger] rs[i].0 && rs[i].0 < rs[i].1 && rs[i].1 <= n
}

proof fn lemma_all_occurrences_within(hay: Seq<char>, toks: Seq<Seq<char>>)
    requires
        forall|i: int| 0 <= i < toks.len() ==> #[trigger] toks[i].len() > 0,
    ensures
        ranges_within(all_occurrences(hay, toks), hay.len() as int),
    decreases toks.len(),
{
    if toks.len() > 0 {
        lemma_all_occurrences_within(hay, toks.drop_last());
        lemma_scan_bounds(hay, toks.last(), 0);
        let a = all_occurrences(hay, toks.drop_last());
        let b = scan_occurrences(hay, toks.last(), 0);
        assert forall|i: int| 0 <= i < (a + b).len() implies 0 <= #[trigger] (a + b)[i].0 && (a
            + b)[i].0 < (a + b)[i].1 && (a + b)[i].1 <= hay.len() by {
            if i >= a.len() {
                assert((a + b)[i] == b[i - a.len()]);
            } else {
                assert((a + b)[i] == a[i]);
            }
        }
    }
}

proof fn lemma_covered_push(rs: Seq<(int, int)>, r: (int, int), x: int)
    ensures
        covered(rs.push(r), x) <==> (covered(rs, x) || (r.0 <= x && x < r.1)),
{
    let s = rs.push(r);
    if covered(rs, x) {
        let i = choose|i: int| 0 <= i < rs.len() && #[trigger] rs[i].0 <= x && x < rs[i].1;
        assert(s[i] == rs[i]);
    }
    if r.0 <= x && x < r.1 {
        assert(s[rs.len() as int] == r);
    }
    if covered(s, x) {
        let i = choose|i: int| 0 <= i < s.len() && #[trigger] s[i].0 <= x && x < s[i].1;
        if i < rs.len() {
            assert(s[i] == rs[i]);
        }
    }
}

proof fn lemma_covered_insert(rs: Seq<(int, int)>, j: int, r: (int, int), x: int)
    requires
        0 <= j <= rs.len(),
    ensures
        covered(rs.insert(j, r), x) <==> (covered(rs, x) || (r.0 <= x && x < r.1)),
{
    let s = rs.insert(j, r);
    if covered(rs, x) {
        let i = choose|i: int| 0 <= i < rs.len() && #[trigger] rs[i].0 <= x && x < rs[i].1;
        if i < j {
            assert(s[i] == rs[i]);
        } else {
            assert(s[i + 1] == rs[i]);
        }
    }
    if r.0 <= x && x < r.1 {
        assert(s[j] == r);
    }
    if covered(s, x) {
        let i = choose|i: int| 0 <= i < s.len() && #[trigger] s[i].0 <= x && x < s[i].1;
        if i < j {
            assert(s[i] == rs[i]);
        } else if i > j {
            assert(s[i] == rs[i - 1]);
        }
    }
}

/// All occurrences of the words, collected word after word.
fn collect_occurrences(hay: &Vec<char>, toks: &Vec<String>) -> (r: Vec<(usize, usize)>)
    requires
        forall|i: int| 0 <= i < toks.len() ==> #[trigger] toks@[i]@.len() > 0,
    ensures
        ranges_view(r@) == all_occurrences(hay@, toks.deep_view()),
{
    let ghost tv = toks.deep_view();
    let mut out: Vec<(usize, usize)> = Vec::new();
    let mut t: usize = 0;
    assert(tv.take(0) =~= Seq::<Seq<char>>::empty());
    while t < toks.len()
        invariant
            t <= toks.len(),
            tv == toks.deep_view(),
            forall|i: int| 0 <= i < toks.len() ==> #[trigger] toks@[i]@.len() > 0,
            ranges_view(out@) == all_occurrences(hay@, tv.take(t as int)),
        decreases toks.len() - t,
    {
        let tok = chars_of(toks[t].as_str());
        assert(tv[t as int] == toks@[t as int]@);
        scan_word(hay, &tok, &mut out);
        assert(tv.take(t + 1).drop_last() =~= tv.take(t as int));
        assert(tv.take(t + 1).last() == tok@);
        t += 1;
    }
    assert(tv.take(toks.len() as int) =~= tv);
    out
}

/// The ranges ordered by start, covering the same positions.
fn sort_by_start(v: &Vec<(usize, usize)>) -> (r: Vec<(usize, usize)>)
    ensures
        forall|i: int, j: int| 0 <= i < j < r.len() ==> #[trigger] r@[i].0 <= #[trigger] r@[j].0,
        forall|x: int| covered(ranges_view(r@), x) <==> covered(ranges_view(v@), x),
        forall|n: int| ranges_within(ranges_view(v@), n) ==> ranges_within(ranges_view(r@), n),
{
    let mut r: Vec<(usize, usize)> = Vec::new();
    let ghost vv = ranges_view(v@);
    let mut k: usize = 0;
    while k < v.len()
        invariant
            k <= v.len(),
            vv == ranges_view(v@),
            forall|i: int, j: int| 0 <= i < j < r.len() ==> #[trigger] r@[i].0 <= #[trigger] r@[j].0,
            forall|x: int| covered(ranges_view(r@), x) <==> covered(vv.take(k as int), x),
            forall|i: int| 0 <= i < r.len() ==> exists|j: int| 0 <= j < k && #[trigger] r@[i] == v@[j],
        decreases v.len() - k,
    {
        let x = v[k];
        let mut j: usize = 0;
        while j < r.len() && r[j].0 <= x.0
            invariant
                j <= r.len(),
                forall|i: int| 0 <= i < j ==> #[trigger] r@[i].0 <= x.0,
            decreases r.len() - j,
        {
            j += 1;
        }
        let ghost before = r@;
        r.insert(j, x);
        proof {
            assert(r@ == before.insert(j as int, x));
            assert(ranges_view(r@) =~= ranges_view(before).insert(j as int, (x.0 as int, x.1 as int)));
            assert(vv.take(k + 1) =~= vv.take(k as int).push((x.0 as int, x.1 as int)));
            assert forall|y: int| covered(ranges_view(r@), y) <==> covered(vv.take(k + 1), y) by {
                lemma_covered_insert(ranges_view(before), j as int, (x.0 as int, x.1 as int), y);
                lemma_covered_push(vv.take(k as int), (x.0 as int, x.1 as int), y);
            }
            assert forall|a: int, b: int| 0 <= a < b < r.len() implies #[trigger] r@[a].0 <= #[trigger] r@[b].0 by {
                if b < j {
                    assert(r@[a] == before[a] && r@[b] == before[b]);
                } else if b == j {
                    assert(r@[a] == before[a]);
                } else if a == j {
                    assert(r@[b] == before[b - 1]);
                    assert(j < before.len());
                    assert(before[j as int].0 > x.0);
                    if b - 1 > j {
                        assert(before[j as int].0 <= before[b - 1].0);
                    }
                } else if a < j {
                    assert(r@[a] == before[a] && r@[b] == before[b - 1]);
                } else {
                    assert(r@[a] == before[a - 1] && r@[b] == before[b - 1]);
                }
            }
            assert forall|i: int| 0 <= i < r.len() implies exists|jj: int| 0 <= jj < k + 1 && #[trigger] r@[i] == v@[jj] by {
                if i < j {
                    assert(r@[i] == before[i]);
                } else if i == j {
                    assert(r@[i] == v@[k as int]);
                } else {
                    assert(r@[i] == before[i - 1]);
                }
            }
        }
        k += 1;
    }
    assert(vv.take(v.len() as int) =~= vv);
    assert forall|n: int| ranges_within(ranges_view(v@), n) implies ranges_within(ranges_view(r@), n) by {
        assert forall|i: int| 0 <= i < ranges_view(r@).len() implies 0 <= #[trigger] ranges_view(r@)[i].0
            && ranges_view(r@)[i].0 < ranges_view(r@)[i].1 && ranges_view(r@)[i].1 <= n by {
            let jj = choose|jj: int| 0 <= jj < v.len() && #[trigger] r@[i] == v@[jj];
            assert(ranges_view(v@)[jj] == ranges_view(r@)[i]);
        }
    }
    r
}

proof fn lemma_covered_extend_last(rs: Seq<(int, int)>, r: (int, int), x: int)
    requires
        rs.len() > 0,
        rs.last().0 <= r.0 <= rs.last().1,
    ensures
        covered(
            rs.update(rs.len() - 1, (rs.last().0, if r.1 > rs.last().1 { r.1 } else { rs.last().1 })),
            x,
        ) <==> (covered(rs, x) || (r.0 <= x && x < r.1)),
{
    let l = rs.len() - 1;
    let e = if r.1 > rs.last().1 {
        r.1
    } else {
        rs.last().1
    };
    let s = rs.update(l, (rs.last().0, e));
    if covered(rs, x) {
        let i = choose|i: int| 0 <= i < rs.len() && #[trigger] rs[i].0 <= x && x < rs[i].1;
        if i == l {
            assert(s[l].0 <= x && x < s[l].1);
        } else {
            assert(s[i] == rs[i]);
        }
    }
    if r.0 <= x && x < r.1 {
        assert(s[l].0 <= x && x < s[l].1);
    }
    if covered(s, x) {
        let i = choose|i: int| 0 <= i < s.len() && #[trigger] s[i].0 <= x && x < s[i].1;
        if i != l {
            assert(s[i] == rs[i]);
        } else if x < rs.last().1 {
            assert(rs[l].0 <= x && x < rs[l].1);
        }
    }
}

/// Merges ranges ordered by start into the maximal runs they cover: ranges
/// that overlap or touch become one.
fn merge_ranges(v: &Vec<(usize, usize)>, n: Ghost<int>) -> (r: Vec<(usize, usize)>)
    requires
        forall|i: int, j: int| 0 <= i < j < v.len() ==> #[trigger] v@[i].0 <= #[trigger] v@[j].0,
        ranges_within(ranges_view(v@), n@),
    ensures
        separated(ranges_view(r@)),
        ranges_within(ranges_view(r@), n@),
        forall|x: int| covered(ranges_view(r@), x) <==> covered(ranges_view(v@), x),
{
    let ghost vv = ranges_view(v@);
    let mut m: Vec<(usize, usize)> = Vec::new();
    let mut k: usize = 0;
    while k < v.len()
        invariant
            k <= v.len(),
            vv == ranges_view(v@),
            forall|i: int, j: int| 0 <= i < j < v.len() ==> #[trigger] v@[i].0 <= #[trigger] v@[j].0,
            ranges_within(vv, n@),
            separated(ranges_view(m@)),
            ranges_within(ranges_view(m@), n@),
            forall|x: int| covered(ranges_view(m@), x) <==> covered(vv.take(k as int), x),
            m.len() > 0 ==> forall|j: int| k <= j < v.len() ==> m@.last().0 <= #[trigger] v@[j].0,
            k > 0 ==> m.len() > 0,
        decreases v.len() - k,
    {
        let x = v[k];
        assert(vv[k as int] == (x.0 as int, x.1 as int));
        let ghost before = ranges_view(m@);
        proof {
            assert(vv.take(k + 1) =~= vv.take(k as int).push((x.0 as int, x.1 as int)));
        }
        if m.len() > 0 && x.0 <= m[m.len() - 1].1 {
            let l = m.len() - 1;
            let last = m[l];
            let end = if x.1 > last.1 {
                x.1
            } else {
                last.1
            };
            m.set(l, (last.0, end));
            proof {
                assert(ranges_view(m@) =~= before.update(l as int, (last.0 as int, end as int)));
                assert forall|y: int| covered(ranges_view(m@), y) <==> covered(vv.take(k + 1), y) by {
                    lemma_covered_extend_last(before, (x.0 as int, x.1 as int), y);
                    lemma_covered_push(vv.take(k as int), (x.0 as int, x.1 as int), y);
                }
                let mv = ranges_view(m@);
                assert forall|i: int| 0 <= i < mv.len() - 1 implies #[trigger] mv[i].1 < mv[i + 1].0 by {
                    assert(mv[i] == before[i]);
                    assert(mv[i + 1].0 == before[i + 1].0);
                }
                assert forall|i: int| 0 <= i < mv.len() implies 0 <= #[trigger] mv[i].0 && mv[i].0
                    < mv[i].1 && mv[i].1 <= n@ by {
                    if i < l {
                        assert(mv[i] == before[i]);
                    } else {
                        assert(before[i].0 < before[i].1);
                    }
                }
            }
        } else {
            m.push(x);
            proof {
                assert(ranges_view(m@) =~= before.push((x.0 as int, x.1 as int)));
                assert forall|y: int| covered(ranges_view(m@), y) <==> covered(vv.take(k + 1), y) by {
                    lemma_covered_push(before, (x.0 as int, x.1 as int), y);
                    lemma_covered_push(vv.take(k as int), (x.0 as int, x.1 as int), y);
                }
                let mv = ranges_view(m@);
                assert forall|i: int| 0 <= i < mv.len() - 1 implies #[trigger] mv[i].1 < mv[i + 1].0 by {
                    assert(mv[i] == before[i]);
                    if i + 1 < before.len() {
                        assert(mv[i + 1] == before[i + 1]);
                    }
                }
                assert forall|i: int| 0 <= i < mv.len() implies 0 <= #[trigger] mv[i].0 && mv[i].0
                    < mv[i].1 && mv[i].1 <= n@ by {
                    if i < before.len() {
                        assert(mv[i] == before[i]);
                    }
                }
            }
        }
        k += 1;
    }
    assert(vv.take(v.len() as int) =~= vv);
    m
}

/// The ranges of an already lower-cased message to highlight for an
/// already lower-cased search text: the maximal runs of positions covered by
/// an occurrence of a word of the text, each word's occurrences found left
/// to right without overlap. Ranges index characters.
pub fn highlight_lowered(lower_message: &str, lower_query: &str) -> (r: Vec<(usize, usize)>)
    ensures
        separated(ranges_view(r@)),
        ranges_within(ranges_view(r@), lower_message@.len() as int),
        forall|x: int|
            covered(ranges_view(r@), x) <==> covered(
                all_occurrences(lower_message@, words(lower_query@)),
                x,
            ),
{
    let hay = chars_of(lower_message);
    let toks = split_words(lower_query);
    proof {
        lemma_words_nonempty(lower_query@);
        assert forall|i: int| 0 <= i < toks.len() implies #[trigger] toks@[i]@.len() > 0 by {
            assert(toks.deep_view()[i] == toks@[i]@);
        }
        lemma_all_occurrences_within(hay@, toks.deep_view());
    }
    let occ = collect_occurrences(&hay, &toks);
    let sorted = sort_by_start(&occ);
    merge_ranges(&sorted, Ghost(hay@.len() as int))
}

/// The ranges of a commit message to highlight for a search text: those
/// that `highlight_lowered` gives for the lower-cased message and text.
/// Ranges index the characters of the lower-cased message.
pub fn highlight_ranges(message: &str, query: &str) -> (r: Vec<(usize, usize)>)
    ensures
        separated(ranges_view(r@)),
        ranges_within(ranges_view(r@), lowercase(message@).len() as int),
        forall|x: int|
            covered(ranges_view(r@), x) <==> covered(highlight_occurrences(message@, query@), x),
{
    let lower_message = to_lowercase(message);
    let lower_query = to_lowercase(query);
    highlight_lowered(lower_message.as_str(), lower_query.as_str())
}

} // verus!
