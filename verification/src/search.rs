//! Case-insensitive, multi-word search over reflog entries.
use vstd::prelude::*;
use crate::git::{EntryView, GitEntry, entries_view};
use crate::text::{chars_of, contains_chars, contains_seq, lowercase, to_lowercase, words, split_words};

verus! {

/// `token` occurs in `field`, both lower-cased.
pub open spec fn field_matches(field: Seq<char>, token: Seq<char>) -> bool {
    contains_seq(lowercase(field), lowercase(token))
}

/// One query word matches an entry: it occurs, ignoring case, in the
/// entry's message, hash, author or relative time.
pub open spec fn token_matches(e: EntryView, token: Seq<char>) -> bool {
    field_matches(e.message, token) || field_matches(e.hash, token) || field_matches(e.author, token)
        || field_matches(e.relative_time, token)
}

/// Every query word matches the entry (an empty query matches every entry).
pub open spec fn entry_matches(e: EntryView, tokens: Seq<Seq<char>>) -> bool {
    forall|i: int| 0 <= i < tokens.len() ==> #[trigger] token_matches(e, tokens[i])
}

/// The texts of a slice of string slices.
pub open spec fn texts(tokens: Seq<&str>) -> Seq<Seq<char>> {
    tokens.map_values(|t: &str| t@)
}

/// The positions, in increasing order, of the first `k` entries that match.
pub open spec fn matching_indices(entries: Seq<EntryView>, tokens: Seq<Seq<char>>, k: int) -> Seq<usize>
    decreases k,
{
    if k <= 0 {
        seq![]
    } else if entry_matches(entries[k - 1], tokens) {
        matching_indices(entries, tokens, k - 1).push((k - 1) as usize)
    } else {
        matching_indices(entries, tokens, k - 1)
    }
}

/// The query words of a search text: its lower-cased whitespace-separated
/// words.
pub open spec fn query_tokens(query: Seq<char>) -> Seq<Seq<char>> {
    words(lowercase(query))
}

/// The positions of the entries that a search text selects.
pub open spec fn search_results(entries: Seq<EntryView>, query: Seq<char>) -> Seq<usize> {
    matching_indices(entries, query_tokens(query), entries.len() as int)
}

/// Every word occurs in one of four fields, taken as they are.
pub open spec fn fields_match(
    message: Seq<char>,
    hash: Seq<char>,
    author: Seq<char>,
    time: Seq<char>,
    tokens: Seq<Seq<char>>,
) -> bool {
    forall|i: int|
        0 <= i < tokens.len() ==> contains_seq(message, #[trigger] tokens[i]) || contains_seq(
            hash,
            tokens[i],
        ) || contains_seq(author, tokens[i]) || contains_seq(time, tokens[i])
}

/// Whether every word of `tokens` occurs in the message, hash, author or
/// relative time as given: the case-blind match of `entry_matches_query`
/// once fields and words are lower-cased.
pub fn lowered_fields_match(
    message: &str,
    hash: &str,
    author: &str,
    relative_time: &str,
    tokens: &[&str],
) -> (r: bool)
    ensures
        r == fields_match(message@, hash@, author@, relative_time@, texts(tokens@)),
{
    let m = chars_of(message);
    let h = chars_of(hash);
    let a = chars_of(author);
    let t = chars_of(relative_time);
    let ghost toks = texts(tokens@);
    let mut i: usize = 0;
    while i < tokens.len()
        invariant
            i <= tokens.len(),
            toks == texts(tokens@),
            m@ == message@,
            h@ == hash@,
            a@ == author@,
            t@ == relative_time@,
            forall|j: int|
                0 <= j < i ==> contains_seq(m@, #[trigger] toks[j]) || contains_seq(h@, toks[j])
                    || contains_seq(a@, toks[j]) || contains_seq(t@, toks[j]),
        decreases tokens.len() - i,
    {
        let tc = chars_of(tokens[i]);
        assert(toks[i as int] == tokens@[i as int]@);
        let ok = contains_chars(&m, &tc) || contains_chars(&h, &tc) || contains_chars(&a, &tc)
            || contains_chars(&t, &tc);
        if !ok {
            return false;
        }
        i += 1;
    }
    true
}

/// Whether every query word occurs, ignoring case, in the entry's message,
/// hash, author or relative time.
pub fn entry_matches_query(entry: &GitEntry, tokens: &[&str]) -> (r: bool)
    ensures
        r == entry_matches(entry@, texts(tokens@)),
{
    let m = to_lowercase(entry.message.as_str());
    let h = to_lowercase(entry.hash.as_str());
    let a = to_lowercase(entry.author.as_str());
    let t = to_lowercase(entry.relative_time.as_str());
    let mut lowered: Vec<String> = Vec::new();
    let mut i: usize = 0;
    while i < tokens.len()
        invariant
            i <= tokens.len(),
            lowered.len() == i,
            forall|j: int| 0 <= j < i ==> #[trigger] lowered@[j]@ == lowercase(tokens@[j]@),
        decreases tokens.len() - i,
    {
        lowered.push(to_lowercase(tokens[i]));
        i += 1;
    }
    let mut refs: Vec<&str> = Vec::new();
    let mut k: usize = 0;
    while k < lowered.len()
        invariant
            k <= lowered.len(),
            lowered.len() == tokens.len(),
            refs.len() == k,
            forall|j: int| 0 <= j < k ==> #[trigger] refs@[j]@ == lowered@[j]@,
        decreases lowered.len() - k,
    {
        refs.push(lowered[k].as_str());
        k += 1;
    }
    let r = lowered_fields_match(m.as_str(), h.as_str(), a.as_str(), t.as_str(), refs.as_slice());
    proof {
        let toks = texts(tokens@);
        let low = texts(refs@);
        assert forall|j: int| 0 <= j < toks.len() implies #[trigger] low[j] == lowercase(toks[j]) by {
            assert(low[j] == refs@[j]@);
            assert(toks[j] == tokens@[j]@);
        }
        assert(low.len() == toks.len());
        if r {
            assert forall|j: int| 0 <= j < toks.len() implies #[trigger] token_matches(entry@, toks[j]) by {
                assert(low[j] == lowercase(toks[j]));
            }
        } else {
            let j = choose|j: int| 0 <= j < low.len() && !(contains_seq(m@, #[trigger] low[j]) || contains_seq(h@, low[j])
                || contains_seq(a@, low[j]) || contains_seq(t@, low[j]));
            assert(low[j] == lowercase(toks[j]));
            assert(!token_matches(entry@, toks[j]));
        }
    }
    r
}

/// Positions of the entries that match every word of a search text; an
/// empty or blank text matches every entry.
pub fn filter_entries(entries: &Vec<GitEntry>, query: &str) -> (r: Vec<usize>)
    ensures
        r@ == search_results(entries_view(entries@), query@),
{
    let lowered = to_lowercase(query);
    let words_vec = split_words(lowered.as_str());
    let mut token_refs: Vec<&str> = Vec::new();
    let mut w: usize = 0;
    while w < words_vec.len()
        invariant
            w <= words_vec.len(),
            texts(token_refs@) == words_vec.deep_view().take(w as int),
        decreases words_vec.len() - w,
    {
        let ghost old_refs = token_refs@;
        let word: &str = words_vec[w].as_str();
        token_refs.push(word);
        assert(words_vec.deep_view()[w as int] == word@);
        assert(token_refs@ == old_refs.push(word));
        assert(texts(old_refs.push(word)) =~= texts(old_refs).push(word@));
        assert(texts(token_refs@) =~= words_vec.deep_view().take(w + 1));
        w += 1;
    }
    assert(words_vec.deep_view().take(w as int) =~= words_vec.deep_view());
    let ghost ev = entries_view(entries@);
    let ghost toks = query_tokens(query@);
    let mut r: Vec<usize> = Vec::new();
    let mut i: usize = 0;
    while i < entries.len()
        invariant
            i <= entries.len(),
            ev == entries_view(entries@),
            toks == texts(token_refs@),
            r@ == matching_indices(ev, toks, i as int),
        decreases entries.len() - i,
    {
        assert(ev[i as int] == entries@[i as int]@);
        if entry_matches_query(&entries[i], token_refs.as_slice()) {
            r.push(i);
        }
        i += 1;
    }
    r
}

/// The search keeps exactly the entries that match every query word, in
/// their order: the positions it lists increase, each is an entry that
/// matches, and each entry that matches is listed.
pub proof fn lemma_search_results_exact(entries: Seq<EntryView>, tokens: Seq<Seq<char>>, k: int)
    requires
        0 <= k <= entries.len(),
        entries.len() <= usize::MAX,
    ensures
        forall|i: int, j: int|
            0 <= i < j < matching_indices(entries, tokens, k).len() ==> #[trigger] matching_indices(
                entries,
                tokens,
                k,
            )[i] < #[trigger] matching_indices(entries, tokens, k)[j],
        forall|i: int|
            0 <= i < matching_indices(entries, tokens, k).len() ==> {
                let p = #[trigger] matching_indices(entries, tokens, k)[i];
                p < k && entry_matches(entries[p as int], tokens)
            },
        forall|p: int|
            0 <= p < k && #[trigger] entry_matches(entries[p], tokens) ==> matching_indices(
                entries,
                tokens,
                k,
            ).contains(p as usize),
    decreases k,
{
    if k > 0 {
        lemma_search_results_exact(entries, tokens, k - 1);
        let prev = matching_indices(entries, tokens, k - 1);
        let m = matching_indices(entries, tokens, k);
        if entry_matches(entries[k - 1], tokens) {
            assert(m == prev.push((k - 1) as usize));
            assert forall|i: int, j: int| 0 <= i < j < m.len() implies #[trigger] m[i] < #[trigger] m[j] by {
                assert(m[i] == prev[i]);
                if j < prev.len() {
                    assert(m[j] == prev[j]);
                } else {
                    assert(m[j] == (k - 1) as usize);
                    assert(prev[i] < k - 1);
                }
            }
            assert forall|i: int| 0 <= i < m.len() implies {
                let p = #[trigger] m[i];
                p < k && entry_matches(entries[p as int], tokens)
            } by {
                if i < prev.len() {
                    assert(m[i] == prev[i]);
                    let p = prev[i];
                    assert(p < k - 1 && entry_matches(entries[p as int], tokens));
                }
            }
            assert forall|p: int| 0 <= p < k && #[trigger] entry_matches(entries[p], tokens) implies m.contains(
                p as usize,
            ) by {
                if p == k - 1 {
                    assert(m[prev.len() as int] == (k - 1) as usize);
                } else {
                    assert(prev.contains(p as usize));
                    let j = choose|j: int| 0 <= j < prev.len() && prev[j] == p as usize;
                    assert(m[j] == prev[j]);
                }
            }
        } else {
            assert(m == prev);
            assert forall|i: int| 0 <= i < m.len() implies {
                let p = #[trigger] m[i];
                p < k && entry_matches(entries[p as int], tokens)
            } by {
                let p = prev[i];
                assert(p < k - 1 && entry_matches(entries[p as int], tokens));
            }
            assert forall|p: int| 0 <= p < k && #[trigger] entry_matches(entries[p], tokens) implies m.contains(
                p as usize,
            ) by {
                assert(p != k - 1);
            }
        }
    }
}

/// A search text without words keeps every entry.
pub proof fn lemma_blank_search_keeps_all(entries: Seq<EntryView>, query: Seq<char>)
    requires
        query_tokens(query).len() == 0,
    ensures
        search_results(entries, query) =~= Seq::new(entries.len(), |i: int| i as usize),
{
    lemma_no_words_keeps_prefix(entries, query_tokens(query), entries.len() as int);
}

proof fn lemma_no_words_keeps_prefix(entries: Seq<EntryView>, tokens: Seq<Seq<char>>, k: int)
    requires
        tokens.len() == 0,
        0 <= k <= entries.len(),
    ensures
        matching_indices(entries, tokens, k) =~= Seq::new(k as nat, |i: int| i as usize),
    decreases k,
{
    if k > 0 {
        lemma_no_words_keeps_prefix(entries, tokens, k - 1);
        assert(entry_matches(entries[k - 1], tokens));
    }
}

/// A single query word matches an entry exactly when, ignoring case, it
/// occurs somewhere in the entry's message, in its whole hash, in its author
/// or in its relative time.
pub proof fn lemma_word_matches_any_field(e: EntryView, w: Seq<char>)
    ensures
        entry_matches(e, seq![w]) <==> (contains_seq(lowercase(e.message), lowercase(w))
            || contains_seq(lowercase(e.hash), lowercase(w)) || contains_seq(
            lowercase(e.author),
            lowercase(w),
        ) || contains_seq(lowercase(e.relative_time), lowercase(w))),
{
    assert(seq![w][0] == w);
    if entry_matches(e, seq![w]) {
        assert(token_matches(e, seq![w][0]));
    }
}

/// A query of several words matches an entry exactly when each of its words
/// matches the entry on its own.
pub proof fn lemma_all_words_must_match(e: EntryView, ws: Seq<Seq<char>>)
    ensures
        entry_matches(e, ws) <==> forall|i: int| 0 <= i < ws.len() ==> entry_matches(e, #[trigger] seq![ws[i]]),
{
    if entry_matches(e, ws) {
        assert forall|i: int| 0 <= i < ws.len() implies entry_matches(e, #[trigger] seq![ws[i]]) by {
            assert(token_matches(e, ws[i]));
            lemma_word_matches_any_field(e, ws[i]);
        }
    }
    if forall|i: int| 0 <= i < ws.len() ==> entry_matches(e, #[trigger] seq![ws[i]]) {
        assert forall|i: int| 0 <= i < ws.len() implies #[trigger] token_matches(e, ws[i]) by {
            assert(entry_matches(e, seq![ws[i]]));
            lemma_word_matches_any_field(e, ws[i]);
        }
    }
}

} // verus!
