//! The inputs of a search and the decisions taken on its results: how a
//! short query is expanded, which hits pass the type and date filters, and
//! which two hits trade places when one document type crowds the head of the
//! list.

use vstd::prelude::*;
use crate::text::{
    chars_of, is_ws, char_is_ws, join_sep, lemma_str_lt_total, lemma_str_lt_trans, push_char, push_str,
    owned, same_text, str_less, str_lt, strs,
    string_of,
};

verus! {

/// The settings of the search engine.
#[derive(Debug, Clone)]
pub struct SearchEngineConfig {
    /// Neighbours added per match from the knowledge graph (0 turns it off).
    pub expand_kg_hops: usize,
    /// Results of one document type above which another type is mixed in (0 turns it off).
    pub diversity_threshold: usize,
    /// Retry with a hypothetical answer when the first pass finds little.
    pub hyde_enabled: bool,
    /// Results below which that retry happens.
    pub hyde_min_results: usize,
    /// Beam search over the knowledge graph.
    pub kg_beam_search: bool,
    /// Rerank results for diversity by term frequencies.
    pub tfidf_rerank_enabled: bool,
}

impl Default for SearchEngineConfig {
    fn default() -> (r: Self)
        ensures
            r.expand_kg_hops == 0,
            r.diversity_threshold == 0,
            !r.hyde_enabled,
            r.hyde_min_results == 3,
            !r.kg_beam_search,
            !r.tfidf_rerank_enabled,
    {
        SearchEngineConfig {
            expand_kg_hops: 0,
            diversity_threshold: 0,
            hyde_enabled: false,
            hyde_min_results: 3,
            kg_beam_search: false,
            tfidf_rerank_enabled: false,
        }
    }
}

/// One search request.
#[derive(Debug, Clone)]
pub struct SearchQuery {
    pub query: String,
    pub keyword: Option<String>,
    pub doc_type: Option<String>,
    pub mode: String,
    pub top_k: usize,
    pub date_from: String,
    pub date_to: String,
}

/// The words of `s` as `str::split_whitespace` gives them: the maximal runs
/// of characters that are not whitespace, in order.
pub open spec fn ws_words(s: Seq<char>) -> Seq<Seq<char>>
    decreases s.len(),
{
    if s.len() == 0 {
        seq![]
    } else {
        let r = ws_words(s.drop_last());
        if is_ws(s.last()) {
            r
        } else if s.len() >= 2 && !is_ws(s[s.len() - 2]) && r.len() > 0 {
            r.update(r.len() - 1, r.last().push(s.last()))
        } else {
            r.push(seq![s.last()])
        }
    }
}

/// The query actually embedded: a query of at most three words, in the
/// modes `default` and `related`, is followed by a space and its words
/// joined by single spaces; any other query is used as it is.
pub open spec fn expanded_query(query: Seq<char>, mode: Seq<char>) -> Seq<char> {
    let w = ws_words(query);
    if w.len() <= 3 && (mode == "default"@ || mode == "related"@) {
        query + seq![' '] + join_sep(w, seq![' '])
    } else {
        query
    }
}

/// The words of `s`.
pub fn words_of(s: &[char]) -> (r: Vec<Vec<char>>)
    ensures
        crate::text::views(r@) == ws_words(s@),
{
    let mut r: Vec<Vec<char>> = Vec::new();
    let mut i: usize = 0;
    proof {
        assert(s@.take(0) =~= Seq::<char>::empty());
    }
    while i < s.len()
        invariant
            i <= s@.len(),
            crate::text::views(r@) == ws_words(s@.take(i as int)),
        decreases s@.len() - i,
    {
        let ghost t = s@.take(i + 1);
        proof {
            assert(t.drop_last() =~= s@.take(i as int));
            assert(t.last() == s@[i as int]);
        }
        let c = s[i];
        if !char_is_ws(c) {
            let joins = i >= 1 && !char_is_ws(s[i - 1]) && r.len() > 0;
            if joins {
                proof {
                    assert(t[t.len() - 2] == s@[i - 1]);
                }
                let last = r.len() - 1;
                let mut w = r[last].clone();
                w.push(c);
                let ghost before = crate::text::views(r@);
                r.set(last, w);
                proof {
                    assert(crate::text::views(r@) =~= before.update(
                        before.len() - 1,
                        before.last().push(c),
                    ));
                }
            } else {
                proof {
                    if i >= 1 {
                        assert(t[t.len() - 2] == s@[i - 1]);
                    }
                }
                let ghost before = crate::text::views(r@);
                let mut w: Vec<char> = Vec::new();
                w.push(c);
                r.push(w);
                proof {
                    assert(crate::text::views(r@) =~= before.push(seq![c]));
                }
            }
        }
        i = i + 1;
    }
    proof {
        assert(s@.take(i as int) =~= s@);
    }
    r
}

/// The query that is embedded for `query` in `mode` (see `expanded_query`).
pub fn expand_query(query: &str, mode: &str) -> (r: String)
    ensures
        r@ == expanded_query(query@, mode@),
{
    let s = chars_of(query);
    let words = words_of(s.as_slice());
    let wide = same_text(mode, "default") || same_text(mode, "related");
    proof {
        reveal_strlit("default");
        reveal_strlit("related");
    }
    if words.len() <= 3 && wide {
        let mut r = string_of(s.as_slice());
        push_char(&mut r, ' ');
        let mut k: usize = 0;
        let ghost base = r@;
        while k < words.len()
            invariant
                k <= words@.len(),
                base == query@ + seq![' '],
                r@ == base + join_sep(crate::text::views(words@).take(k as int), seq![' ']),
            decreases words@.len() - k,
        {
            let ghost items = crate::text::views(words@);
            proof {
                assert(items.take(k + 1) =~= items.take(k as int).push(items[k as int]));
                crate::text::lemma_join_sep_push(items.take(k as int), seq![' '], items[k as int]);
            }
            if k > 0 {
                push_char(&mut r, ' ');
            }
            let w = string_of(words[k].as_slice());
            push_str(&mut r, w.as_str());
            proof {
                if k == 0 {
                    assert(items.take(0) =~= Seq::<Seq<char>>::empty());
                }
                assert(r@ =~= base + join_sep(items.take(k + 1), seq![' ']));
            }
            k = k + 1;
        }
        proof {
            assert(crate::text::views(words@).take(k as int) =~= crate::text::views(words@));
        }
        r
    } else {
        string_of(s.as_slice())
    }
}

/// Whether a hit with these document types and this date passes the filters:
/// it has the requested type (when one is requested), and its date is not
/// before `date_from` nor after `date_to` (an empty bound does not apply;
/// dates compare as strings).
pub open spec fn keeps_hit(
    doc_types: Seq<Seq<char>>,
    date: Seq<char>,
    doc_type: Option<Seq<char>>,
    date_from: Seq<char>,
    date_to: Seq<char>,
) -> bool {
    &&& match doc_type {
        Some(t) => doc_types.contains(t),
        None => true,
    }
    &&& (date_from.len() == 0 || !str_lt(date, date_from))
    &&& (date_to.len() == 0 || !str_lt(date_to, date))
}

/// Whether a hit passes the type and date filters of `q`.
pub fn hit_passes(q: &SearchQuery, doc_types: &Vec<String>, date: &str) -> (r: bool)
    ensures
        r == keeps_hit(
            strs(doc_types@),
            date@,
            match q.doc_type {
                Some(t) => Some(t@),
                None => None,
            },
            q.date_from@,
            q.date_to@,
        ),
{
    let type_ok = match &q.doc_type {
        Some(t) => {
            let mut found = false;
            let mut i: usize = 0;
            while i < doc_types.len()
                invariant
                    i <= doc_types@.len(),
                    found == strs(doc_types@).take(i as int).contains(t@),
                decreases doc_types@.len() - i,
            {
                proof {
                    assert(strs(doc_types@).take(i + 1) =~= strs(doc_types@).take(i as int).push(
                        doc_types@[i as int]@,
                    ));
                }
                let hit = same_text(doc_types[i].as_str(), t.as_str());
                proof {
                    let a = strs(doc_types@).take(i as int);
                    let b = strs(doc_types@).take(i + 1);
                    assert(b[i as int] == doc_types@[i as int]@);
                    if hit {
                        assert(b.contains(t@));
                    } else if b.contains(t@) {
                        let m = choose|m: int| 0 <= m < b.len() && b[m] == t@;
                        assert(m != i);
                        assert(a[m] == b[m]);
                    }
                    if found {
                        let m = choose|m: int| 0 <= m < a.len() && a[m] == t@;
                        assert(b[m] == a[m]);
                    }
                }
                if hit {
                    found = true;
                }
                i = i + 1;
            }
            proof {
                assert(strs(doc_types@).take(i as int) =~= strs(doc_types@));
            }
            found
        },
        None => true,
    };
    let from_ok = chars_of(q.date_from.as_str()).len() == 0 || !str_less(date, q.date_from.as_str());
    let to_ok = chars_of(q.date_to.as_str()).len() == 0 || !str_less(q.date_to.as_str(), date);
    type_ok && from_ok && to_ok
}

/// The document types of each hit, as plain values.
pub open spec fn type_lists(v: Seq<Vec<String>>) -> Seq<Seq<Seq<char>>> {
    Seq::new(v.len(), |i: int| strs(v[i]@))
}

/// How often `t` occurs in `ts`.
pub open spec fn count_in(ts: Seq<Seq<char>>, t: Seq<char>) -> nat
    decreases ts.len(),
{
    if ts.len() == 0 {
        0
    } else {
        count_in(ts.drop_last(), t) + if ts.last() == t {
            1nat
        } else {
            0nat
        }
    }
}

/// How often `t` occurs among the types of the first `n` hits.
pub open spec fn head_count(types: Seq<Seq<Seq<char>>>, n: int, t: Seq<char>) -> nat
    decreases n,
{
    if n <= 0 {
        0
    } else {
        head_count(types, n - 1, t) + count_in(types[n - 1], t)
    }
}

/// `ts` holds a type that occurs more than `threshold` times among the types
/// of the first `head` hits.
pub open spec fn has_dominant(
    types: Seq<Seq<Seq<char>>>,
    head: int,
    threshold: nat,
    ts: Seq<Seq<char>>,
) -> bool {
    exists|k: int| 0 <= k < ts.len() && head_count(types, head, #[trigger] ts[k]) > threshold
}

/// The positions that trade places to mix another type into the head: `Some((d, p))`
/// where `d` is the last of the first `head` hits with a dominant type and `p`
/// the first hit after the head without one.
pub open spec fn diversity_pair_ok(
    types: Seq<Seq<Seq<char>>>,
    head: int,
    threshold: nat,
    r: Option<(usize, usize)>,
) -> bool {
    match r {
        Some((d, p)) => {
            &&& d < head <= p < types.len()
            &&& has_dominant(types, head, threshold, types[d as int])
            &&& !has_dominant(types, head, threshold, types[p as int])
            &&& forall|j: int| head <= j < p ==> has_dominant(types, head, threshold, #[trigger] types[j])
            &&& forall|j: int| d < j < head ==> !has_dominant(types, head, threshold, #[trigger] types[j])
        },
        None => (forall|i: int|
            0 <= i < head ==> !has_dominant(types, head, threshold, #[trigger] types[i])) || (
        forall|j: int| head <= j < types.len() ==> has_dominant(types, head, threshold, #[trigger] types[j])),
    }
}

/// Whether `t` occurs more than `threshold` times among the types of the
/// first `head` hits.
fn exceeds(types: &Vec<Vec<String>>, head: usize, t: &str, threshold: usize) -> (b: bool)
    requires
        head <= types@.len(),
    ensures
        b == (head_count(type_lists(types@), head as int, t@) > threshold),
{
    let ghost tl = type_lists(types@);
    let mut count: u128 = 0;
    let mut i: usize = 0;
    while i < head
        invariant
            i <= head <= types@.len(),
            tl == type_lists(types@),
            count == head_count(tl, i as int, t@),
            count <= threshold,
        decreases head - i,
    {
        let ts = &types[i];
        let mut k: usize = 0;
        let mut c: u128 = count;
        while k < ts.len()
            invariant
                k <= ts@.len(),
                i < head <= types@.len(),
                ts@ == types@[i as int]@,
                tl == type_lists(types@),
                c == head_count(tl, i as int, t@) + count_in(strs(ts@).take(k as int), t@),
                c <= threshold,
            decreases ts@.len() - k,
        {
            proof {
                assert(strs(ts@).take(k + 1).drop_last() =~= strs(ts@).take(k as int));
            }
            if same_text(ts[k].as_str(), t) {
                c = c + 1;
                if c > threshold as u128 {
                    proof {
                        lemma_head_count_mono(tl, i as int, t@, strs(ts@), k + 1);
                    }
                    return true;
                }
            }
            k = k + 1;
        }
        proof {
            assert(strs(ts@).take(k as int) =~= strs(ts@));
            assert(tl[i as int] == strs(ts@));
        }
        count = c;
        i = i + 1;
    }
    false
}

/// A partial count of the next hit bounds the count of the longer head from
/// below, and the count only grows with the head.
proof fn lemma_head_count_mono(
    types: Seq<Seq<Seq<char>>>,
    i: int,
    t: Seq<char>,
    ts: Seq<Seq<char>>,
    k: int,
)
    requires
        0 <= i < types.len(),
        types[i] == ts,
        0 <= k <= ts.len(),
    ensures
        forall|h: int|
            i < h <= types.len() ==> head_count(types, h, t) >= head_count(types, i, t) + count_in(
                ts.take(k),
                t,
            ),
{
    lemma_count_in_prefix(ts, k, t);
    assert forall|h: int| i < h <= types.len() implies head_count(types, h, t) >= head_count(
        types,
        i,
        t,
    ) + count_in(ts.take(k), t) by {
        lemma_head_count_grows(types, i + 1, h, t);
    }
}

/// A prefix holds no more occurrences than the whole.
proof fn lemma_count_in_prefix(ts: Seq<Seq<char>>, k: int, t: Seq<char>)
    requires
        0 <= k <= ts.len(),
    ensures
        count_in(ts.take(k), t) <= count_in(ts, t),
    decreases ts.len() - k,
{
    if k < ts.len() {
        lemma_count_in_prefix(ts, k + 1, t);
        assert(ts.take(k + 1).drop_last() =~= ts.take(k));
    } else {
        assert(ts.take(k) =~= ts);
    }
}

/// The count over a longer head is at least the count over a shorter one.
proof fn lemma_head_count_grows(types: Seq<Seq<Seq<char>>>, a: int, b: int, t: Seq<char>)
    requires
        0 <= a <= b,
    ensures
        head_count(types, a, t) <= head_count(types, b, t),
    decreases b - a,
{
    if a < b {
        lemma_head_count_grows(types, a, b - 1, t);
    }
}

/// Whether `ts` holds a dominant type.
fn has_dominant_exec(types: &Vec<Vec<String>>, head: usize, threshold: usize, ts: &Vec<String>) -> (b: bool)
    requires
        head <= types@.len(),
    ensures
        b == has_dominant(type_lists(types@), head as int, threshold as nat, strs(ts@)),
{
    let mut k: usize = 0;
    while k < ts.len()
        invariant
            k <= ts@.len(),
            head <= types@.len(),
            forall|m: int|
                0 <= m < k ==> !(head_count(type_lists(types@), head as int, #[trigger] strs(ts@)[m])
                    > threshold),
        decreases ts@.len() - k,
    {
        if exceeds(types, head, ts[k].as_str(), threshold) {
            proof {
                assert(strs(ts@)[k as int] == ts@[k as int]@);
            }
            return true;
        }
        k = k + 1;
    }
    false
}

/// The first hit after the head that holds no dominant type.
fn first_without_dominant(types: &Vec<Vec<String>>, head: usize, threshold: usize) -> (r: Option<usize>)
    requires
        head <= types@.len(),
    ensures
        match r {
            Some(p) => head <= p < types@.len() && !has_dominant(
                type_lists(types@),
                head as int,
                threshold as nat,
                type_lists(types@)[p as int],
            ) && forall|j: int|
                head <= j < p ==> has_dominant(
                    type_lists(types@),
                    head as int,
                    threshold as nat,
                    #[trigger] type_lists(types@)[j],
                ),
            None => forall|j: int|
                head <= j < types@.len() ==> has_dominant(
                    type_lists(types@),
                    head as int,
                    threshold as nat,
                    #[trigger] type_lists(types@)[j],
                ),
        },
{
    let ghost tl = type_lists(types@);
    let mut p: usize = head;
    while p < types.len()
        invariant
            head <= p <= types@.len(),
            tl == type_lists(types@),
            forall|j: int| head <= j < p ==> has_dominant(tl, head as int, threshold as nat, #[trigger] tl[j]),
        decreases types@.len() - p,
    {
        proof {
            assert(tl[p as int] == strs(types@[p as int]@));
        }
        if !has_dominant_exec(types, head, threshold, &types[p]) {
            return Some(p);
        }
        p = p + 1;
    }
    None
}

/// The two hits that trade places when one document type crowds the first
/// `top_k` hits: with `threshold > 0` and more than `top_k` hits, a type
/// occurring more than `threshold` times in the head is dominant; the last
/// head hit with a dominant type goes down and the first later hit without
/// one comes up. `None` when no swap applies.
pub fn diversity_swap(types: &Vec<Vec<String>>, top_k: usize, threshold: usize) -> (r: Option<
    (usize, usize),
>)
    ensures
        (threshold == 0 || types@.len() <= top_k) ==> r is None,
        threshold > 0 && types@.len() > top_k ==> diversity_pair_ok(
            type_lists(types@),
            top_k as int,
            threshold as nat,
            r,
        ),
{
    if threshold == 0 || types.len() <= top_k {
        return None;
    }
    let head = top_k;
    let ghost tl = type_lists(types@);
    let p = match first_without_dominant(types, head, threshold) {
        Some(p) => p,
        None => {
            return None;
        },
    };
    proof {
        assert(tl[p as int] == strs(types@[p as int]@));
    }
    let mut d: usize = head;
    while d > 0
        invariant
            d <= head == top_k < types@.len(),
            head <= p < types@.len(),
            threshold > 0,
            tl == type_lists(types@),
            !has_dominant(tl, head as int, threshold as nat, tl[p as int]),
            forall|j: int| head <= j < p ==> has_dominant(tl, head as int, threshold as nat, #[trigger] tl[j]),
            forall|j: int| d <= j < head ==> !has_dominant(tl, head as int, threshold as nat, #[trigger] tl[j]),
        decreases d,
    {
        if has_dominant_exec(types, head, threshold, &types[d - 1]) {
            proof {
                assert(tl[d - 1] == strs(types@[d - 1]@));
            }
            return Some((d - 1, p));
        }
        proof {
            assert(tl[d - 1] == strs(types@[d - 1]@));
        }
        d = d - 1;
    }
    None
}


// ---------------------------------------------------------------------------
// Type overlap of two results
// ---------------------------------------------------------------------------

/// The number of types of `a` that `b` has too (each type of `a` counted
/// once per occurrence in `a`).
pub open spec fn type_overlap_spec(a: Seq<Seq<char>>, b: Seq<Seq<char>>) -> nat
    decreases a.len(),
{
    if a.len() == 0 {
        0
    } else {
        type_overlap_spec(a.drop_last(), b) + if b.contains(a.last()) {
            1nat
        } else {
            0nat
        }
    }
}

/// The number of types of `a` that `b` has too: the numerator of the type
/// similarity used to diversify results.
pub fn type_overlap(a: &Vec<String>, b: &Vec<String>) -> (r: usize)
    ensures
        r == type_overlap_spec(strs(a@), strs(b@)),
{
    let ghost sa = strs(a@);
    let ghost sb = strs(b@);
    let mut n: usize = 0;
    let mut i: usize = 0;
    while i < a.len()
        invariant
            i <= a@.len(),
            sa == strs(a@),
            sb == strs(b@),
            n <= i,
            n == type_overlap_spec(sa.take(i as int), sb),
        decreases a@.len() - i,
    {
        let mut found = false;
        let mut k: usize = 0;
        while k < b.len()
            invariant
                k <= b@.len(),
                sb == strs(b@),
                i < a@.len(),
                found == exists|m: int| 0 <= m < k && sb[m] == a@[i as int]@,
            decreases b@.len() - k,
        {
            if same_text(b[k].as_str(), a[i].as_str()) {
                found = true;
            }
            proof {
                assert(sb[k as int] == b@[k as int]@);
            }
            k = k + 1;
        }
        proof {
            assert(sa.take(i + 1).drop_last() =~= sa.take(i as int));
            assert(sa.take(i + 1).last() == a@[i as int]@);
            if found {
                let m = choose|m: int| 0 <= m < k && sb[m] == a@[i as int]@;
                assert(sb.contains(a@[i as int]@));
            }
            if sb.contains(a@[i as int]@) {
                let m = choose|m: int| 0 <= m < sb.len() && sb[m] == a@[i as int]@;
                assert(sb[m] == a@[i as int]@);
            }
        }
        if found {
            n = n + 1;
        }
        i = i + 1;
    }
    proof {
        assert(sa.take(i as int) =~= sa);
    }
    n
}


// ---------------------------------------------------------------------------
// Merging and expanding result lists (by document id)
// ---------------------------------------------------------------------------

/// `results` followed by each id of `extra` that is not there yet, in order
/// of first occurrence.
pub open spec fn merged(results: Seq<Seq<char>>, extra: Seq<Seq<char>>) -> Seq<Seq<char>>
    decreases extra.len(),
{
    if extra.len() == 0 {
        results
    } else {
        let m = merged(results, extra.drop_last());
        if m.contains(extra.last()) {
            m
        } else {
            m.push(extra.last())
        }
    }
}

/// Whether `v` holds a string equal to `x`.
fn holds(v: &Vec<String>, x: &str) -> (r: bool)
    ensures
        r == strs(v@).contains(x@),
{
    let mut i: usize = 0;
    while i < v.len()
        invariant
            i <= v@.len(),
            forall|k: int| 0 <= k < i ==> strs(v@)[k] != x@,
        decreases v@.len() - i,
    {
        if same_text(v[i].as_str(), x) {
            proof {
                assert(strs(v@)[i as int] == x@);
            }
            return true;
        }
        i = i + 1;
    }
    false
}

/// Appends to `results` the ids of `extra` that it does not hold yet: the
/// merge of an extra search into the results without duplicates.
pub fn merge_new(results: &Vec<String>, extra: &Vec<String>) -> (r: Vec<String>)
    ensures
        strs(r@) == merged(strs(results@), strs(extra@)),
{
    let mut r: Vec<String> = Vec::new();
    let mut i: usize = 0;
    while i < results.len()
        invariant
            i <= results@.len(),
            r@.len() == i,
            strs(r@) == strs(results@).take(i as int),
        decreases results@.len() - i,
    {
        let ghost before = r@;
        let x = results[i].clone();
        r.push(x);
        proof {
            assert(r@ == before.push(results@[i as int]));
            assert forall|k: int| 0 <= k < i + 1 implies #[trigger] strs(r@)[k] == strs(results@).take(i + 1)[k] by {
                if k < i {
                    assert(r@[k] == before[k]);
                    assert(strs(before)[k] == strs(results@).take(i as int)[k]);
                }
            }
            assert(strs(r@) =~= strs(results@).take(i + 1));
        }
        i = i + 1;
    }
    proof {
        assert(strs(results@).take(i as int) =~= strs(results@));
        assert(strs(extra@).take(0) =~= Seq::<Seq<char>>::empty());
    }
    let mut j: usize = 0;
    while j < extra.len()
        invariant
            j <= extra@.len(),
            strs(r@) == merged(strs(results@), strs(extra@).take(j as int)),
        decreases extra@.len() - j,
    {
        proof {
            assert(strs(extra@).take(j + 1).drop_last() =~= strs(extra@).take(j as int));
            assert(strs(extra@).take(j + 1).last() == extra@[j as int]@);
        }
        if !holds(&r, extra[j].as_str()) {
            let ghost before = strs(r@);
            r.push(extra[j].clone());
            proof {
                assert(strs(r@) =~= before.push(extra@[j as int]@));
            }
        }
        j = j + 1;
    }
    proof {
        assert(strs(extra@).take(j as int) =~= strs(extra@));
    }
    r
}

/// The lists `ss` one after the other.
pub open spec fn concat_all(ss: Seq<Seq<Seq<char>>>) -> Seq<Seq<char>>
    decreases ss.len(),
{
    if ss.len() == 0 {
        seq![]
    } else {
        concat_all(ss.drop_last()) + ss.last()
    }
}

/// The targets added from the candidates `cands`, in order: each candidate
/// that is a known document, not among `present` nor added before, while
/// fewer than `max_add` were added.
pub open spec fn added_targets(cands: Seq<Seq<char>>, present: Seq<Seq<char>>, known: Seq<Seq<char>>, max_add: nat) -> Seq<
    Seq<char>,
>
    decreases cands.len(),
{
    if cands.len() == 0 {
        seq![]
    } else {
        let a = added_targets(cands.drop_last(), present, known, max_add);
        let c = cands.last();
        if a.len() < max_add && !present.contains(c) && !a.contains(c) && known.contains(c) {
            a.push(c)
        } else {
            a
        }
    }
}

proof fn lemma_added_bound(cands: Seq<Seq<char>>, present: Seq<Seq<char>>, known: Seq<Seq<char>>, max_add: nat)
    ensures
        added_targets(cands, present, known, max_add).len() <= max_add,
        added_targets(cands, present, known, max_add).len() <= cands.len(),
    decreases cands.len(),
{
    if cands.len() > 0 {
        lemma_added_bound(cands.drop_last(), present, known, max_add);
    }
}

/// Adds to `added` the candidates of `cands` as `added_targets` does.
fn add_targets(added: &mut Vec<String>, cands: &Vec<String>, present: &Vec<String>, known: &Vec<String>, max_add: usize)
    requires
        strs(old(added)@).len() <= max_add,
    ensures
        strs(final(added)@) == added_after(strs(old(added)@), strs(cands@), strs(present@), strs(known@), max_add as nat),
        final(added)@.len() <= max_add,
{
    let ghost a0 = strs(added@);
    let mut k: usize = 0;
    proof {
        assert(strs(cands@).take(0) =~= Seq::<Seq<char>>::empty());
    }
    while k < cands.len()
        invariant
            k <= cands@.len(),
            strs(added@) == added_after(a0, strs(cands@).take(k as int), strs(present@), strs(known@), max_add as nat),
            added@.len() <= max_add,
        decreases cands@.len() - k,
    {
        proof {
            assert(strs(cands@).take(k + 1).drop_last() =~= strs(cands@).take(k as int));
            assert(strs(cands@).take(k + 1).last() == cands@[k as int]@);
        }
        let c = cands[k].as_str();
        if added.len() < max_add && !holds(present, c) && !holds(added, c) && holds(known, c) {
            let ghost before = strs(added@);
            added.push(cands[k].clone());
            proof {
                assert(strs(added@) =~= before.push(cands@[k as int]@));
            }
        }
        k = k + 1;
    }
    proof {
        assert(strs(cands@).take(k as int) =~= strs(cands@));
    }
}

/// `added_targets` continued from the targets `a0` already added.
pub open spec fn added_after(
    a0: Seq<Seq<char>>,
    cands: Seq<Seq<char>>,
    present: Seq<Seq<char>>,
    known: Seq<Seq<char>>,
    max_add: nat,
) -> Seq<Seq<char>>
    decreases cands.len(),
{
    if cands.len() == 0 {
        a0
    } else {
        let a = added_after(a0, cands.drop_last(), present, known, max_add);
        let c = cands.last();
        if a.len() < max_add && !present.contains(c) && !a.contains(c) && known.contains(c) {
            a.push(c)
        } else {
            a
        }
    }
}

proof fn lemma_added_after_concat(
    a0: Seq<Seq<char>>,
    x: Seq<Seq<char>>,
    y: Seq<Seq<char>>,
    present: Seq<Seq<char>>,
    known: Seq<Seq<char>>,
    max_add: nat,
)
    ensures
        added_after(a0, x + y, present, known, max_add) == added_after(
            added_after(a0, x, present, known, max_add),
            y,
            present,
            known,
            max_add,
        ),
    decreases y.len(),
{
    if y.len() == 0 {
        assert(x + y =~= x);
    } else {
        assert((x + y).drop_last() =~= x + y.drop_last());
        lemma_added_after_concat(a0, x, y.drop_last(), present, known, max_add);
    }
}

proof fn lemma_added_after_empty(cands: Seq<Seq<char>>, present: Seq<Seq<char>>, known: Seq<Seq<char>>, max_add: nat)
    ensures
        added_after(seq![], cands, present, known, max_add) == added_targets(cands, present, known, max_add),
    decreases cands.len(),
{
    if cands.len() > 0 {
        lemma_added_after_empty(cands.drop_last(), present, known, max_add);
    }
}

/// The relation lists of the first `n` seeds (fewer when fewer lists are
/// given), each cut to its first `per` targets.
pub open spec fn seed_candidates(rels: Seq<Seq<Seq<char>>>, n: nat, per: nat) -> Seq<Seq<char>> {
    let m = if rels.len() < n { rels.len() } else { n };
    concat_all(Seq::new(m, |i: int| if rels[i].len() <= per { rels[i] } else { rels[i].take(per as int) }))
}

/// The number of seeds used by the knowledge-graph expansion: all of them,
/// or with beam search at most `max_add`.
pub open spec fn kg_seed_count(n_seeds: nat, max_add: nat, beam: bool) -> nat {
    if beam && max_add < n_seeds {
        max_add
    } else {
        n_seeds
    }
}

/// The views of a list of string lists.
pub open spec fn rel_views(rels: Seq<Vec<String>>) -> Seq<Seq<Seq<char>>> {
    Seq::new(rels.len(), |i: int| strs(rels[i]@))
}

/// Adds the candidates of the first `n` seeds (at most `per` each), in seed
/// order, to the empty list.
fn expand_from_seeds(rels: &Vec<Vec<String>>, n: usize, per: usize, present: &Vec<String>, known: &Vec<String>, max_add: usize) -> (r: Vec<String>)
    ensures
        strs(r@) == added_targets(seed_candidates(rel_views(rels@), n as nat, per as nat), strs(present@), strs(known@), max_add as nat),
{
    let m = if rels.len() < n { rels.len() } else { n };
    let ghost lists = Seq::new(m as nat, |i: int| if rel_views(rels@)[i].len() <= per { rel_views(rels@)[i] } else { rel_views(rels@)[i].take(per as int) });
    let mut added: Vec<String> = Vec::new();
    let mut i: usize = 0;
    proof {
        assert(lists.take(0) =~= Seq::<Seq<Seq<char>>>::empty());
        assert(strs(added@) =~= Seq::<Seq<char>>::empty());
    }
    while i < m
        invariant
            i <= m,
            m <= rels@.len(),
            m == (if rels@.len() < n { rels@.len() } else { n as nat }),
            lists == Seq::new(m as nat, |i: int| if rel_views(rels@)[i].len() <= per { rel_views(rels@)[i] } else { rel_views(rels@)[i].take(per as int) }),
            strs(added@) == added_after(seq![], concat_all(lists.take(i as int)), strs(present@), strs(known@), max_add as nat),
            added@.len() <= max_add,
        decreases m - i,
    {
        let list = &rels[i];
        let k = if list.len() <= per { list.len() } else { per };
        let mut cut: Vec<String> = Vec::new();
        let mut j: usize = 0;
        while j < k
            invariant
                j <= k,
                k <= list@.len(),
                cut@.len() == j,
                strs(cut@) == strs(list@).take(j as int),
            decreases k - j,
        {
            let ghost before = cut@;
            let x = list[j].clone();
            cut.push(x);
            proof {
                assert(cut@ == before.push(list@[j as int]));
                assert forall|k: int| 0 <= k < j + 1 implies #[trigger] strs(cut@)[k] == strs(list@).take(j + 1)[k] by {
                    if k < j {
                        assert(cut@[k] == before[k]);
                        assert(strs(before)[k] == strs(list@).take(j as int)[k]);
                    }
                }
                assert(strs(cut@) =~= strs(list@).take(j + 1));
            }
            j = j + 1;
        }
        proof {
            assert(rel_views(rels@)[i as int] == strs(list@));
            if list@.len() <= per {
                assert(strs(list@).take(k as int) =~= strs(list@));
            }
            assert(strs(cut@) == lists[i as int]);
            assert(lists.take(i + 1).drop_last() =~= lists.take(i as int));
            lemma_added_after_concat(seq![], concat_all(lists.take(i as int)), lists[i as int], strs(present@), strs(known@), max_add as nat);
        }
        add_targets(&mut added, &cut, present, known, max_add);
        i = i + 1;
    }
    proof {
        assert(lists.take(i as int) =~= lists);
        lemma_added_after_empty(seed_candidates(rel_views(rels@), n as nat, per as nat), strs(present@), strs(known@), max_add as nat);
    }
    added
}

/// The knowledge-graph expansion of the results: from the seeds (the first
/// results), all of them or with beam search the first `max_add`, their
/// related documents in order, each added when it is a known document and
/// neither among `present` nor added before, up to `max_add` additions.
/// `rels[i]` are the relation targets of seed `i`. Gives the added ids.
pub fn kg_expand(
    seeds: &Vec<String>,
    rels: &Vec<Vec<String>>,
    present: &Vec<String>,
    known: &Vec<String>,
    max_add: usize,
    beam: bool,
) -> (r: Vec<String>)
    ensures
        strs(r@) == added_targets(
            seed_candidates(rel_views(rels@), kg_seed_count(seeds@.len(), max_add as nat, beam), usize::MAX as nat),
            strs(present@),
            strs(known@),
            max_add as nat,
        ),
        r@.len() <= max_add,
{
    let n = if beam && max_add < seeds.len() { max_add } else { seeds.len() };
    let r = expand_from_seeds(rels, n, usize::MAX, present, known, max_add);
    proof {
        lemma_added_bound(
            seed_candidates(rel_views(rels@), n as nat, usize::MAX as nat),
            strs(present@),
            strs(known@),
            max_add as nat,
        );
    }
    r
}

/// Seeds of the related and low-confidence expansions.
pub const RELATED_SEEDS: usize = 3;

/// Relations followed per seed in those expansions.
pub const RELATED_PER_SEED: usize = 2;

/// The related expansion of the results (the `related` mode, and results of
/// ambiguous confidence): for the first three results, their first two
/// related documents, each added when it is a known document and neither
/// among the results nor added before. `rels[i]` are the relation targets of
/// result `i`. Gives the added ids.
pub fn related_expand(results: &Vec<String>, rels: &Vec<Vec<String>>, known: &Vec<String>) -> (r: Vec<String>)
    ensures
        strs(r@) == added_targets(
            seed_candidates(rel_views(rels@), if results@.len() < RELATED_SEEDS { results@.len() } else { RELATED_SEEDS as nat }, RELATED_PER_SEED as nat),
            strs(results@),
            strs(known@),
            usize::MAX as nat,
        ),
{
    let n = if results.len() < RELATED_SEEDS { results.len() } else { RELATED_SEEDS };
    expand_from_seeds(rels, n, RELATED_PER_SEED, results, known, usize::MAX)
}

/// Whether the hypothetical-document search runs: it is enabled and the
/// results are fewer than `min_results`.
pub fn hyde_wanted(enabled: bool, n_results: usize, min_results: usize) -> (r: bool)
    ensures
        r == (enabled && n_results < min_results),
{
    enabled && n_results < min_results
}

/// Whether a generated hypothetical document is used: it differs from the
/// query and is not blank.
pub fn hyde_text_usable(hyde_text: &str, query: &str) -> (r: bool)
    ensures
        r == (hyde_text@ != query@ && !crate::text::is_blank(hyde_text@)),
{
    let c = chars_of(hyde_text);
    let blank = crate::text::is_blank_range(c.as_slice(), 0, c.len());
    proof {
        assert(c@.subrange(0, c@.len() as int) =~= c@);
    }
    !same_text(hyde_text, query) && !blank
}

// ---------------------------------------------------------------------------
// The "recent" ordering
// ---------------------------------------------------------------------------

/// Hit `a` comes before hit `b` in the "recent" order: the later date first
/// (dates compared as text), on equal dates the higher score key first, and
/// on equal keys the earlier hit first.
pub open spec fn recent_before(dates: Seq<Seq<char>>, keys: Seq<u64>, a: int, b: int) -> bool {
    str_lt(dates[b], dates[a]) || (dates[a] == dates[b] && (keys[a] > keys[b] || (keys[a] == keys[b] && a < b)))
}

/// The "recent" order of `n` hits: every hit once, each before the next.
pub open spec fn recent_sorted(dates: Seq<Seq<char>>, keys: Seq<u64>, r: Seq<usize>, n: nat) -> bool {
    &&& r.len() == n
    &&& forall|i: int| 0 <= i < r.len() ==> (#[trigger] r[i]) < n
    &&& r.no_duplicates()
    &&& forall|i: int, j: int| 0 <= i < j < r.len() ==> recent_before(dates, keys, #[trigger] r[i] as int, #[trigger] r[j] as int)
}

proof fn lemma_recent_total(dates: Seq<Seq<char>>, keys: Seq<u64>, a: int, b: int)
    requires
        a != b,
    ensures
        recent_before(dates, keys, a, b) || recent_before(dates, keys, b, a),
{
    lemma_str_lt_total(dates[a], dates[b]);
}

proof fn lemma_recent_trans(dates: Seq<Seq<char>>, keys: Seq<u64>, a: int, b: int, c: int)
    requires
        recent_before(dates, keys, a, b),
        recent_before(dates, keys, b, c),
    ensures
        recent_before(dates, keys, a, c),
{
    if str_lt(dates[b], dates[a]) && str_lt(dates[c], dates[b]) {
        lemma_str_lt_trans(dates[c], dates[b], dates[a]);
    }
}

/// The hits in the "recent" order, as their positions: the later date first,
/// then the higher score key, and hits that tie on both in their order
/// (a stable sort). The caller gives each hit's score as a key that orders
/// as the score does.
pub fn recent_order(dates: &Vec<String>, keys: &Vec<u64>) -> (r: Vec<usize>)
    requires
        dates@.len() == keys@.len(),
    ensures
        recent_sorted(strs(dates@), keys@, r@, dates@.len()),
{
    let n = dates.len();
    let mut r: Vec<usize> = Vec::new();
    let mut k: usize = 0;
    while k < n
        invariant
            n == dates@.len() == keys@.len(),
            k <= n,
            recent_sorted(strs(dates@), keys@, r@, k as nat),
        decreases n - k,
    {
        let ghost ds = strs(dates@);
        let mut p: usize = 0;
        while p < r.len() && !(str_less(dates[r[p]].as_str(), dates[k].as_str()) || (same_text(
            dates[k].as_str(),
            dates[r[p]].as_str(),
        ) && (keys[k] > keys[r[p]] || (keys[k] == keys[r[p]] && k < r[p]))))
            invariant
                n == dates@.len() == keys@.len(),
                k < n,
                ds == strs(dates@),
                recent_sorted(ds, keys@, r@, k as nat),
                p <= r@.len(),
                forall|q: int| 0 <= q < p ==> !recent_before(ds, keys@, k as int, #[trigger] r@[q] as int),
            decreases r@.len() - p,
        {
            p = p + 1;
        }
        let ghost s = r@;
        proof {
            assert forall|q: int| 0 <= q < p implies recent_before(ds, keys@, #[trigger] s[q] as int, k as int) by {
                lemma_recent_total(ds, keys@, s[q] as int, k as int);
            }
        }
        r.insert(p, k);
        proof {
            let s2 = r@;
            assert(s2 == s.insert(p as int, k));
            assert forall|i: int| 0 <= i < s2.len() implies (#[trigger] s2[i]) < k + 1 by {
                if i > p {
                    assert(s2[i] == s[i - 1]);
                } else if i < p {
                    assert(s2[i] == s[i]);
                }
            }
            assert forall|i: int, j: int| 0 <= i < j < s2.len() implies s2[i] != s2[j] by {
                if i < p {
                    assert(s2[i] == s[i]);
                } else if i > p {
                    assert(s2[i] == s[i - 1]);
                }
                if j < p {
                    assert(s2[j] == s[j]);
                } else if j > p {
                    assert(s2[j] == s[j - 1]);
                }
            }
            assert forall|i: int, j: int| 0 <= i < j < s2.len() implies recent_before(
                ds,
                keys@,
                #[trigger] s2[i] as int,
                #[trigger] s2[j] as int,
            ) by {
                if j < p {
                    assert(s2[i] == s[i] && s2[j] == s[j]);
                } else if j == p {
                    assert(s2[i] == s[i]);
                } else if i > p {
                    assert(s2[i] == s[i - 1] && s2[j] == s[j - 1]);
                } else if i == p {
                    assert(s2[j] == s[j - 1]);
                    assert(recent_before(ds, keys@, k as int, s[p as int] as int));
                    if j - 1 > p {
                        lemma_recent_trans(ds, keys@, k as int, s[p as int] as int, s[j - 1] as int);
                    }
                } else {
                    assert(s2[i] == s[i] && s2[j] == s[j - 1]);
                }
            }
            assert(s2.no_duplicates());
        }
        k = k + 1;
    }
    r
}

// ---------------------------------------------------------------------------
// The calls of each search mode
// ---------------------------------------------------------------------------

/// A call of the vector store: a dense search, or a hybrid search with a
/// keyword, for at most `limit` hits.
#[derive(Debug, Clone)]
pub enum StoreCall {
    Similar { limit: usize },
    Hybrid { keyword: String, limit: usize },
}

/// A store call as plain values: whether it is hybrid, its keyword (empty
/// for a dense search), its limit.
pub open spec fn call_view(c: StoreCall) -> (bool, Seq<char>, nat) {
    match c {
        StoreCall::Similar { limit } => (false, seq![], limit as nat),
        StoreCall::Hybrid { keyword, limit } => (true, keyword@, limit as nat),
    }
}

/// How the hits of the calls are put together.
#[derive(Debug, Clone, Copy, PartialEq, Eq, Structural)]
pub enum ResultMerge {
    /// The hits of the one call as they are.
    Plain,
    /// Followed by the related documents of the first three (`related_expand`).
    Related,
    /// Put in the "recent" order (`recent_order`).
    Recent,
    /// The hits of all calls, each document once (`merge_new`), ranked by
    /// reciprocal rank fusion.
    Fusion,
}

/// The store calls of a search and how their hits are put together, by
/// mode: `exact` searches hybrid with the keyword (else the query) for
/// `3 * top_k`; `related` searches dense for `3 * top_k` and adds related
/// documents; `recent` searches hybrid with the keyword (else dense) for
/// `5 * top_k` and orders by date; `fusion` searches dense for `3 * top_k`
/// and hybrid with each of the first three words of the query for
/// `2 * top_k`; any other mode searches hybrid with the keyword (else dense)
/// for `3 * top_k`.
pub open spec fn search_calls(query: Seq<char>, keyword: Option<Seq<char>>, mode: Seq<char>, top_k: nat) -> (
    Seq<(bool, Seq<char>, nat)>,
    ResultMerge,
) {
    if mode == "exact"@ {
        (seq![(true, match keyword { Some(k) => k, None => query }, 3 * top_k)], ResultMerge::Plain)
    } else if mode == "related"@ {
        (seq![(false, seq![], 3 * top_k)], ResultMerge::Related)
    } else if mode == "recent"@ {
        (seq![match keyword { Some(k) => (true, k, 5 * top_k), None => (false, seq![], 5 * top_k) }], ResultMerge::Recent)
    } else if mode == "fusion"@ {
        let w = ws_words(query);
        let n = if w.len() < 3 { w.len() } else { 3 };
        (
            seq![(false, Seq::<char>::empty(), 3 * top_k)] + Seq::new(n, |i: int| (true, w[i], 2 * top_k)),
            ResultMerge::Fusion,
        )
    } else {
        (seq![match keyword { Some(k) => (true, k, 3 * top_k), None => (false, seq![], 3 * top_k) }], ResultMerge::Plain)
    }
}

/// The store calls of the search `q` and how their hits are put together
/// (see `search_calls`).
pub fn plan_search(q: &SearchQuery) -> (r: (Vec<StoreCall>, ResultMerge))
    requires
        5 * q.top_k <= usize::MAX,
    ensures
        Seq::new(r.0@.len(), |i: int| call_view(r.0@[i])) == search_calls(
            q.query@,
            crate::text::opt_str(q.keyword),
            q.mode@,
            q.top_k as nat,
        ).0,
        r.1 == search_calls(q.query@, crate::text::opt_str(q.keyword), q.mode@, q.top_k as nat).1,
{
    let k = q.top_k;
    let ghost want = search_calls(q.query@, crate::text::opt_str(q.keyword), q.mode@, q.top_k as nat);
    let mut calls: Vec<StoreCall> = Vec::new();
    let mode = q.mode.as_str();
    let merge = if same_text(mode, "exact") {
        let kw = match &q.keyword {
            Some(w) => owned(w.as_str()),
            None => owned(q.query.as_str()),
        };
        calls.push(StoreCall::Hybrid { keyword: kw, limit: 3 * k });
        proof {
            assert(Seq::new(calls@.len(), |i: int| call_view(calls@[i])) =~= want.0);
        }
        ResultMerge::Plain
    } else if same_text(mode, "related") {
        calls.push(StoreCall::Similar { limit: 3 * k });
        proof {
            assert(Seq::new(calls@.len(), |i: int| call_view(calls@[i])) =~= want.0);
        }
        ResultMerge::Related
    } else if same_text(mode, "recent") {
        match &q.keyword {
            Some(w) => calls.push(StoreCall::Hybrid { keyword: owned(w.as_str()), limit: 5 * k }),
            None => calls.push(StoreCall::Similar { limit: 5 * k }),
        }
        proof {
            assert(Seq::new(calls@.len(), |i: int| call_view(calls@[i])) =~= want.0);
        }
        ResultMerge::Recent
    } else if same_text(mode, "fusion") {
        calls.push(StoreCall::Similar { limit: 3 * k });
        let qc = chars_of(q.query.as_str());
        let words = words_of(qc.as_slice());
        let n = if words.len() < 3 { words.len() } else { 3 };
        let mut i: usize = 0;
        while i < n
            invariant
                n <= words@.len(),
                n == (if words@.len() < 3 { words@.len() } else { 3 }),
                crate::text::views(words@) == ws_words(q.query@),
                5 * k <= usize::MAX,
                i <= n,
                calls@.len() == i + 1,
                call_view(calls@[0]) == (false, Seq::<char>::empty(), 3 * k as nat),
                forall|j: int| 0 <= j < i ==> call_view(#[trigger] calls@[j + 1]) == (true, ws_words(q.query@)[j], 2 * k as nat),
            decreases n - i,
        {
            let w = string_of(words[i].as_slice());
            proof {
                assert(crate::text::views(words@)[i as int] == words@[i as int]@);
            }
            calls.push(StoreCall::Hybrid { keyword: w, limit: 2 * k });
            i = i + 1;
        }
        proof {
            let w = ws_words(q.query@);
            assert forall|j: int| 0 <= j < calls@.len() implies call_view(#[trigger] calls@[j]) == want.0[j] by {
                if j > 0 {
                    assert(call_view(calls@[(j - 1) + 1]) == (true, w[j - 1], 2 * k as nat));
                }
            }
            assert(Seq::new(calls@.len(), |i: int| call_view(calls@[i])) =~= want.0);
        }
        ResultMerge::Fusion
    } else {
        match &q.keyword {
            Some(w) => calls.push(StoreCall::Hybrid { keyword: owned(w.as_str()), limit: 3 * k }),
            None => calls.push(StoreCall::Similar { limit: 3 * k }),
        }
        proof {
            assert(Seq::new(calls@.len(), |i: int| call_view(calls@[i])) =~= want.0);
        }
        ResultMerge::Plain
    };
    (calls, merge)
}

} // verus!
