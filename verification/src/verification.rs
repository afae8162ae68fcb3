//! Checks on processed documents: the longest common subsequence of words
//! behind the ROUGE-L recall, the required sections found, the keywords
//! found in the original, and assertive claims that may need softening.

use vstd::prelude::*;
use crate::text::{
    chars_of, contains, contains_exec, copy_range, lower_range, lowercase, push_char, string_of,
    trim, trim_range, views,
};
use crate::search::{words_of, ws_words};
use crate::cross_reference::{capture_groups, regex_captures};
use crate::diagnostics::{distinct, sort_desc, tally};
use crate::text::{alphanumeric, char_is_alphanumeric};
use crate::text::{same_text, str_to_lowercase, strs};

verus! {

/// The length of a longest common subsequence of the word sequences `a`
/// and `b`.
pub open spec fn lcs(a: Seq<Seq<char>>, b: Seq<Seq<char>>) -> nat
    decreases a.len() + b.len(),
{
    if a.len() == 0 || b.len() == 0 {
        0
    } else if a.last() == b.last() {
        lcs(a.drop_last(), b.drop_last()) + 1
    } else {
        let x = lcs(a.drop_last(), b);
        let y = lcs(a, b.drop_last());
        if x >= y {
            x
        } else {
            y
        }
    }
}

/// A common subsequence is no longer than either sequence.
pub proof fn lemma_lcs_bounded(a: Seq<Seq<char>>, b: Seq<Seq<char>>)
    ensures
        lcs(a, b) <= a.len(),
        lcs(a, b) <= b.len(),
    decreases a.len() + b.len(),
{
    if a.len() > 0 && b.len() > 0 {
        lemma_lcs_bounded(a.drop_last(), b.drop_last());
        lemma_lcs_bounded(a.drop_last(), b);
        lemma_lcs_bounded(a, b.drop_last());
    }
}

/// A sequence shares all of itself with itself.
pub proof fn lemma_lcs_self(a: Seq<Seq<char>>)
    ensures
        lcs(a, a) == a.len(),
    decreases a.len(),
{
    if a.len() > 0 {
        lemma_lcs_self(a.drop_last());
    }
}

/// The words of two texts whose common subsequence ROUGE-L measures: the
/// length of a longest common subsequence of their whitespace-separated
/// words, and the number of words of the reference (the recall is their
/// ratio, 0 for an empty reference).
pub fn rouge_l_counts(reference: &str, hypothesis: &str) -> (r: (usize, usize))
    requires
        ws_words(hypothesis@).len() < usize::MAX,
    ensures
        r.0 == lcs(ws_words(reference@), ws_words(hypothesis@)),
        r.1 == ws_words(reference@).len(),
{
    let rc = chars_of(reference);
    let hc = chars_of(hypothesis);
    let a = words_of(rc.as_slice());
    let b = words_of(hc.as_slice());
    let ghost av = views(a@);
    let ghost bv = views(b@);
    let m = a.len();
    let n = b.len();
    let mut prev: Vec<usize> = Vec::new();
    let mut k: usize = 0;
    while k <= n
        invariant
            k <= n + 1,
            n == bv.len(),
            n < usize::MAX,
            prev@.len() == k,
            forall|j: int| 0 <= j < k ==> #[trigger] prev@[j] == 0,
        decreases n + 1 - k,
    {
        prev.push(0);
        k = k + 1;
    }
    proof {
        assert forall|j: int| 0 <= j <= n implies #[trigger] prev@[j] == lcs(av.take(0), bv.take(j)) by {
            assert(av.take(0).len() == 0);
        }
    }
    let mut i: usize = 0;
    while i < m
        invariant
            i <= m == av.len(),
            n == bv.len(),
            n < usize::MAX,
            av == views(a@),
            bv == views(b@),
            prev@.len() == n + 1,
            forall|j: int| 0 <= j <= n ==> #[trigger] prev@[j] == lcs(av.take(i as int), bv.take(j)),
        decreases m - i,
    {
        let mut curr: Vec<usize> = Vec::new();
        curr.push(0);
        proof {
            assert(bv.take(0).len() == 0);
        }
        let mut j: usize = 1;
        while j <= n
            invariant
                1 <= j <= n + 1,
                i < m == av.len(),
                n == bv.len(),
                n < usize::MAX,
                av == views(a@),
                bv == views(b@),
                prev@.len() == n + 1,
                forall|q: int| 0 <= q <= n ==> #[trigger] prev@[q] == lcs(av.take(i as int), bv.take(q)),
                curr@.len() == j,
                forall|q: int| 0 <= q < j ==> #[trigger] curr@[q] == lcs(av.take(i + 1), bv.take(q)),
            decreases n + 1 - j,
        {
            let ghost x = av.take(i + 1);
            let ghost y = bv.take(j as int);
            proof {
                assert(x.drop_last() =~= av.take(i as int));
                assert(y.drop_last() =~= bv.take(j - 1));
                assert(x.last() == av[i as int]);
                assert(y.last() == bv[j - 1]);
                assert(av[i as int] == a@[i as int]@);
                assert(bv[j - 1] == b@[j - 1]@);
                lemma_lcs_bounded(av.take(i as int), bv.take(j - 1));
            }
            let same = eq_chars(&a[i], &b[j - 1]);
            let v = if same {
                prev[j - 1] + 1
            } else if curr[j - 1] >= prev[j] {
                curr[j - 1]
            } else {
                prev[j]
            };
            curr.push(v);
            proof {
                assert(curr@[j as int] == lcs(x, y));
            }
            j = j + 1;
        }
        prev = curr;
        i = i + 1;
    }
    proof {
        assert(av.take(m as int) =~= av);
        assert(bv.take(n as int) =~= bv);
    }
    (prev[n], m)
}


/// The number of the strings `rs` that occur in `text`.
pub open spec fn count_contained(text: Seq<char>, rs: Seq<Seq<char>>) -> nat
    decreases rs.len(),
{
    if rs.len() == 0 {
        0
    } else {
        count_contained(text, rs.drop_last()) + if contains(text, rs.last()) {
            1nat
        } else {
            0nat
        }
    }
}

/// The number of the strings `rs` that are in `keys`.
pub open spec fn count_listed(keys: Seq<Seq<char>>, rs: Seq<Seq<char>>) -> nat
    decreases rs.len(),
{
    if rs.len() == 0 {
        0
    } else {
        count_listed(keys, rs.drop_last()) + if keys.contains(rs.last()) {
            1nat
        } else {
            0nat
        }
    }
}

/// The number of `rs` that occur in `text` (each counted once per entry).
fn count_in_text(text: &str, rs: &Vec<String>) -> (n: usize)
    ensures
        n == count_contained(text@, strs(rs@)),
{
    let t = chars_of(text);
    let mut n: usize = 0;
    let mut i: usize = 0;
    while i < rs.len()
        invariant
            i <= rs@.len(),
            t@ == text@,
            n == count_contained(text@, strs(rs@).take(i as int)),
            n <= i,
        decreases rs@.len() - i,
    {
        proof {
            assert(strs(rs@).take(i + 1).drop_last() =~= strs(rs@).take(i as int));
            assert(strs(rs@).take(i + 1).last() == rs@[i as int]@);
        }
        let r = chars_of(rs[i].as_str());
        if contains_exec(t.as_slice(), r.as_slice()) {
            n = n + 1;
        }
        i = i + 1;
    }
    proof {
        assert(strs(rs@).take(i as int) =~= strs(rs@));
    }
    n
}

/// The required sections found in the processed text: how many of
/// `required` occur in `processed` (the structure score is their share, 1
/// when nothing is required).
pub fn structure_hits(processed: &str, required: &Vec<String>) -> (n: usize)
    ensures
        n == count_contained(processed@, strs(required@)),
{
    count_in_text(processed, required)
}

/// The required sections among the section names of a structured result:
/// how many of `required` are in `section_names`.
pub fn section_hits(section_names: &Vec<String>, required: &Vec<String>) -> (n: usize)
    ensures
        n == count_listed(strs(section_names@), strs(required@)),
{
    let mut n: usize = 0;
    let mut i: usize = 0;
    while i < required.len()
        invariant
            i <= required@.len(),
            n == count_listed(strs(section_names@), strs(required@).take(i as int)),
            n <= i,
        decreases required@.len() - i,
    {
        proof {
            assert(strs(required@).take(i + 1).drop_last() =~= strs(required@).take(i as int));
            assert(strs(required@).take(i + 1).last() == required@[i as int]@);
        }
        let mut found = false;
        let mut k: usize = 0;
        while k < section_names.len()
            invariant
                k <= section_names@.len(),
                i < required@.len(),
                found == strs(section_names@).take(k as int).contains(required@[i as int]@),
            decreases section_names@.len() - k,
        {
            let hit = crate::text::same_text(section_names[k].as_str(), required[i].as_str());
            proof {
                let a = strs(section_names@).take(k as int);
                let b = strs(section_names@).take(k + 1);
                assert(b[k as int] == section_names@[k as int]@);
                if hit {
                    assert(b.contains(required@[i as int]@));
                } else if b.contains(required@[i as int]@) {
                    let m = choose|m: int| 0 <= m < b.len() && b[m] == required@[i as int]@;
                    assert(m != k);
                    assert(a[m] == b[m]);
                }
                if found {
                    let m = choose|m: int| 0 <= m < a.len() && a[m] == required@[i as int]@;
                    assert(b[m] == a[m]);
                }
            }
            if hit {
                found = true;
            }
            k = k + 1;
        }
        proof {
            assert(strs(section_names@).take(k as int) =~= strs(section_names@));
        }
        if found {
            n = n + 1;
        }
        i = i + 1;
    }
    proof {
        assert(strs(required@).take(i as int) =~= strs(required@));
    }
    n
}

/// The lowercased forms of `v`.
pub open spec fn lowered(v: Seq<Seq<char>>) -> Seq<Seq<char>> {
    Seq::new(v.len(), |i: int| lowercase(v[i]))
}

/// The keywords found in the original: how many of `keywords`, lowercased,
/// occur in the lowercased original (the coverage is their share, 1 without
/// keywords).
pub fn keyword_hits(original: &str, keywords: &Vec<String>) -> (n: usize)
    ensures
        n == count_contained(lowercase(original@), lowered(strs(keywords@))),
{
    let lower = str_to_lowercase(original);
    let mut lk: Vec<String> = Vec::new();
    let mut i: usize = 0;
    while i < keywords.len()
        invariant
            i <= keywords@.len(),
            lk@.len() == i,
            forall|k: int| 0 <= k < i ==> (#[trigger] lk@[k])@ == lowercase(keywords@[k]@),
        decreases keywords@.len() - i,
    {
        lk.push(str_to_lowercase(keywords[i].as_str()));
        i = i + 1;
    }
    proof {
        assert(strs(lk@) =~= lowered(strs(keywords@)));
    }
    count_in_text(lower.as_str(), &lk)
}

/// The patterns of entities kept across processing: dates, amounts, numbers
/// of four digits or more, e-mail addresses, URLs.
pub open spec fn entity_patterns() -> Seq<Seq<char>> {
    seq![
        "\\d{4}[-./]\\d{1,2}[-./]\\d{1,2}"@,
        "\\d{1,3}(,\\d{3})+(만원|억|원|달러)?"@,
        "\\d{4,}"@,
        "[a-zA-Z0-9._%+-]+@[a-zA-Z0-9.-]+\\.[a-zA-Z]{2,}"@,
        "https?://[^\\s]+"@,
    ]
}

/// The whole matches among the capture groups of the matches `caps`.
pub open spec fn whole_matches(caps: Seq<Seq<Seq<char>>>) -> Seq<Seq<char>>
    decreases caps.len(),
{
    if caps.len() == 0 {
        seq![]
    } else if caps.last().len() > 0 {
        whole_matches(caps.drop_last()).push(caps.last()[0])
    } else {
        whole_matches(caps.drop_last())
    }
}

/// The matches of the first `k` entity patterns in `text`, in order.
pub open spec fn entity_matches(text: Seq<char>, k: int) -> Seq<Seq<char>>
    decreases k,
{
    if k <= 0 {
        seq![]
    } else {
        entity_matches(text, k - 1) + whole_matches(regex_captures(entity_patterns()[k - 1], text))
    }
}

/// The entities of the processed text: the matches of all patterns, each
/// once, in order of first appearance.
pub open spec fn entities_of(processed: Seq<char>) -> Seq<Seq<char>> {
    distinct(entity_matches(processed, 5))
}

/// The entity pattern `k`.
fn entity_pattern(k: usize) -> (r: &'static str)
    requires
        k < 5,
    ensures
        r@ == entity_patterns()[k as int],
{
    if k == 0 {
        "\\d{4}[-./]\\d{1,2}[-./]\\d{1,2}"
    } else if k == 1 {
        "\\d{1,3}(,\\d{3})+(만원|억|원|달러)?"
    } else if k == 2 {
        "\\d{4,}"
    } else if k == 3 {
        "[a-zA-Z0-9._%+-]+@[a-zA-Z0-9.-]+\\.[a-zA-Z]{2,}"
    } else {
        "https?://[^\\s]+"
    }
}

/// Whether `v` holds `x`.
fn holds(v: &Vec<String>, x: &str) -> (b: bool)
    ensures
        b == strs(v@).contains(x@),
{
    let mut i: usize = 0;
    while i < v.len()
        invariant
            i <= v@.len(),
            forall|m: int| 0 <= m < i ==> (#[trigger] strs(v@)[m]) != x@,
        decreases v@.len() - i,
    {
        if crate::text::same_text(v[i].as_str(), x) {
            proof {
                assert(strs(v@)[i as int] == x@);
            }
            return true;
        }
        i = i + 1;
    }
    false
}

/// The entities of `processed` (dates, amounts, long numbers, e-mail
/// addresses, URLs, each once) and how many of them occur in `original`:
/// `(found, total)`; the preservation score is their share, 1 without
/// entities.
pub fn entity_hits(original: &str, processed: &str) -> (r: (usize, usize))
    ensures
        r.1 == entities_of(processed@).len(),
        r.0 == count_contained(original@, entities_of(processed@)),
{
    let mut ents: Vec<String> = Vec::new();
    let mut k: usize = 0;
    proof {
        assert(strs(ents@) =~= distinct(entity_matches(processed@, 0)));
    }
    while k < 5
        invariant
            k <= 5,
            strs(ents@) == distinct(entity_matches(processed@, k as int)),
        decreases 5 - k,
    {
        let caps = capture_groups(entity_pattern(k), processed);
        let ghost cv = Seq::new(caps@.len(), |i: int| strs(caps@[i]@));
        let ghost base = entity_matches(processed@, k as int);
        let mut j: usize = 0;
        proof {
            assert(base + whole_matches(cv.take(0)) =~= base);
        }
        while j < caps.len()
            invariant
                j <= caps@.len(),
                k < 5,
                cv == Seq::new(caps@.len(), |i: int| strs(caps@[i]@)),
                cv == regex_captures(entity_patterns()[k as int], processed@),
                base == entity_matches(processed@, k as int),
                strs(ents@) == distinct(base + whole_matches(cv.take(j as int))),
            decreases caps@.len() - j,
        {
            proof {
                assert(cv.take(j + 1).drop_last() =~= cv.take(j as int));
                assert(cv.take(j + 1).last() == cv[j as int]);
            }
            if caps[j].len() > 0 {
                let m = &caps[j][0];
                let ghost s = base + whole_matches(cv.take(j as int));
                proof {
                    assert(cv[j as int][0] == m@);
                    assert((base + whole_matches(cv.take(j + 1))) =~= s.push(m@));
                    assert(s.push(m@).drop_last() =~= s);
                }
                if !holds(&ents, m.as_str()) {
                    let ghost before = strs(ents@);
                    ents.push(m.clone());
                    proof {
                        assert(strs(ents@) =~= before.push(m@));
                    }
                }
            } else {
                proof {
                    assert((base + whole_matches(cv.take(j + 1))) =~= base + whole_matches(cv.take(j as int)));
                }
            }
            j = j + 1;
        }
        proof {
            assert(cv.take(j as int) =~= cv);
        }
        k = k + 1;
    }
    let found = count_in_text(original, &ents);
    (found, ents.len())
}


/// The stop words left out of the keywords of a text.
pub open spec fn is_stopword(w: Seq<char>) -> bool {
    w == "은"@
        || w == "는"@
        || w == "이"@
        || w == "가"@
        || w == "의"@
        || w == "를"@
        || w == "에"@
        || w == "서"@
        || w == "도"@
        || w == "로"@
        || w == "와"@
        || w == "한"@
        || w == "다"@
        || w == "것"@
        || w == "수"@
        || w == "등"@
        || w == "및"@
        || w == "더"@
        || w == "또"@
        || w == "그"@
        || w == "이런"@
        || w == "저런"@
        || w == "하는"@
        || w == "있는"@
        || w == "the"@
        || w == "a"@
        || w == "an"@
        || w == "is"@
        || w == "are"@
        || w == "was"@
        || w == "were"@
        || w == "in"@
        || w == "on"@
        || w == "at"@
        || w == "to"@
        || w == "for"@
        || w == "of"@
        || w == "and"@
        || w == "or"@
        || w == "but"@
        || w == "with"@
        || w == "from"@
        || w == "by"@
        || w == "as"@
        || w == "this"@
        || w == "that"@
}

/// Whether `w` is a stop word.
fn stopword(w: &str) -> (b: bool)
    ensures
        b == is_stopword(w@),
{
    same_text(w, "은")
        || same_text(w, "는")
        || same_text(w, "이")
        || same_text(w, "가")
        || same_text(w, "의")
        || same_text(w, "를")
        || same_text(w, "에")
        || same_text(w, "서")
        || same_text(w, "도")
        || same_text(w, "로")
        || same_text(w, "와")
        || same_text(w, "한")
        || same_text(w, "다")
        || same_text(w, "것")
        || same_text(w, "수")
        || same_text(w, "등")
        || same_text(w, "및")
        || same_text(w, "더")
        || same_text(w, "또")
        || same_text(w, "그")
        || same_text(w, "이런")
        || same_text(w, "저런")
        || same_text(w, "하는")
        || same_text(w, "있는")
        || same_text(w, "the")
        || same_text(w, "a")
        || same_text(w, "an")
        || same_text(w, "is")
        || same_text(w, "are")
        || same_text(w, "was")
        || same_text(w, "were")
        || same_text(w, "in")
        || same_text(w, "on")
        || same_text(w, "at")
        || same_text(w, "to")
        || same_text(w, "for")
        || same_text(w, "of")
        || same_text(w, "and")
        || same_text(w, "or")
        || same_text(w, "but")
        || same_text(w, "with")
        || same_text(w, "from")
        || same_text(w, "by")
        || same_text(w, "as")
        || same_text(w, "this")
        || same_text(w, "that")
}

/// `s` without its leading characters that are not alphanumeric.
pub open spec fn strip_start_non_alnum(s: Seq<char>) -> Seq<char>
    decreases s.len(),
{
    if s.len() > 0 && !alphanumeric(s[0]) {
        strip_start_non_alnum(s.drop_first())
    } else {
        s
    }
}

/// `s` without its trailing characters that are not alphanumeric.
pub open spec fn strip_end_non_alnum(s: Seq<char>) -> Seq<char>
    decreases s.len(),
{
    if s.len() > 0 && !alphanumeric(s.last()) {
        strip_end_non_alnum(s.drop_last())
    } else {
        s
    }
}

/// The keyword a word gives: the word without non-alphanumeric characters
/// at either end, lowercased.
pub open spec fn keyword_of(w: Seq<char>) -> Seq<char> {
    lowercase(strip_end_non_alnum(strip_start_non_alnum(w)))
}

/// The keywords of the words `ws` that count: at least two characters, not
/// a stop word; each with weight 1.
pub open spec fn keyword_stream(ws: Seq<Seq<char>>) -> Seq<(Seq<char>, nat)>
    decreases ws.len(),
{
    if ws.len() == 0 {
        seq![]
    } else {
        let r = keyword_stream(ws.drop_last());
        let k = keyword_of(ws.last());
        if k.len() >= 2 && !is_stopword(k) {
            r.push((k, 1nat))
        } else {
            r
        }
    }
}

/// The top keywords of a text: its fifteen most frequent keywords (ties in
/// order of first appearance).
pub open spec fn top_keywords(original: Seq<char>) -> Seq<Seq<char>> {
    let sorted = sort_desc(tally(keyword_stream(ws_words(original))));
    let n = if sorted.len() < 15 { sorted.len() as int } else { 15 };
    Seq::new(n as nat, |i: int| sorted[i].0)
}

/// Bounds of the word `w[lo..hi]` without non-alphanumeric characters at
/// either end.
fn strip_non_alnum(w: &[char]) -> (r: (usize, usize))
    ensures
        r.0 <= r.1 <= w@.len(),
        w@.subrange(r.0 as int, r.1 as int) == strip_end_non_alnum(strip_start_non_alnum(w@)),
{
    let mut a: usize = 0;
    proof {
        assert(w@.skip(0) =~= w@);
    }
    while a < w.len() && !char_is_alphanumeric(w[a])
        invariant
            a <= w@.len(),
            strip_start_non_alnum(w@) == strip_start_non_alnum(w@.skip(a as int)),
        decreases w@.len() - a,
    {
        proof {
            assert(w@.skip(a as int).drop_first() =~= w@.skip(a + 1));
        }
        a = a + 1;
    }
    proof {
        assert(strip_start_non_alnum(w@.skip(a as int)) == w@.skip(a as int));
        assert(w@.skip(a as int) =~= w@.subrange(a as int, w@.len() as int));
    }
    let ghost t = w@.subrange(a as int, w@.len() as int);
    let mut b: usize = w.len();
    while b > a && !char_is_alphanumeric(w[b - 1])
        invariant
            a <= b <= w@.len(),
            t == w@.subrange(a as int, w@.len() as int),
            strip_end_non_alnum(t) == strip_end_non_alnum(w@.subrange(a as int, b as int)),
        decreases b,
    {
        proof {
            assert(w@.subrange(a as int, b as int).drop_last() =~= w@.subrange(a as int, b - 1));
        }
        b = b - 1;
    }
    (a, b)
}

/// How many of the top keywords of `original` occur in the lowercased
/// `processed`, and how many top keywords there are: `(found, total)`; the
/// completeness is their share, 1 without keywords.
pub fn keyword_presence_hits(original: &str, processed: &str) -> (r: (usize, usize))
    ensures
        r.1 == top_keywords(original@).len(),
        r.0 == count_contained(lowercase(processed@), top_keywords(original@)),
{
    let oc = chars_of(original);
    let words = words_of(oc.as_slice());
    let ghost wv = views(words@);
    let mut freq: Vec<(String, usize)> = Vec::new();
    let mut i: usize = 0;
    proof {
        assert(crate::diagnostics::counted_views(freq@) =~= tally(keyword_stream(wv.take(0))));
    }
    while i < words.len()
        invariant
            i <= words@.len(),
            wv == views(words@),
            crate::diagnostics::counted_views(freq@) == tally(keyword_stream(wv.take(i as int))),
            crate::diagnostics::weight_sum(keyword_stream(wv.take(i as int))) <= i,
        decreases words@.len() - i,
    {
        let ghost pre = wv.take(i as int);
        let ghost cur = wv.take(i + 1);
        proof {
            assert(cur.drop_last() =~= pre);
            assert(cur.last() == words@[i as int]@);
        }
        let (a, b) = strip_non_alnum(words[i].as_slice());
        let core = string_of(copy_range(words[i].as_slice(), a, b).as_slice());
        let kw = str_to_lowercase(core.as_str());
        let kc = chars_of(kw.as_str());
        if kc.len() >= 2 && !stopword(kw.as_str()) {
            proof {
                let s2 = keyword_stream(cur);
                assert(s2 == keyword_stream(pre).push((kw@, 1nat)));
                assert(s2.drop_last() =~= keyword_stream(pre));
                crate::diagnostics::lemma_tally_bounded(keyword_stream(pre));
                assert forall|m: int| 0 <= m < freq@.len() implies (#[trigger] freq@[m]).1 + 1 <= i + 1 by {
                    assert(crate::diagnostics::counted_views(freq@)[m].1 == freq@[m].1);
                }
            }
            crate::diagnostics::tally_add_name(&mut freq, kw.as_str(), 1, Ghost((i + 1) as nat));
            proof {
                let s2 = keyword_stream(cur);
                assert(s2.drop_last() =~= keyword_stream(pre));
            }
        }
        i = i + 1;
    }
    proof {
        assert(wv.take(i as int) =~= wv);
        assert(wv == ws_words(original@));
    }
    let sorted = crate::diagnostics::sort_counted_desc(&freq);
    let n: usize = if sorted.len() < 15 { sorted.len() } else { 15 };
    let mut top: Vec<String> = Vec::new();
    let mut k: usize = 0;
    while k < n
        invariant
            k <= n <= sorted@.len(),
            n == (if sorted@.len() < 15 { sorted@.len() } else { 15 }),
            top@.len() == k,
            forall|m: int| 0 <= m < k ==> (#[trigger] top@[m])@ == sorted@[m].0@,
        decreases n - k,
    {
        top.push(sorted[k].0.clone());
        k = k + 1;
    }
    proof {
        let sv = crate::diagnostics::counted_views(sorted@);
        assert(strs(top@) =~= top_keywords(original@)) by {
            assert forall|m: int| 0 <= m < n implies strs(top@)[m] == top_keywords(original@)[m] by {
                assert(sv[m].0 == sorted@[m].0@);
            }
        }
    }
    let lower = str_to_lowercase(processed);
    let found = count_in_text(lower.as_str(), &top);
    (found, top.len())
}

/// Whether two character vectors are equal.
fn eq_chars(x: &Vec<char>, y: &Vec<char>) -> (r: bool)
    ensures
        r == (x@ == y@),
{
    if x.len() != y.len() {
        return false;
    }
    let mut i: usize = 0;
    while i < x.len()
        invariant
            i <= x@.len() == y@.len(),
            forall|k: int| 0 <= k < i ==> x@[k] == y@[k],
        decreases x@.len() - i,
    {
        if x[i] != y[i] {
            return false;
        }
        i = i + 1;
    }
    proof {
        assert(x@ =~= y@);
    }
    true
}

/// Sentence separators: `.`, `?`, `!`, their full-width forms, and `'\n'`.
pub open spec fn is_sentence_sep(c: char) -> bool {
    c == '.' || c == '?' || c == '!' || c == '。' || c == '？' || c == '！' || c == '\n'
}

/// The pieces of `s` between separators, as `str::split` gives them (empty
/// pieces included; one piece more than there are separators).
pub open spec fn sentence_pieces(s: Seq<char>) -> Seq<Seq<char>>
    decreases s.len(),
{
    if s.len() == 0 {
        seq![seq![]]
    } else {
        let r = sentence_pieces(s.drop_last());
        if is_sentence_sep(s.last()) {
            r.push(seq![])
        } else {
            r.update(r.len() - 1, r.last().push(s.last()))
        }
    }
}

/// Expressions of certainty that mark a strong claim.
pub open spec fn strong_markers() -> Seq<Seq<char>> {
    seq![
        "확실히"@, "반드시"@, "항상"@, "모든"@, "전부"@, "절대"@, "결코"@,
        "100%"@, "완벽히"@, "완전히"@, "무조건"@, "유일"@,
        "always"@, "never"@, "definitely"@, "absolutely"@, "certainly"@,
    ]
}

/// `l` contains one of the strong markers.
pub open spec fn has_marker(l: Seq<char>) -> bool {
    exists|k: int| 0 <= k < strong_markers().len() && contains(l, #[trigger] strong_markers()[k])
}

/// A sentence as reported: cut to 200 characters plus `'…'` when longer.
pub open spec fn snippet(s: Seq<char>) -> Seq<char> {
    if s.len() > 200 {
        s.take(200).push('…')
    } else {
        s
    }
}

/// The claim a piece yields: its trimmed text, when non-empty and its
/// lowercase form contains a strong marker.
pub open spec fn claim_of(piece: Seq<char>) -> Option<Seq<char>> {
    let s = trim(piece);
    if s.len() > 0 && has_marker(lowercase(s)) {
        Some(snippet(s))
    } else {
        None
    }
}

/// The claims of `ps`, in order, each reported once.
pub open spec fn claims_of(ps: Seq<Seq<char>>) -> Seq<Seq<char>>
    decreases ps.len(),
{
    if ps.len() == 0 {
        seq![]
    } else {
        let r = claims_of(ps.drop_last());
        match claim_of(ps.last()) {
            Some(x) => if r.contains(x) {
                r
            } else {
                r.push(x)
            },
            None => r,
        }
    }
}

/// The strong claims of a text.
pub open spec fn strong_claims_spec(s: Seq<char>) -> Seq<Seq<char>> {
    claims_of(sentence_pieces(s))
}

/// The expressions of certainty looked for: 확실히, 반드시, 항상, 모든, 전부,
/// 절대, 결코, 100%, 완벽히, 완전히, 무조건, 유일, always, never, definitely,
/// absolutely and certainly.
pub proof fn lemma_strong_markers_listed()
    ensures
        ({
            let m = strong_markers();
            &&& m.contains("확실히"@) && m.contains("반드시"@) && m.contains("항상"@) && m.contains("모든"@)
            &&& m.contains("전부"@) && m.contains("절대"@) && m.contains("결코"@) && m.contains("100%"@)
            &&& m.contains("완벽히"@) && m.contains("완전히"@) && m.contains("무조건"@) && m.contains("유일"@)
            &&& m.contains("always"@) && m.contains("never"@) && m.contains("definitely"@)
            &&& m.contains("absolutely"@) && m.contains("certainly"@)
        }),
{
    let m = strong_markers();
    assert(m[0] == "확실히"@);
    assert(m[1] == "반드시"@);
    assert(m[2] == "항상"@);
    assert(m[3] == "모든"@);
    assert(m[4] == "전부"@);
    assert(m[5] == "절대"@);
    assert(m[6] == "결코"@);
    assert(m[7] == "100%"@);
    assert(m[8] == "완벽히"@);
    assert(m[9] == "완전히"@);
    assert(m[10] == "무조건"@);
    assert(m[11] == "유일"@);
    assert(m[12] == "always"@);
    assert(m[13] == "never"@);
    assert(m[14] == "definitely"@);
    assert(m[15] == "absolutely"@);
    assert(m[16] == "certainly"@);
}

proof fn lemma_claims_keep(ps: Seq<Seq<char>>, k: int)
    requires
        0 <= k < ps.len(),
        claim_of(ps[k]) is Some,
    ensures
        claims_of(ps).contains(claim_of(ps[k])->0),
    decreases ps.len(),
{
    let r = claims_of(ps.drop_last());
    if k < ps.len() - 1 {
        assert(ps.drop_last()[k] == ps[k]);
        lemma_claims_keep(ps.drop_last(), k);
        let x = claim_of(ps[k])->0;
        let j = choose|j: int| 0 <= j < r.len() && r[j] == x;
        match claim_of(ps.last()) {
            Some(y) => if !r.contains(y) {
                assert(r.push(y)[j] == x);
            },
            None => {},
        }
    } else {
        let x = claim_of(ps[k])->0;
        if !r.contains(x) {
            assert(r.push(x)[r.len() as int] == x);
        }
    }
}

/// Every sentence that holds an expression of certainty is reported: a
/// piece of the text whose trimmed text is not empty and, lowercased,
/// contains one of the markers gives its (cut) trimmed text among the
/// claims.
pub proof fn lemma_marked_sentence_reported(s: Seq<char>, k: int, m: Seq<char>)
    requires
        0 <= k < sentence_pieces(s).len(),
        strong_markers().contains(m),
        trim(sentence_pieces(s)[k]).len() > 0,
        contains(lowercase(trim(sentence_pieces(s)[k])), m),
    ensures
        strong_claims_spec(s).contains(snippet(trim(sentence_pieces(s)[k]))),
{
    let ps = sentence_pieces(s);
    let j = choose|j: int| 0 <= j < strong_markers().len() && strong_markers()[j] == m;
    assert(has_marker(lowercase(trim(ps[k]))));
    lemma_claims_keep(ps, k);
}

fn is_sentence_sep_exec(c: char) -> (b: bool)
    ensures
        b == is_sentence_sep(c),
{
    c == '.' || c == '?' || c == '!' || c == '。' || c == '？' || c == '！' || c == '\n'
}

/// The pieces of `s` between separators, as ranges.
fn sentence_ranges(s: &[char]) -> (r: Vec<(usize, usize)>)
    ensures
        r@.len() == sentence_pieces(s@).len(),
        forall|i: int|
            0 <= i < r@.len() ==> (#[trigger] r@[i]).0 <= r@[i].1 <= s@.len() && s@.subrange(
                r@[i].0 as int,
                r@[i].1 as int,
            ) == sentence_pieces(s@)[i],
{
    let mut done: Vec<(usize, usize)> = Vec::new();
    let mut start: usize = 0;
    let mut i: usize = 0;
    proof {
        assert(s@.take(0) =~= Seq::<char>::empty());
        assert(s@.subrange(0, 0) =~= Seq::<char>::empty());
    }
    while i < s.len()
        invariant
            start <= i <= s@.len(),
            forall|k: int| 0 <= k < done@.len() ==> (#[trigger] done@[k]).0 <= done@[k].1 <= s@.len(),
            sentence_pieces(s@.take(i as int)) == Seq::new(done@.len(), |k: int| s@.subrange(done@[k].0 as int, done@[k].1 as int)).push(s@.subrange(start as int, i as int)),
        decreases s@.len() - i,
    {
        let ghost f = Seq::new(done@.len(), |k: int| s@.subrange(done@[k].0 as int, done@[k].1 as int));
        proof {
            assert(s@.take(i + 1).drop_last() =~= s@.take(i as int));
            assert(s@.take(i + 1).last() == s@[i as int]);
        }
        if is_sentence_sep_exec(s[i]) {
            done.push((start, i));
            proof {
                let g = Seq::new(done@.len(), |k: int| s@.subrange(done@[k].0 as int, done@[k].1 as int));
                assert(g =~= f.push(s@.subrange(start as int, i as int)));
                assert(s@.subrange(i + 1, i + 1) =~= Seq::<char>::empty());
                assert(sentence_pieces(s@.take(i + 1)) =~= g.push(s@.subrange(i + 1, i + 1)));
            }
            start = i + 1;
        } else {
            proof {
                assert(s@.subrange(start as int, i + 1) =~= s@.subrange(start as int, i as int).push(s@[i as int]));
                assert(sentence_pieces(s@.take(i + 1)) =~= f.push(s@.subrange(start as int, i + 1)));
            }
        }
        i = i + 1;
    }
    done.push((start, i));
    proof {
        assert(s@.take(i as int) =~= s@);
        let g = Seq::new(done@.len(), |k: int| s@.subrange(done@[k].0 as int, done@[k].1 as int));
        assert(g =~= sentence_pieces(s@));
    }
    done
}

fn markers() -> (r: Vec<Vec<char>>)
    ensures
        views(r@) == strong_markers(),
{
    let list = [
        "확실히", "반드시", "항상", "모든", "전부", "절대", "결코",
        "100%", "완벽히", "완전히", "무조건", "유일",
        "always", "never", "definitely", "absolutely", "certainly",
    ];
    let mut r: Vec<Vec<char>> = Vec::new();
    let mut i: usize = 0;
    while i < 17
        invariant
            i <= 17,
            list@ == seq![
                "확실히", "반드시", "항상", "모든", "전부", "절대", "결코",
                "100%", "완벽히", "완전히", "무조건", "유일",
                "always", "never", "definitely", "absolutely", "certainly",
            ],
            r@.len() == i,
            forall|k: int| 0 <= k < i ==> (#[trigger] r@[k])@ == strong_markers()[k],
        decreases 17 - i,
    {
        r.push(chars_of(list[i]));
        i = i + 1;
    }
    proof {
        assert(views(r@) =~= strong_markers());
    }
    r
}

fn has_marker_exec(l: &[char], ms: &Vec<Vec<char>>) -> (b: bool)
    requires
        views(ms@) == strong_markers(),
    ensures
        b == has_marker(l@),
{
    let mut k: usize = 0;
    while k < ms.len()
        invariant
            k <= ms@.len(),
            views(ms@) == strong_markers(),
            forall|j: int| 0 <= j < k ==> !contains(l@, #[trigger] strong_markers()[j]),
        decreases ms@.len() - k,
    {
        if contains_exec(l, ms[k].as_slice()) {
            proof {
                assert(ms@[k as int]@ == strong_markers()[k as int]);
            }
            return true;
        }
        proof {
            assert(ms@[k as int]@ == strong_markers()[k as int]);
        }
        k = k + 1;
    }
    false
}

fn contains_vec(v: &Vec<Vec<char>>, x: &Vec<char>) -> (b: bool)
    ensures
        b == views(v@).contains(x@),
{
    let mut i: usize = 0;
    while i < v.len()
        invariant
            i <= v@.len(),
            forall|k: int| 0 <= k < i ==> v@[k]@ != x@,
        decreases v@.len() - i,
    {
        if crate::text::range_eq(v[i].as_slice(), 0, v[i].len(), x.as_slice()) {
            proof {
                assert(v@[i as int]@.subrange(0, v@[i as int]@.len() as int) =~= v@[i as int]@);
                assert(views(v@)[i as int] == x@);
            }
            return true;
        }
        proof {
            assert(v@[i as int]@.subrange(0, v@[i as int]@.len() as int) =~= v@[i as int]@);
        }
        i = i + 1;
    }
    proof {
        if views(v@).contains(x@) {
            let k = choose|k: int| 0 <= k < views(v@).len() && views(v@)[k] == x@;
            assert(v@[k]@ == x@);
        }
    }
    false
}

/// The sentences of `processed` that hold an expression of certainty
/// ("확실히", "반드시", "항상", "always", "never", ...), compared in lowercase:
/// each trimmed, cut to 200 characters plus `…` when longer, in order and
/// each reported once. These are candidates for softening, for review.
pub fn detect_strong_claims(processed: &str) -> (r: Vec<String>)
    ensures
        r@.len() == strong_claims_spec(processed@).len(),
        forall|i: int| 0 <= i < r@.len() ==> (#[trigger] r@[i])@ == strong_claims_spec(processed@)[i],
{
    let s = chars_of(processed);
    let ranges = sentence_ranges(s.as_slice());
    let ms = markers();
    let mut hits: Vec<Vec<char>> = Vec::new();
    let mut i: usize = 0;
    let ghost ps = sentence_pieces(s@);
    proof {
        assert(views(hits@) =~= claims_of(ps.take(0)));
    }
    while i < ranges.len()
        invariant
            i <= ranges@.len() == ps.len(),
            ps == sentence_pieces(s@),
            views(ms@) == strong_markers(),
            forall|k: int|
                0 <= k < ranges@.len() ==> (#[trigger] ranges@[k]).0 <= ranges@[k].1 <= s@.len() && s@.subrange(
                    ranges@[k].0 as int,
                    ranges@[k].1 as int,
                ) == ps[k],
            views(hits@) == claims_of(ps.take(i as int)),
        decreases ranges@.len() - i,
    {
        let (a, b) = ranges[i];
        let (ta, tb) = trim_range(s.as_slice(), a, b);
        let ghost before = views(hits@);
        proof {
            assert(ps.take(i + 1).drop_last() =~= ps.take(i as int));
            assert(ps.take(i + 1).last() == ps[i as int]);
        }
        if ta < tb {
            let low = lower_range(s.as_slice(), ta, tb);
            if has_marker_exec(low.as_slice(), &ms) {
                let snip = if tb - ta > 200 {
                    let mut v = copy_range(s.as_slice(), ta, ta + 200);
                    v.push('…');
                    proof {
                        assert(s@.subrange(ta as int, ta + 200) =~= s@.subrange(ta as int, tb as int).take(200));
                    }
                    v
                } else {
                    copy_range(s.as_slice(), ta, tb)
                };
                if !contains_vec(&hits, &snip) {
                    hits.push(snip);
                    proof {
                        assert(views(hits@) =~= before.push(snip@));
                    }
                }
            }
        }
        i = i + 1;
    }
    proof {
        assert(ps.take(i as int) =~= ps);
    }
    let mut r: Vec<String> = Vec::new();
    let mut k: usize = 0;
    while k < hits.len()
        invariant
            k <= hits@.len(),
            r@.len() == k,
            forall|m: int| 0 <= m < k ==> (#[trigger] r@[m])@ == hits@[m]@,
        decreases hits@.len() - k,
    {
        r.push(string_of(hits[k].as_slice()));
        k = k + 1;
    }
    proof {
        assert forall|m: int| 0 <= m < r@.len() implies (#[trigger] r@[m])@ == strong_claims_spec(processed@)[m] by {
            assert(views(hits@)[m] == hits@[m]@);
        }
    }
    r
}

} // verus!
