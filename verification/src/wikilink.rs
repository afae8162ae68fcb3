//! Wikilinks: `[[target]]`, `[[target#section]]` and `[[target|alias]]`.

use vstd::prelude::*;
use crate::models::StoredDocSummary;
use crate::paths::{file_stem_of, path_file_stem};
use crate::text::{
    chars_of, copy_range, lower_chars, lower_range, lowercase, range_eq, string_of, trim, trim_range,
};

verus! {

/// Index of the first `"]]"` at or after `from`, if any.
pub open spec fn close_at(s: Seq<char>, from: int) -> Option<int>
    decreases s.len() - from,
{
    if 0 <= from && from + 1 < s.len() {
        if s[from] == ']' && s[from + 1] == ']' {
            Some(from)
        } else {
            close_at(s, from + 1)
        }
    } else {
        None
    }
}

/// `s` up to (not including) its first `c`.
pub open spec fn before_char(s: Seq<char>, c: char) -> Seq<char>
    decreases s.len(),
{
    if s.len() == 0 {
        s
    } else if s[0] == c {
        seq![]
    } else {
        seq![s[0]] + before_char(s.drop_first(), c)
    }
}

/// The target named by a link body: before any `|` alias and `#` section,
/// trimmed and lowercased.
pub open spec fn link_target(body: Seq<char>) -> Seq<char> {
    lowercase(trim(before_char(before_char(body, '|'), '#')))
}

/// Targets of the links in `s[i..]`, in order, scanning stops at the first
/// `[[` without a closing `]]`.
pub open spec fn link_scan(s: Seq<char>, i: int) -> Seq<Seq<char>>
    decreases s.len() - i,
{
    if 0 <= i && i + 1 < s.len() {
        if s[i] == '[' && s[i + 1] == '[' {
            match close_at(s, i + 2) {
                Some(e) => if i < e + 2 <= s.len() {
                    seq![link_target(s.subrange(i + 2, e))] + link_scan(s, e + 2)
                } else {
                    seq![]
                },
                None => seq![],
            }
        } else {
            link_scan(s, i + 1)
        }
    } else {
        seq![]
    }
}

/// `ts` without empty entries and without repeats (first occurrence kept).
pub open spec fn unique_nonempty(ts: Seq<Seq<char>>) -> Seq<Seq<char>>
    decreases ts.len(),
{
    if ts.len() == 0 {
        seq![]
    } else {
        let r = unique_nonempty(ts.drop_last());
        if ts.last().len() == 0 || r.contains(ts.last()) {
            r
        } else {
            r.push(ts.last())
        }
    }
}

pub proof fn lemma_close_at_range(s: Seq<char>, from: int)
    ensures
        close_at(s, from) matches Some(e) ==> from <= e && e + 1 < s.len() && s[e] == ']' && s[e + 1] == ']',
    decreases s.len() - from,
{
    if 0 <= from && from + 1 < s.len() && !(s[from] == ']' && s[from + 1] == ']') {
        lemma_close_at_range(s, from + 1);
    }
}

fn close_at_exec(s: &[char], from: usize) -> (r: Option<usize>)
    requires
        from <= s@.len(),
    ensures
        r is Some <==> close_at(s@, from as int) is Some,
        r matches Some(e) ==> close_at(s@, from as int) == Some(e as int),
{
    let mut j = from;
    while j < s.len() && s.len() - j > 1
        invariant
            from <= j <= s@.len(),
            close_at(s@, from as int) == close_at(s@, j as int),
        decreases s@.len() - j,
    {
        if s[j] == ']' && s[j + 1] == ']' {
            return Some(j);
        }
        j = j + 1;
    }
    None
}

/// End of `s[lo..hi]` before its first `c` (or `hi`).
fn before_char_end(s: &[char], lo: usize, hi: usize, c: char) -> (e: usize)
    requires
        lo <= hi <= s@.len(),
    ensures
        lo <= e <= hi,
        s@.subrange(lo as int, e as int) == before_char(s@.subrange(lo as int, hi as int), c),
{
    let mut j = lo;
    while j < hi && s[j] != c
        invariant
            lo <= j <= hi <= s@.len(),
            forall|k: int| lo <= k < j ==> s@[k] != c,
        decreases hi - j,
    {
        j = j + 1;
    }
    proof {
        lemma_before_char(s@.subrange(lo as int, hi as int), c, j - lo);
        assert(s@.subrange(lo as int, hi as int).take(j - lo) =~= s@.subrange(lo as int, j as int));
    }
    j
}

proof fn lemma_before_char(t: Seq<char>, c: char, k: int)
    requires
        0 <= k <= t.len(),
        forall|i: int| 0 <= i < k ==> t[i] != c,
        k == t.len() || t[k] == c,
    ensures
        before_char(t, c) == t.take(k),
    decreases t.len(),
{
    if t.len() > 0 && t[0] != c {
        assert forall|i: int| 0 <= i < k - 1 implies t.drop_first()[i] != c by {
            assert(t.drop_first()[i] == t[i + 1]);
        }
        lemma_before_char(t.drop_first(), c, k - 1);
        assert(seq![t[0]] + t.drop_first().take(k - 1) =~= t.take(k));
    } else if t.len() > 0 {
        assert(t.take(0) =~= Seq::<char>::empty());
    } else {
        assert(t.take(0) =~= t);
    }
}

/// Whether `v` holds a vector with the characters `x`.
fn contains_seq(v: &Vec<Vec<char>>, x: &Vec<char>) -> (b: bool)
    ensures
        b == crate::text::views(v@).contains(x@),
{
    let mut i: usize = 0;
    while i < v.len()
        invariant
            i <= v@.len(),
            forall|k: int| 0 <= k < i ==> v@[k]@ != x@,
        decreases v@.len() - i,
    {
        if range_eq(v[i].as_slice(), 0, v[i].len(), x.as_slice()) {
            proof {
                assert(v@[i as int]@.subrange(0, v@[i as int]@.len() as int) =~= v@[i as int]@);
                assert(crate::text::views(v@)[i as int] == x@);
            }
            return true;
        }
        proof {
            assert(v@[i as int]@.subrange(0, v@[i as int]@.len() as int) =~= v@[i as int]@);
        }
        i = i + 1;
    }
    proof {
        if crate::text::views(v@).contains(x@) {
            let k = choose|k: int| 0 <= k < crate::text::views(v@).len() && crate::text::views(v@)[k] == x@;
            assert(v@[k]@ == x@);
        }
    }
    false
}

/// The targets of the wikilinks in `text`: for each `[[...]]` in order, the
/// part before any `|` alias and `#` section, trimmed and lowercased; empty
/// targets and repeats left out. Scanning stops at a `[[` that is never closed.
pub fn extract_wikilinks(text: &str) -> (r: Vec<String>)
    ensures
        r@.len() == unique_nonempty(link_scan(text@, 0)).len(),
        forall|i: int| 0 <= i < r@.len() ==> (#[trigger] r@[i])@ == unique_nonempty(link_scan(text@, 0))[i],
{
    let s = chars_of(text);
    let mut out: Vec<Vec<char>> = Vec::new();
    let mut i: usize = 0;
    let ghost all = link_scan(s@, 0);
    let ghost mut seen: Seq<Seq<char>> = seq![];
    proof {
        assert(all == seen + link_scan(s@, 0));
        assert(crate::text::views(out@) =~= unique_nonempty(seen));
    }
    while i < s.len() && s.len() - i > 1
        invariant
            i <= s@.len(),
            s@ == text@,
            all == link_scan(s@, 0),
            all == seen + link_scan(s@, i as int),
            crate::text::views(out@) == unique_nonempty(seen),
        decreases s@.len() - i,
    {
        if s[i] == '[' && s[i + 1] == '[' {
            match close_at_exec(&s, i + 2) {
                None => {
                    proof {
                        assert(link_scan(s@, i as int) =~= Seq::<Seq<char>>::empty());
                        assert(link_scan(s@, s@.len() as int) =~= Seq::<Seq<char>>::empty());
                        assert(all =~= seen + link_scan(s@, s@.len() as int));
                    }
                    i = s.len();
                },
                Some(e) => {
                    proof {
                        lemma_close_at_range(s@, i + 2);
                    }
                    let a = before_char_end(&s, i + 2, e, '|');
                    let b = before_char_end(&s, i + 2, a, '#');
                    let (ta, tb) = trim_range(&s, i + 2, b);
                    let target = lower_range(&s, ta, tb);
                    let ghost t = link_target(s@.subrange(i + 2, e as int));
                    proof {
                        assert(target@ == t);
                        assert(link_scan(s@, i as int) == seq![t] + link_scan(s@, e + 2));
                        assert(all =~= seen.push(t) + link_scan(s@, e + 2));
                        assert(seen.push(t).drop_last() =~= seen);
                    }
                    let dup = contains_seq(&out, &target);
                    if target.len() > 0 && !dup {
                        let ghost before = crate::text::views(out@);
                        out.push(target);
                        proof {
                            assert(crate::text::views(out@) =~= before.push(t));
                        }
                    }
                    proof {
                        seen = seen.push(t);
                    }
                    i = e + 2;
                },
            }
        } else {
            proof {
                assert(link_scan(s@, i as int) == link_scan(s@, i + 1));
            }
            i = i + 1;
        }
    }
    proof {
        assert(link_scan(s@, i as int) =~= Seq::<Seq<char>>::empty());
        assert(all =~= seen);
    }
    let mut r: Vec<String> = Vec::new();
    let mut k: usize = 0;
    while k < out.len()
        invariant
            k <= out@.len(),
            r@.len() == k,
            forall|m: int| 0 <= m < k ==> (#[trigger] r@[m])@ == out@[m]@,
        decreases out@.len() - k,
    {
        r.push(string_of(out[k].as_slice()));
        k = k + 1;
    }
    proof {
        assert forall|m: int| 0 <= m < r@.len() implies (#[trigger] r@[m])@ == unique_nonempty(link_scan(text@, 0))[m] by {
            assert(crate::text::views(out@)[m] == out@[m]@);
        }
    }
    r
}

/// The document whose file stem equals `target` ignoring case, if any: the
/// first such document of `docs`, by its id.
pub open spec fn resolve_spec(target: Seq<char>, docs: Seq<StoredDocSummary>) -> Option<Seq<char>>
    decreases docs.len(),
{
    if docs.len() == 0 {
        None
    } else {
        let d = docs[0];
        let stem = match file_stem_of(d.path@) {
            Some(st) => lowercase(st),
            None => seq![],
        };
        if stem == lowercase(target) {
            Some(d.id@)
        } else {
            resolve_spec(target, docs.drop_first())
        }
    }
}

/// The id of the first document whose file stem (lowercased) equals the
/// lowercased `target`.
pub fn resolve_wikilink_target(target: &str, docs: &[StoredDocSummary]) -> (r: Option<String>)
    ensures
        r is Some <==> resolve_spec(target@, docs@) is Some,
        r matches Some(id) ==> resolve_spec(target@, docs@) == Some(id@),
{
    let t = lower_chars(target);
    let mut i: usize = 0;
    proof {
        assert(docs@.skip(0) =~= docs@);
    }
    while i < docs.len()
        invariant
            i <= docs@.len(),
            t@ == lowercase(target@),
            resolve_spec(target@, docs@) == resolve_spec(target@, docs@.skip(i as int)),
        decreases docs@.len() - i,
    {
        let d = &docs[i];
        let stem: Vec<char> = match path_file_stem(d.path.as_str()) {
            Some(st) => lower_chars(st.as_str()),
            None => Vec::new(),
        };
        proof {
            assert(docs@.skip(i as int)[0] == *d);
            assert(docs@.skip(i as int).drop_first() =~= docs@.skip(i + 1));
        }
        if range_eq(stem.as_slice(), 0, stem.len(), t.as_slice()) {
            proof {
                assert(stem@.subrange(0, stem@.len() as int) =~= stem@);
            }
            return Some(d.id.clone());
        }
        proof {
            assert(stem@.subrange(0, stem@.len() as int) =~= stem@);
        }
        i = i + 1;
    }
    proof {
        assert(docs@.skip(i as int) =~= Seq::<StoredDocSummary>::empty());
    }
    None
}

} // verus!
