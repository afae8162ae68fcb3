//! Structured log of pipeline errors, kept to the last 1000 entries.

use vstd::prelude::*;
use crate::clock::now_rfc3339;
use crate::text::owned;

verus! {

#[derive(Debug, Clone)]
pub struct ErrorEntry {
    pub timestamp: String,
    pub stage: String,
    pub file: String,
    pub error: String,
    pub context: String,
}

#[derive(Debug)]
pub struct ErrorLog {
    pub entries: Vec<ErrorEntry>,
}

/// The stages of `es`, as plain values.
pub open spec fn stages(es: Seq<ErrorEntry>) -> Seq<Seq<char>> {
    Seq::new(es.len(), |i: int| es[i].stage@)
}

/// Number of entries of `es` whose stage is `st`.
pub open spec fn stage_count(es: Seq<ErrorEntry>, st: Seq<char>) -> nat
    decreases es.len(),
{
    if es.len() == 0 {
        0
    } else {
        stage_count(es.drop_last(), st) + if es.last().stage@ == st {
            1nat
        } else {
            0nat
        }
    }
}

impl ErrorLog {
    pub fn new() -> (r: Self)
        ensures
            r.entries@.len() == 0,
    {
        ErrorLog { entries: Vec::new() }
    }

    /// Records an error with the current time; only the last 1000 entries are kept.
    pub fn record(&mut self, stage: &str, file: &str, error: &str, context: &str)
        ensures
            ({
                let grown: int = old(self).entries@.len() as int + 1;
                let kept: int = if grown > 1000 { 1000 } else { grown };
                &&& final(self).entries@.len() == kept
                &&& final(self).entries@.last().stage@ == stage@
                &&& final(self).entries@.last().file@ == file@
                &&& final(self).entries@.last().error@ == error@
                &&& final(self).entries@.last().context@ == context@
                &&& forall|i: int|
                    0 <= i < kept - 1 ==> #[trigger] final(self).entries@[i] == old(self).entries@[i
                        + (grown - kept)]
            }),
    {
        let entry = ErrorEntry {
            timestamp: now_rfc3339(),
            stage: owned(stage),
            file: owned(file),
            error: owned(error),
            context: owned(context),
        };
        self.entries.push(entry);
        if self.entries.len() > 1000 {
            let cut = self.entries.len() - 1000;
            let rest = self.entries.split_off(cut);
            self.entries = rest;
        }
    }

    /// The last `n` entries (all of them when there are fewer).
    pub fn recent(&self, n: usize) -> (r: &[ErrorEntry])
        ensures
            r@ == self.entries@.subrange(
                if self.entries@.len() >= n { self.entries@.len() - n } else { 0 },
                self.entries@.len() as int,
            ),
    {
        let start = if self.entries.len() >= n {
            self.entries.len() - n
        } else {
            0
        };
        vstd::slice::slice_subrange(self.entries.as_slice(), start, self.entries.len())
    }

    /// Each stage with its number of entries, most frequent first (the order
    /// among equal counts is not specified).
    pub fn count_by_stage(&self) -> (r: Vec<(String, usize)>)
        ensures
            forall|i: int|
                0 <= i < r@.len() ==> stages(self.entries@).contains(#[trigger] r@[i].0@)
                    && r@[i].1 == stage_count(self.entries@, r@[i].0@),
            forall|st: Seq<char>| stages(self.entries@).contains(st) ==> exists|i: int|
                0 <= i < r@.len() && (#[trigger] r@[i]).0@ == st,
            forall|i: int, j: int| 0 <= i < j < r@.len() ==> r@[i].0@ != r@[j].0@ && r@[i].1 >= r@[j].1,
    {
        let counts = tally_stages(&self.entries);
        let order = order_by_count_desc(&counts);
        let mut r: Vec<(String, usize)> = Vec::new();
        let mut k: usize = 0;
        while k < order.len()
            invariant
                k <= order@.len() == counts@.len(),
                r@.len() == k,
                forall|m: int| 0 <= m < k ==> (#[trigger] r@[m]) == counts@[order@[m] as int],
                forall|m: int| 0 <= m < order@.len() ==> (#[trigger] order@[m]) < counts@.len(),
            decreases order@.len() - k,
        {
            let c = &counts[order[k]];
            r.push((c.0.clone(), c.1));
            k = k + 1;
        }
        proof {
            let es = self.entries@;
            assert forall|st: Seq<char>| stages(es).contains(st) implies exists|i: int|
                0 <= i < r@.len() && (#[trigger] r@[i]).0@ == st by {
                let c = choose|c: int| 0 <= c < counts@.len() && (#[trigger] counts@[c]).0@ == st;
                assert(has_pos(order@, c));
                let m = choose|m: int| 0 <= m < order@.len() && order@[m] == c;
                assert(r@[m].0@ == st);
            }
            assert forall|i: int, j: int| 0 <= i < j < r@.len() implies r@[i].0@ != r@[j].0@ && r@[i].1 >= r@[j].1 by {
                assert(order@[i] != order@[j]);
            }
        }
        r
    }
}

/// Position of the stage `st` in `counts`, if present.
fn find_stage(counts: &Vec<(String, usize)>, st: &String) -> (r: Option<usize>)
    ensures
        r matches Some(j) ==> j < counts@.len() && counts@[j as int].0@ == st@,
        r is None ==> forall|m: int| 0 <= m < counts@.len() ==> (#[trigger] counts@[m]).0@ != st@,
{
    let mut j: usize = 0;
    while j < counts.len()
        invariant
            j <= counts@.len(),
            forall|m: int| 0 <= m < j ==> (#[trigger] counts@[m]).0@ != st@,
        decreases counts@.len() - j,
    {
        if counts[j].0 == *st {
            return Some(j);
        }
        j = j + 1;
    }
    None
}

/// The distinct stages of `es` (in order of first appearance) with their counts.
fn tally_stages(es: &Vec<ErrorEntry>) -> (counts: Vec<(String, usize)>)
    ensures
        forall|i: int|
            0 <= i < counts@.len() ==> stages(es@).contains(#[trigger] counts@[i].0@)
                && counts@[i].1 == stage_count(es@, counts@[i].0@),
        forall|st: Seq<char>| stages(es@).contains(st) ==> exists|i: int|
            0 <= i < counts@.len() && (#[trigger] counts@[i]).0@ == st,
        forall|i: int, j: int| 0 <= i < j < counts@.len() ==> counts@[i].0@ != counts@[j].0@,
{
    let mut counts: Vec<(String, usize)> = Vec::new();
    let mut k: usize = 0;
    while k < es.len()
        invariant
            k <= es@.len(),
            forall|i: int|
                0 <= i < counts@.len() ==> stages(es@.take(k as int)).contains(
                    #[trigger] counts@[i].0@,
                ) && counts@[i].1 == stage_count(es@.take(k as int), counts@[i].0@),
            forall|st: Seq<char>| stages(es@.take(k as int)).contains(st) ==> exists|i: int|
                0 <= i < counts@.len() && (#[trigger] counts@[i]).0@ == st,
            forall|i: int, j: int| 0 <= i < j < counts@.len() ==> counts@[i].0@ != counts@[j].0@,
        decreases es@.len() - k,
    {
        let st = &es[k].stage;
        let ghost es0 = es@.take(k as int);
        let ghost es1 = es@.take(k + 1);
        let ghost before = counts@;
        proof {
            assert(es1.drop_last() =~= es0);
            assert(stages(es1) =~= stages(es0).push(st@));
            lemma_stage_count_le(es0, st@);
        }
        match find_stage(&counts, st) {
            Some(f) => {
                let c = counts[f].1;
                let name = counts[f].0.clone();
                counts.set(f, (name, c + 1));
                proof {
                    assert forall|i: int| 0 <= i < counts@.len() implies stages(es1).contains(
                        #[trigger] counts@[i].0@,
                    ) && counts@[i].1 == stage_count(es1, counts@[i].0@) by {
                        assert(stages(es1)[k as int] == st@);
                        if i != f {
                            let w = choose|w: int| 0 <= w < stages(es0).len() && stages(es0)[w] == before[i].0@;
                            assert(stages(es1)[w] == before[i].0@);
                        }
                    }
                    assert forall|x: Seq<char>| stages(es1).contains(x) implies exists|i: int|
                        0 <= i < counts@.len() && (#[trigger] counts@[i]).0@ == x by {
                        let w = choose|w: int| 0 <= w < stages(es1).len() && stages(es1)[w] == x;
                        if w < k {
                            assert(stages(es0)[w] == x);
                            assert(stages(es0).contains(x));
                            let i = choose|i: int| 0 <= i < before.len() && (#[trigger] before[i]).0@ == x;
                            assert(counts@[i].0@ == x);
                        } else {
                            assert(counts@[f as int].0@ == x);
                        }
                    }
                }
            },
            None => {
                let name = st.clone();
                counts.push((name, 1));
                proof {
                    assert(!stages(es0).contains(st@)) by {
                        if stages(es0).contains(st@) {
                            let i = choose|i: int| 0 <= i < before.len() && (#[trigger] before[i]).0@ == st@;
                            assert(before[i].0@ != st@);
                        }
                    }
                    lemma_stage_count_absent(es0, st@);
                    assert forall|i: int| 0 <= i < counts@.len() implies stages(es1).contains(
                        #[trigger] counts@[i].0@,
                    ) && counts@[i].1 == stage_count(es1, counts@[i].0@) by {
                        assert(stages(es1)[k as int] == st@);
                        if i < before.len() {
                            let w = choose|w: int| 0 <= w < stages(es0).len() && stages(es0)[w] == before[i].0@;
                            assert(stages(es1)[w] == before[i].0@);
                        }
                    }
                    assert forall|x: Seq<char>| stages(es1).contains(x) implies exists|i: int|
                        0 <= i < counts@.len() && (#[trigger] counts@[i]).0@ == x by {
                        let w = choose|w: int| 0 <= w < stages(es1).len() && stages(es1)[w] == x;
                        if w < k {
                            assert(stages(es0)[w] == x);
                            assert(stages(es0).contains(x));
                            let i = choose|i: int| 0 <= i < before.len() && (#[trigger] before[i]).0@ == x;
                            assert(counts@[i].0@ == x);
                        } else {
                            assert(counts@[before.len() as int].0@ == x);
                        }
                    }
                }
            },
        }
        k = k + 1;
    }
    proof {
        assert(es@.take(k as int) =~= es@);
    }
    counts
}

proof fn lemma_stage_count_le(es: Seq<ErrorEntry>, st: Seq<char>)
    ensures
        stage_count(es, st) <= es.len(),
    decreases es.len(),
{
    if es.len() > 0 {
        lemma_stage_count_le(es.drop_last(), st);
    }
}

proof fn lemma_stage_count_absent(es: Seq<ErrorEntry>, st: Seq<char>)
    requires
        !stages(es).contains(st),
    ensures
        stage_count(es, st) == 0,
    decreases es.len(),
{
    if es.len() > 0 {
        assert(stages(es)[es.len() - 1] == es.last().stage@);
        assert forall|w: int| 0 <= w < stages(es.drop_last()).len() implies stages(es.drop_last())[w] != st by {
            assert(stages(es)[w] == stages(es.drop_last())[w]);
        }
        lemma_stage_count_absent(es.drop_last(), st);
    }
}

/// `x` occurs in `s`.
pub open spec fn has_pos(s: Seq<usize>, x: int) -> bool {
    exists|m: int| 0 <= m < s.len() && s[m] == x
}

/// The positions of `counts`, each once, ordered by count, largest first
/// (insertion sort).
fn order_by_count_desc(counts: &Vec<(String, usize)>) -> (order: Vec<usize>)
    ensures
        order@.len() == counts@.len(),
        forall|m: int| 0 <= m < order@.len() ==> (#[trigger] order@[m]) < counts@.len(),
        forall|a: int, b: int| 0 <= a < b < order@.len() ==> order@[a] != order@[b],
        forall|x: int| 0 <= x < counts@.len() ==> #[trigger] has_pos(order@, x),
        forall|a: int, b: int|
            0 <= a < b < order@.len() ==> counts@[order@[a] as int].1 >= counts@[order@[b] as int].1,
{
    let n = counts.len();
    let mut order: Vec<usize> = Vec::new();
    let mut t: usize = 0;
    while t < n
        invariant
            t <= n == counts@.len(),
            order@.len() == t,
            forall|m: int| 0 <= m < t ==> order@[m] == m,
        decreases n - t,
    {
        order.push(t);
        t = t + 1;
    }
    proof {
        assert forall|x: int| 0 <= x < n implies #[trigger] has_pos(order@, x) by {
            assert(order@[x] == x);
        }
    }
    if n == 0 {
        return order;
    }
    let mut i: usize = 1;
    while i < n
        invariant
            1 <= i <= n == counts@.len() == order@.len(),
            forall|m: int| 0 <= m < order@.len() ==> (#[trigger] order@[m]) < n,
            forall|a: int, b: int| 0 <= a < b < order@.len() ==> order@[a] != order@[b],
            forall|x: int| 0 <= x < n ==> #[trigger] has_pos(order@, x),
            forall|a: int, b: int|
                0 <= a < b < i ==> counts@[(#[trigger] order@[a]) as int].1 >= counts@[(
                #[trigger] order@[b]) as int].1,
        decreases n - i,
    {
        let mut j = i;
        while j > 0 && counts[order[j - 1]].1 < counts[order[j]].1
            invariant
                0 <= j <= i < n == counts@.len() == order@.len(),
                forall|m: int| 0 <= m < order@.len() ==> (#[trigger] order@[m]) < n,
                forall|a: int, b: int| 0 <= a < b < order@.len() ==> order@[a] != order@[b],
                forall|x: int| 0 <= x < n ==> #[trigger] has_pos(order@, x),
                forall|a: int, b: int|
                    0 <= a < b <= i && a != j && b != j ==> counts@[(#[trigger] order@[a]) as int].1
                        >= counts@[(#[trigger] order@[b]) as int].1,
                forall|b: int|
                    j < b <= i ==> counts@[order@[j as int] as int].1 > counts@[(
                    #[trigger] order@[b]) as int].1,
            decreases j,
        {
            let ghost w = order@;
            let x = order[j];
            let y = order[j - 1];
            order.set(j, y);
            order.set(j - 1, x);
            proof {
                assert forall|z: int| 0 <= z < n implies #[trigger] has_pos(order@, z) by {
                    assert(has_pos(w, z));
                    let m0 = choose|m: int| 0 <= m < w.len() && w[m] == z;
                    if m0 == j {
                        assert(order@[j - 1] == z);
                    } else if m0 == j - 1 {
                        assert(order@[j as int] == z);
                    } else {
                        assert(order@[m0] == z);
                    }
                }
            }
            j = j - 1;
        }
        proof {
            assert forall|a: int, b: int| 0 <= a < b < i + 1 implies counts@[(
            #[trigger] order@[a]) as int].1 >= counts@[(#[trigger] order@[b]) as int].1 by {
                if a == j {
                } else if b == j {
                    if j > 0 && a < j - 1 {
                        assert(counts@[order@[a] as int].1 >= counts@[order@[j - 1] as int].1);
                    }
                }
            }
        }
        i = i + 1;
    }
    order
}

} // verus!
