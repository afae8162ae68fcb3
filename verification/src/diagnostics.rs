//! Health of the document corpus: the tally of its relations (totals,
//! distinct pairs, documents without relations, the histogram of relation
//! counts, the counts per relation kind, the hub documents), and the issues
//! found.

use vstd::prelude::*;
use crate::cross_reference::RelationType;
use crate::models::{CorpusDoc, DocRelation};
use crate::text::{dec_digits, dec_of, owned, same_text, str_less, str_lt};

verus! {

/// A document with many relations.
#[derive(Debug, Clone)]
pub struct HubDoc {
    pub doc_id: String,
    pub relation_count: usize,
}


// ---------------------------------------------------------------------------
// Tally of the corpus
// ---------------------------------------------------------------------------

/// The number of relations of all documents.
pub open spec fn relation_total(docs: Seq<CorpusDoc>) -> nat
    decreases docs.len(),
{
    if docs.len() == 0 {
        0
    } else {
        relation_total(docs.drop_last()) + docs.last().relations@.len()
    }
}

/// The number of documents without relations.
pub open spec fn isolated_total(docs: Seq<CorpusDoc>) -> nat
    decreases docs.len(),
{
    if docs.len() == 0 {
        0
    } else {
        isolated_total(docs.drop_last()) + if docs.last().relations@.len() == 0 {
            1nat
        } else {
            0nat
        }
    }
}

/// A relation as an unordered pair: its two ends, the smaller first.
pub open spec fn pair_of(r: DocRelation) -> (Seq<char>, Seq<char>) {
    if str_lt(r.source_id@, r.target_id@) {
        (r.source_id@, r.target_id@)
    } else {
        (r.target_id@, r.source_id@)
    }
}

/// The pairs of the relations `rels`.
pub open spec fn pairs_of(rels: Seq<DocRelation>) -> Seq<(Seq<char>, Seq<char>)> {
    Seq::new(rels.len(), |i: int| pair_of(rels[i]))
}

/// The pairs of all relations of all documents, in order.
pub open spec fn all_pairs(docs: Seq<CorpusDoc>) -> Seq<(Seq<char>, Seq<char>)>
    decreases docs.len(),
{
    if docs.len() == 0 {
        seq![]
    } else {
        all_pairs(docs.drop_last()) + pairs_of(docs.last().relations@)
    }
}

/// The elements of `s`, each once, in order of first appearance.
pub open spec fn distinct<A>(s: Seq<A>) -> Seq<A>
    decreases s.len(),
{
    if s.len() == 0 {
        seq![]
    } else {
        let r = distinct(s.drop_last());
        if r.contains(s.last()) {
            r
        } else {
            r.push(s.last())
        }
    }
}

/// The position of the first entry with key `k`, or -1.
pub open spec fn key_index<K>(r: Seq<(K, nat)>, k: K) -> int
    decreases r.len(),
{
    if r.len() == 0 {
        -1
    } else if key_index(r.drop_last(), k) >= 0 {
        key_index(r.drop_last(), k)
    } else if r.last().0 == k {
        r.len() - 1
    } else {
        -1
    }
}

/// The keys of `s` in order of first appearance, each with the sum of its
/// weights.
pub open spec fn tally<K>(s: Seq<(K, nat)>) -> Seq<(K, nat)>
    decreases s.len(),
{
    if s.len() == 0 {
        seq![]
    } else {
        let r = tally(s.drop_last());
        let (k, c) = s.last();
        let j = key_index(r, k);
        if j >= 0 {
            r.update(j, (k, r[j].1 + c))
        } else {
            r.push((k, c))
        }
    }
}

/// The sum of the weights of `s`.
pub open spec fn weight_sum<K>(s: Seq<(K, nat)>) -> nat
    decreases s.len(),
{
    if s.len() == 0 {
        0
    } else {
        weight_sum(s.drop_last()) + s.last().1
    }
}

/// The relation kinds of `rels`, each with weight 1.
pub open spec fn kinds_of(rels: Seq<DocRelation>) -> Seq<(RelationType, nat)> {
    Seq::new(rels.len(), |i: int| (rels[i].relation, 1nat))
}

/// The relation kinds of all relations of all documents, in order.
pub open spec fn all_kinds(docs: Seq<CorpusDoc>) -> Seq<(RelationType, nat)>
    decreases docs.len(),
{
    if docs.len() == 0 {
        seq![]
    } else {
        all_kinds(docs.drop_last()) + kinds_of(docs.last().relations@)
    }
}

/// The number of relations of `d` that point to `d` itself.
pub open spec fn self_links(id: Seq<char>, rels: Seq<DocRelation>) -> nat
    decreases rels.len(),
{
    if rels.len() == 0 {
        0
    } else {
        self_links(id, rels.drop_last()) + if rels.last().target_id@ == id {
            1nat
        } else {
            0nat
        }
    }
}

/// The documents with relations to themselves, each with their number.
pub open spec fn incoming_of(docs: Seq<CorpusDoc>) -> Seq<(Seq<char>, nat)>
    decreases docs.len(),
{
    if docs.len() == 0 {
        seq![]
    } else {
        let d = docs.last();
        let n = self_links(d.id@, d.relations@);
        if n > 0 {
            incoming_of(docs.drop_last()).push((d.id@, n))
        } else {
            incoming_of(docs.drop_last())
        }
    }
}

/// The documents with their numbers of relations, in listing order.
pub open spec fn per_doc(docs: Seq<CorpusDoc>) -> Seq<(Seq<char>, nat)> {
    Seq::new(docs.len(), |i: int| (docs[i].id@, docs[i].relations@.len()))
}

/// `s` with `x` inserted after every element of at least its count.
pub open spec fn insert_desc(s: Seq<(Seq<char>, nat)>, x: (Seq<char>, nat)) -> Seq<(Seq<char>, nat)>
    decreases s.len(),
{
    if s.len() == 0 || s.last().1 >= x.1 {
        s.push(x)
    } else {
        insert_desc(s.drop_last(), x).push(s.last())
    }
}

/// `s` sorted by count, largest first; equal counts keep their order.
pub open spec fn sort_desc(s: Seq<(Seq<char>, nat)>) -> Seq<(Seq<char>, nat)>
    decreases s.len(),
{
    if s.len() == 0 {
        s
    } else {
        insert_desc(sort_desc(s.drop_last()), s.last())
    }
}

/// The first ten entries (all of them when fewer).
pub open spec fn top10(s: Seq<(Seq<char>, nat)>) -> Seq<(Seq<char>, nat)> {
    if s.len() <= 10 {
        s
    } else {
        s.take(10)
    }
}

/// The histogram bucket of a relation count: 0-9, 10-19, 20-29, 30-49, 50-99,
/// 100 and more.
pub open spec fn bucket_of(c: nat) -> int {
    if c <= 9 {
        0
    } else if c <= 19 {
        1
    } else if c <= 29 {
        2
    } else if c <= 49 {
        3
    } else if c <= 99 {
        4
    } else {
        5
    }
}

/// The label of a bucket.
pub open spec fn bucket_label(k: int) -> Seq<char> {
    if k == 0 {
        "0-9"@
    } else if k == 1 {
        "10-19"@
    } else if k == 2 {
        "20-29"@
    } else if k == 3 {
        "30-49"@
    } else if k == 4 {
        "50-99"@
    } else {
        "100+"@
    }
}

/// The label of the bucket of every relation count names a range that holds
/// the count: `lo-hi` in decimal with `lo <= c <= hi`, or `100+` for counts
/// of at least 100.
pub proof fn lemma_bucket_label_holds_count(c: nat)
    ensures
        (exists|lo: nat, hi: nat|
            lo <= c <= hi && #[trigger] bucket_label(bucket_of(c)) == dec_of(lo) + seq!['-'] + dec_of(hi))
            || (c >= 100 && bucket_label(bucket_of(c)) == dec_of(100) + seq!['+']),
{
    reveal_with_fuel(dec_digits, 4);
    reveal_strlit("0-9");
    reveal_strlit("10-19");
    reveal_strlit("20-29");
    reveal_strlit("30-49");
    reveal_strlit("50-99");
    reveal_strlit("100+");
    let l = bucket_label(bucket_of(c));
    if c <= 9 {
        assert(l =~= dec_of(0) + seq!['-'] + dec_of(9));
    } else if c <= 19 {
        assert(l =~= dec_of(10) + seq!['-'] + dec_of(19));
    } else if c <= 29 {
        assert(l =~= dec_of(20) + seq!['-'] + dec_of(29));
    } else if c <= 49 {
        assert(l =~= dec_of(30) + seq!['-'] + dec_of(49));
    } else if c <= 99 {
        assert(l =~= dec_of(50) + seq!['-'] + dec_of(99));
    } else {
        assert(l =~= dec_of(100) + seq!['+']);
    }
}

/// The number of documents in bucket `k`.
pub open spec fn bucket_count(docs: Seq<CorpusDoc>, k: int) -> nat
    decreases docs.len(),
{
    if docs.len() == 0 {
        0
    } else {
        bucket_count(docs.drop_last(), k) + if bucket_of(docs.last().relations@.len()) == k {
            1nat
        } else {
            0nat
        }
    }
}

/// The buckets below `k` that hold documents, in order, with their counts.
pub open spec fn histogram_upto(docs: Seq<CorpusDoc>, k: int) -> Seq<(Seq<char>, nat)>
    decreases k,
{
    if k <= 0 {
        seq![]
    } else {
        let r = histogram_upto(docs, k - 1);
        if bucket_count(docs, k - 1) > 0 {
            r.push((bucket_label(k - 1), bucket_count(docs, k - 1)))
        } else {
            r
        }
    }
}

/// The tally of a corpus.
#[derive(Debug, Clone)]
pub struct CorpusTally {
    pub doc_count: usize,
    /// All relations, each direction counted.
    pub total_relations: usize,
    /// Distinct unordered pairs of documents with a relation.
    pub unique_pairs: usize,
    /// Documents without relations.
    pub isolated_docs: usize,
    /// The buckets of relation counts that hold documents, in bucket order.
    pub histogram: Vec<(String, usize)>,
    /// The relation kinds in order of first appearance, with their counts.
    pub by_type: Vec<(RelationType, usize)>,
    /// The ten documents with the most relations (ties in listing order).
    pub hub_docs_top10: Vec<HubDoc>,
    /// The ten documents with the most relations to themselves.
    pub incoming_top10: Vec<HubDoc>,
}

/// The plain values of (name, count) pairs.
pub open spec fn counted_views(v: Seq<(String, usize)>) -> Seq<(Seq<char>, nat)> {
    Seq::new(v.len(), |i: int| (v[i].0@, v[i].1 as nat))
}

/// The plain values of hub documents.
pub open spec fn hub_views(v: Seq<HubDoc>) -> Seq<(Seq<char>, nat)> {
    Seq::new(v.len(), |i: int| (v[i].doc_id@, v[i].relation_count as nat))
}

/// The plain values of kind counts.
pub open spec fn kind_views(v: Seq<(RelationType, usize)>) -> Seq<(RelationType, nat)> {
    Seq::new(v.len(), |i: int| (v[i].0, v[i].1 as nat))
}


/// `key_index` finds the first entry with the key, and -1 when there is none.
proof fn lemma_key_index<K>(r: Seq<(K, nat)>, k: K)
    ensures
        key_index(r, k) >= 0 ==> key_index(r, k) < r.len() && r[key_index(r, k)].0 == k && forall|
            m: int,
        | 0 <= m < key_index(r, k) ==> (#[trigger] r[m]).0 != k,
        key_index(r, k) < 0 ==> key_index(r, k) == -1 && forall|m: int| 0 <= m < r.len() ==> (
        #[trigger] r[m]).0 != k,
    decreases r.len(),
{
    if r.len() > 0 {
        let p = r.drop_last();
        lemma_key_index(p, k);
        if key_index(p, k) >= 0 {
            assert(r[key_index(p, k)] == p[key_index(p, k)]);
            assert forall|m: int| 0 <= m < key_index(r, k) implies (#[trigger] r[m]).0 != k by {
                assert(r[m] == p[m]);
            }
        } else if r.last().0 == k {
            assert forall|m: int| 0 <= m < key_index(r, k) implies (#[trigger] r[m]).0 != k by {
                assert(r[m] == p[m]);
            }
        } else {
            assert forall|m: int| 0 <= m < r.len() implies (#[trigger] r[m]).0 != k by {
                if m < p.len() {
                    assert(r[m] == p[m]);
                }
            }
        }
    }
}

/// Every tallied weight is at most the sum of all weights.
pub(crate) proof fn lemma_tally_bounded<K>(s: Seq<(K, nat)>)
    ensures
        forall|m: int| 0 <= m < tally(s).len() ==> (#[trigger] tally(s)[m]).1 <= weight_sum(s),
    decreases s.len(),
{
    if s.len() > 0 {
        let p = s.drop_last();
        lemma_tally_bounded(p);
        let r = tally(p);
        let (k, c) = s.last();
        lemma_key_index(r, k);
        let j = key_index(r, k);
        assert forall|m: int| 0 <= m < tally(s).len() implies (#[trigger] tally(s)[m]).1 <= weight_sum(s) by {
            if j >= 0 {
                if m != j {
                    assert(tally(s)[m] == r[m]);
                }
            } else if m < r.len() {
                assert(tally(s)[m] == r[m]);
            }
        }
    }
}

/// The plain values of (relation kind, count) entries as a tally.
pub open spec fn kind_tally_views(v: Seq<(RelationType, usize)>) -> Seq<(RelationType, nat)> {
    kind_views(v)
}

/// Adds `c` to the entry of `k` in the tally `r`, or appends `(k, c)`.
fn tally_add_kind(r: &mut Vec<(RelationType, usize)>, k: RelationType, c: usize, bound: Ghost<nat>)
    requires
        bound@ <= usize::MAX,
        forall|m: int| 0 <= m < old(r)@.len() ==> (#[trigger] old(r)@[m]).1 + c <= bound@,
    ensures
        kind_views(final(r)@) == ({
            let v = kind_views(old(r)@);
            let j = key_index(v, k);
            if j >= 0 {
                v.update(j, (k, v[j].1 + (c as nat)))
            } else {
                v.push((k, c as nat))
            }
        }),
{
    let ghost v = kind_views(r@);
    proof {
        lemma_key_index(v, k);
    }
    let mut j: usize = 0;
    while j < r.len()
        invariant
            j <= r@.len(),
            v == kind_views(r@),
            v == kind_views(old(r)@),
            bound@ <= usize::MAX,
            forall|m: int| 0 <= m < r@.len() ==> (#[trigger] r@[m]).1 + c <= bound@,
            forall|m: int| 0 <= m < j ==> (#[trigger] r@[m]).0 != k,
        decreases r@.len() - j,
    {
        if r[j].0 == k {
            proof {
                lemma_key_index(v, k);
                assert(v[j as int].0 == k);
                assert(key_index(v, k) == j) by {
                    if key_index(v, k) >= 0 && key_index(v, k) < j {
                        assert(v[key_index(v, k)].0 == r@[key_index(v, k)].0);
                    }
                }
            }
            let n = r[j].1 + c;
            r.set(j, (k, n));
            proof {
                assert(kind_views(r@) =~= v.update(j as int, (k, v[j as int].1 + (c as nat))));
            }
            return;
        }
        j = j + 1;
    }
    proof {
        if key_index(v, k) >= 0 {
            assert(r@[key_index(v, k)].0 == v[key_index(v, k)].0);
        }
    }
    r.push((k, c));
    proof {
        assert(kind_views(r@) =~= v.push((k, c as nat)));
    }
}

/// Adds `c` to the entry of `k` in the tally `r`, or appends `(k, c)`.
pub(crate) fn tally_add_name(r: &mut Vec<(String, usize)>, k: &str, c: usize, bound: Ghost<nat>)
    requires
        bound@ <= usize::MAX,
        forall|m: int| 0 <= m < old(r)@.len() ==> (#[trigger] old(r)@[m]).1 + c <= bound@,
    ensures
        counted_views(final(r)@) == ({
            let v = counted_views(old(r)@);
            let j = key_index(v, k@);
            if j >= 0 {
                v.update(j, (k@, v[j].1 + (c as nat)))
            } else {
                v.push((k@, c as nat))
            }
        }),
{
    let ghost v = counted_views(r@);
    proof {
        lemma_key_index(v, k@);
    }
    let mut j: usize = 0;
    while j < r.len()
        invariant
            j <= r@.len(),
            v == counted_views(r@),
            v == counted_views(old(r)@),
            bound@ <= usize::MAX,
            forall|m: int| 0 <= m < r@.len() ==> (#[trigger] r@[m]).1 + c <= bound@,
            forall|m: int| 0 <= m < j ==> (#[trigger] r@[m]).0@ != k@,
        decreases r@.len() - j,
    {
        if same_text(r[j].0.as_str(), k) {
            proof {
                lemma_key_index(v, k@);
                assert(v[j as int].0 == k@);
                assert(key_index(v, k@) == j) by {
                    if key_index(v, k@) >= 0 && key_index(v, k@) < j {
                        assert(v[key_index(v, k@)].0 == r@[key_index(v, k@)].0@);
                    }
                }
            }
            let n = r[j].1 + c;
            r.set(j, (owned(k), n));
            proof {
                assert(counted_views(r@) =~= v.update(j as int, (k@, v[j as int].1 + (c as nat))));
            }
            return;
        }
        j = j + 1;
    }
    proof {
        if key_index(v, k@) >= 0 {
            assert(r@[key_index(v, k@)].0@ == v[key_index(v, k@)].0);
        }
    }
    r.push((owned(k), c));
    proof {
        assert(counted_views(r@) =~= v.push((k@, c as nat)));
    }
}

/// The total of a prefix of the documents is at most the total of all.
proof fn lemma_relation_total_prefix(docs: Seq<CorpusDoc>, i: int)
    requires
        0 <= i <= docs.len(),
    ensures
        relation_total(docs.take(i)) <= relation_total(docs),
    decreases docs.len() - i,
{
    if i < docs.len() {
        lemma_relation_total_prefix(docs, i + 1);
        assert(docs.take(i + 1).drop_last() =~= docs.take(i));
    } else {
        assert(docs.take(i) =~= docs);
    }
}

/// The kinds of all relations weigh as much as there are relations.
proof fn lemma_kinds_weight(docs: Seq<CorpusDoc>)
    ensures
        weight_sum(all_kinds(docs)) == relation_total(docs),
    decreases docs.len(),
{
    if docs.len() > 0 {
        lemma_kinds_weight(docs.drop_last());
        lemma_weight_concat(all_kinds(docs.drop_last()), kinds_of(docs.last().relations@));
        lemma_kinds_of_weight(docs.last().relations@);
    }
}

/// The kinds of `rels` weigh as much as there are relations.
proof fn lemma_kinds_of_weight(rels: Seq<DocRelation>)
    ensures
        weight_sum(kinds_of(rels)) == rels.len(),
    decreases rels.len(),
{
    if rels.len() > 0 {
        lemma_kinds_of_weight(rels.drop_last());
        assert(kinds_of(rels).drop_last() =~= kinds_of(rels.drop_last()));
    }
}

/// Weights add up over a concatenation.
proof fn lemma_weight_concat<K>(a: Seq<(K, nat)>, b: Seq<(K, nat)>)
    ensures
        weight_sum(a + b) == weight_sum(a) + weight_sum(b),
    decreases b.len(),
{
    if b.len() > 0 {
        lemma_weight_concat(a, b.drop_last());
        assert((a + b).drop_last() =~= a + b.drop_last());
    } else {
        assert(a + b =~= a);
    }
}

/// The tally of the relation kinds of `docs`: each kind in order of first
/// appearance with its number of relations.
fn tally_kinds(docs: &Vec<CorpusDoc>) -> (r: Vec<(RelationType, usize)>)
    requires
        relation_total(docs@) <= usize::MAX,
    ensures
        kind_views(r@) == tally(all_kinds(docs@)),
{
    let mut r: Vec<(RelationType, usize)> = Vec::new();
    let mut i: usize = 0;
    proof {
        assert(kind_views(r@) =~= tally(all_kinds(docs@.take(0))));
    }
    while i < docs.len()
        invariant
            i <= docs@.len(),
            relation_total(docs@) <= usize::MAX,
            kind_views(r@) == tally(all_kinds(docs@.take(i as int))),
        decreases docs@.len() - i,
    {
        proof {
            assert(docs@.take(i + 1).drop_last() =~= docs@.take(i as int));
            assert(docs@.take(i + 1).last() == docs@[i as int]);
            lemma_relation_total_prefix(docs@, i + 1);
        }
        let rels = &docs[i].relations;
        let ghost base = all_kinds(docs@.take(i as int));
        let mut k: usize = 0;
        proof {
            assert(base + kinds_of(rels@.take(0)) =~= base);
        }
        while k < rels.len()
            invariant
                k <= rels@.len(),
                i < docs@.len(),
                rels@ == docs@[i as int].relations@,
                relation_total(docs@) <= usize::MAX,
                relation_total(docs@.take(i + 1)) <= relation_total(docs@),
                base == all_kinds(docs@.take(i as int)),
                all_kinds(docs@.take(i + 1)) == base + kinds_of(rels@),
                kind_views(r@) == tally(base + kinds_of(rels@.take(k as int))),
            decreases rels@.len() - k,
        {
            let ghost s = base + kinds_of(rels@.take(k as int));
            let ghost s2 = base + kinds_of(rels@.take(k + 1));
            proof {
                assert(s2.drop_last() =~= s);
                assert(s2.last() == (rels@[k as int].relation, 1nat));
                lemma_tally_bounded(s2);
                lemma_weight_concat(base, kinds_of(rels@.take(k + 1)));
                lemma_weight_concat(base, kinds_of(rels@));
                lemma_kinds_of_weight(rels@.take(k + 1));
                lemma_kinds_of_weight(rels@);
                lemma_kinds_weight(docs@.take(i + 1));
                lemma_tally_bounded(s);
                lemma_weight_concat(base, kinds_of(rels@.take(k as int)));
                lemma_kinds_of_weight(rels@.take(k as int));
                assert(weight_sum(s2) <= relation_total(docs@));
                assert forall|m: int| 0 <= m < r@.len() implies (#[trigger] r@[m]).1 + 1 <= weight_sum(s2) by {
                    assert(kind_views(r@)[m].1 == r@[m].1);
                }
            }
            tally_add_kind(&mut r, rels[k].relation, 1, Ghost(weight_sum(s2)));
            proof {
                let v = tally(s);
                let kk = rels@[k as int].relation;
                assert(tally(s2) == ({
                    let j = key_index(v, kk);
                    if j >= 0 {
                        v.update(j, (kk, v[j].1 + 1))
                    } else {
                        v.push((kk, 1nat))
                    }
                }));
            }
            k = k + 1;
        }
        proof {
            assert(rels@.take(k as int) =~= rels@);
        }
        i = i + 1;
    }
    proof {
        assert(docs@.take(i as int) =~= docs@);
    }
    r
}


/// A document has no more relations to itself than relations.
proof fn lemma_self_links_le(id: Seq<char>, rels: Seq<DocRelation>)
    ensures
        self_links(id, rels) <= rels.len(),
    decreases rels.len(),
{
    if rels.len() > 0 {
        lemma_self_links_le(id, rels.drop_last());
    }
}

/// The self relations weigh no more than all relations.
proof fn lemma_incoming_weight(docs: Seq<CorpusDoc>)
    ensures
        weight_sum(incoming_of(docs)) <= relation_total(docs),
    decreases docs.len(),
{
    if docs.len() > 0 {
        let p = docs.drop_last();
        lemma_incoming_weight(p);
        let d = docs.last();
        lemma_self_links_le(d.id@, d.relations@);
        if self_links(d.id@, d.relations@) > 0 {
            assert(incoming_of(docs).drop_last() =~= incoming_of(p));
        }
    }
}

/// The number of relations of `d` that point to `d` itself.
fn count_self_links(d: &CorpusDoc) -> (n: usize)
    ensures
        n == self_links(d.id@, d.relations@),
{
    let mut n: usize = 0;
    let mut k: usize = 0;
    while k < d.relations.len()
        invariant
            k <= d.relations@.len(),
            n == self_links(d.id@, d.relations@.take(k as int)),
            n <= k,
        decreases d.relations@.len() - k,
    {
        proof {
            assert(d.relations@.take(k + 1).drop_last() =~= d.relations@.take(k as int));
            assert(d.relations@.take(k + 1).last() == d.relations@[k as int]);
        }
        if same_text(d.relations[k].target_id.as_str(), d.id.as_str()) {
            n = n + 1;
        }
        k = k + 1;
    }
    proof {
        assert(d.relations@.take(k as int) =~= d.relations@);
    }
    n
}

/// The documents with relations to themselves, merged by id, with their
/// numbers of such relations.
fn tally_incoming(docs: &Vec<CorpusDoc>) -> (r: Vec<(String, usize)>)
    requires
        relation_total(docs@) <= usize::MAX,
    ensures
        counted_views(r@) == tally(incoming_of(docs@)),
{
    let mut r: Vec<(String, usize)> = Vec::new();
    let mut i: usize = 0;
    proof {
        assert(counted_views(r@) =~= tally(incoming_of(docs@.take(0))));
    }
    while i < docs.len()
        invariant
            i <= docs@.len(),
            relation_total(docs@) <= usize::MAX,
            counted_views(r@) == tally(incoming_of(docs@.take(i as int))),
        decreases docs@.len() - i,
    {
        let ghost pre = docs@.take(i as int);
        let ghost cur = docs@.take(i + 1);
        proof {
            assert(cur.drop_last() =~= pre);
            assert(cur.last() == docs@[i as int]);
            lemma_relation_total_prefix(docs@, i + 1);
            lemma_incoming_weight(cur);
        }
        let d = &docs[i];
        let n = count_self_links(d);
        if n > 0 {
            proof {
                let s2 = incoming_of(cur);
                assert(s2 == incoming_of(pre).push((d.id@, n as nat)));
                assert(s2.drop_last() =~= incoming_of(pre));
                lemma_tally_bounded(s2);
                lemma_tally_bounded(incoming_of(pre));
                assert(weight_sum(s2) == weight_sum(incoming_of(pre)) + n);
                assert forall|m: int| 0 <= m < r@.len() implies (#[trigger] r@[m]).1 + n <= weight_sum(s2) by {
                    assert(counted_views(r@)[m].1 == r@[m].1);
                }
            }
            tally_add_name(&mut r, d.id.as_str(), n, Ghost(weight_sum(incoming_of(cur))));
            proof {
                let s2 = incoming_of(cur);
                assert(s2.drop_last() =~= incoming_of(pre));
            }
        } else {
            proof {
                assert(incoming_of(cur) == incoming_of(pre));
            }
        }
        i = i + 1;
    }
    proof {
        assert(docs@.take(i as int) =~= docs@);
    }
    r
}

/// The plain values of pairs of strings.
pub open spec fn pair_views(v: Seq<(String, String)>) -> Seq<(Seq<char>, Seq<char>)> {
    Seq::new(v.len(), |i: int| (v[i].0@, v[i].1@))
}

/// Whether `v` holds the pair `(a, b)`.
fn has_pair(v: &Vec<(String, String)>, a: &str, b: &str) -> (r: bool)
    ensures
        r == pair_views(v@).contains((a@, b@)),
{
    let mut i: usize = 0;
    while i < v.len()
        invariant
            i <= v@.len(),
            forall|m: int| 0 <= m < i ==> (#[trigger] pair_views(v@)[m]) != (a@, b@),
        decreases v@.len() - i,
    {
        if same_text(v[i].0.as_str(), a) && same_text(v[i].1.as_str(), b) {
            proof {
                assert(pair_views(v@)[i as int] == (a@, b@));
            }
            return true;
        }
        i = i + 1;
    }
    false
}

/// The number of distinct unordered pairs of documents with a relation.
fn count_unique_pairs(docs: &Vec<CorpusDoc>) -> (n: usize)
    ensures
        n == distinct(all_pairs(docs@)).len(),
{
    let mut seen: Vec<(String, String)> = Vec::new();
    let mut i: usize = 0;
    proof {
        assert(pair_views(seen@) =~= distinct(all_pairs(docs@.take(0))));
    }
    while i < docs.len()
        invariant
            i <= docs@.len(),
            pair_views(seen@) == distinct(all_pairs(docs@.take(i as int))),
        decreases docs@.len() - i,
    {
        proof {
            assert(docs@.take(i + 1).drop_last() =~= docs@.take(i as int));
            assert(docs@.take(i + 1).last() == docs@[i as int]);
        }
        let rels = &docs[i].relations;
        let ghost base = all_pairs(docs@.take(i as int));
        let mut k: usize = 0;
        proof {
            assert(base + pairs_of(rels@.take(0)) =~= base);
        }
        while k < rels.len()
            invariant
                k <= rels@.len(),
                i < docs@.len(),
                rels@ == docs@[i as int].relations@,
                base == all_pairs(docs@.take(i as int)),
                pair_views(seen@) == distinct(base + pairs_of(rels@.take(k as int))),
            decreases rels@.len() - k,
        {
            let ghost s = base + pairs_of(rels@.take(k as int));
            let ghost s2 = base + pairs_of(rels@.take(k + 1));
            let rel = &rels[k];
            let lt = str_less(rel.source_id.as_str(), rel.target_id.as_str());
            let (a, b) = if lt {
                (rel.source_id.as_str(), rel.target_id.as_str())
            } else {
                (rel.target_id.as_str(), rel.source_id.as_str())
            };
            proof {
                assert(s2.drop_last() =~= s);
                assert(s2.last() == pair_of(rels@[k as int]));
                assert((a@, b@) == pair_of(rels@[k as int]));
            }
            if !has_pair(&seen, a, b) {
                let ghost before = pair_views(seen@);
                seen.push((owned(a), owned(b)));
                proof {
                    assert(pair_views(seen@) =~= before.push((a@, b@)));
                }
            }
            k = k + 1;
        }
        proof {
            assert(rels@.take(k as int) =~= rels@);
            assert(all_pairs(docs@.take(i + 1)) == base + pairs_of(rels@));
        }
        i = i + 1;
    }
    proof {
        assert(docs@.take(i as int) =~= docs@);
    }
    seen.len()
}

/// The bucket of a relation count.
fn bucket_index(c: usize) -> (k: usize)
    ensures
        k == bucket_of(c as nat),
        k < 6,
{
    if c <= 9 {
        0
    } else if c <= 19 {
        1
    } else if c <= 29 {
        2
    } else if c <= 49 {
        3
    } else if c <= 99 {
        4
    } else {
        5
    }
}

/// The label of bucket `k`.
fn bucket_name(k: usize) -> (r: &'static str)
    ensures
        r@ == bucket_label(k as int),
{
    if k == 0 {
        "0-9"
    } else if k == 1 {
        "10-19"
    } else if k == 2 {
        "20-29"
    } else if k == 3 {
        "30-49"
    } else if k == 4 {
        "50-99"
    } else {
        "100+"
    }
}

/// Bucket counts grow with the documents and stay below their number.
proof fn lemma_bucket_count_le(docs: Seq<CorpusDoc>, k: int)
    ensures
        bucket_count(docs, k) <= docs.len(),
    decreases docs.len(),
{
    if docs.len() > 0 {
        lemma_bucket_count_le(docs.drop_last(), k);
    }
}

/// The histogram of relation counts: the buckets that hold documents, in
/// bucket order, with their numbers of documents.
fn histogram(docs: &Vec<CorpusDoc>) -> (r: Vec<(String, usize)>)
    ensures
        counted_views(r@) == histogram_upto(docs@, 6),
{
    let mut counts: Vec<usize> = vec![0, 0, 0, 0, 0, 0];
    let mut i: usize = 0;
    while i < docs.len()
        invariant
            i <= docs@.len(),
            counts@.len() == 6,
            forall|k: int| 0 <= k < 6 ==> #[trigger] counts@[k] == bucket_count(docs@.take(i as int), k),
        decreases docs@.len() - i,
    {
        proof {
            assert(docs@.take(i + 1).drop_last() =~= docs@.take(i as int));
            assert(docs@.take(i + 1).last() == docs@[i as int]);
            lemma_bucket_count_le(docs@.take(i as int), bucket_of(docs@[i as int].relations@.len()) as int);
        }
        let b = bucket_index(docs[i].relations.len());
        let c = counts[b] + 1;
        counts.set(b, c);
        i = i + 1;
    }
    proof {
        assert(docs@.take(i as int) =~= docs@);
    }
    let mut r: Vec<(String, usize)> = Vec::new();
    let mut k: usize = 0;
    while k < 6
        invariant
            k <= 6,
            counts@.len() == 6,
            forall|m: int| 0 <= m < 6 ==> #[trigger] counts@[m] == bucket_count(docs@, m),
            counted_views(r@) == histogram_upto(docs@, k as int),
        decreases 6 - k,
    {
        if counts[k] > 0 {
            let ghost before = counted_views(r@);
            r.push((owned(bucket_name(k)), counts[k]));
            proof {
                assert(counted_views(r@) =~= before.push((bucket_label(k as int), bucket_count(docs@, k as int))));
            }
        }
        k = k + 1;
    }
    r
}

/// `insert_desc` puts `x` after the last element of at least its count.
proof fn lemma_insert_desc_at(s: Seq<(Seq<char>, nat)>, x: (Seq<char>, nat), j: int)
    requires
        0 <= j <= s.len(),
        j == 0 || s[j - 1].1 >= x.1,
        forall|m: int| j <= m < s.len() ==> (#[trigger] s[m]).1 < x.1,
    ensures
        insert_desc(s, x) == s.take(j) + seq![x] + s.skip(j),
    decreases s.len(),
{
    if s.len() == 0 {
        assert(s.take(j) + seq![x] + s.skip(j) =~= s.push(x));
    } else if s.last().1 >= x.1 {
        assert(j == s.len()) by {
            if j < s.len() {
                assert(s[s.len() - 1].1 < x.1);
            }
        }
        assert(s.take(j) + seq![x] + s.skip(j) =~= s.push(x));
    } else {
        let pre = s.drop_last();
        lemma_insert_desc_at(pre, x, j);
        assert(pre.take(j) + seq![x] + pre.skip(j) + seq![s.last()] =~= s.take(j) + seq![x]
            + s.skip(j));
    }
}

/// `v` sorted by count, largest first, equal counts in their order.
pub(crate) fn sort_counted_desc(v: &Vec<(String, usize)>) -> (r: Vec<(String, usize)>)
    ensures
        counted_views(r@) == sort_desc(counted_views(v@)),
{
    let mut out: Vec<(String, usize)> = Vec::new();
    let mut i: usize = 0;
    proof {
        assert(counted_views(out@) =~= sort_desc(counted_views(v@).take(0)));
    }
    while i < v.len()
        invariant
            i <= v@.len(),
            counted_views(out@) == sort_desc(counted_views(v@).take(i as int)),
        decreases v@.len() - i,
    {
        let ghost cv = counted_views(v@);
        proof {
            assert(cv.take(i + 1).drop_last() =~= cv.take(i as int));
            assert(cv.take(i + 1).last() == cv[i as int]);
        }
        let x = (v[i].0.clone(), v[i].1);
        let ghost s = counted_views(out@);
        let ghost xv = (x.0@, x.1 as nat);
        let mut j = out.len();
        while j > 0 && out[j - 1].1 < x.1
            invariant
                j <= out@.len(),
                s == counted_views(out@),
                xv == (x.0@, x.1 as nat),
                forall|m: int| j <= m < s.len() ==> (#[trigger] s[m]).1 < xv.1,
            decreases j,
        {
            proof {
                assert(s[j - 1].1 == out@[j - 1].1);
            }
            j = j - 1;
        }
        proof {
            if j > 0 {
                assert(s[j - 1].1 == out@[j - 1].1);
            }
        }
        proof {
            lemma_insert_desc_at(s, xv, j as int);
        }
        out.insert(j, x);
        proof {
            assert(counted_views(out@) =~= s.take(j as int) + seq![xv] + s.skip(j as int));
        }
        i = i + 1;
    }
    proof {
        assert(counted_views(v@).take(i as int) =~= counted_views(v@));
    }
    out
}

/// The first ten entries as hub documents.
fn top10_hubs(v: &Vec<(String, usize)>) -> (r: Vec<HubDoc>)
    ensures
        hub_views(r@) == top10(counted_views(v@)),
{
    let n: usize = if v.len() <= 10 { v.len() } else { 10 };
    let mut r: Vec<HubDoc> = Vec::new();
    let mut i: usize = 0;
    while i < n
        invariant
            i <= n <= v@.len(),
            n == (if v@.len() <= 10 { v@.len() } else { 10 }),
            r@.len() == i,
            hub_views(r@) == counted_views(v@).take(i as int),
        decreases n - i,
    {
        let ghost before = hub_views(r@);
        let ghost rb = r@;
        r.push(HubDoc { doc_id: v[i].0.clone(), relation_count: v[i].1 });
        proof {
            assert(counted_views(v@)[i as int] == (v@[i as int].0@, v@[i as int].1 as nat));
            assert(hub_views(r@)[i as int] == (v@[i as int].0@, v@[i as int].1 as nat));
            assert forall|m: int| 0 <= m < i implies hub_views(r@)[m] == before[m] by {
                assert(r@[m] == rb[m]);
            }
            assert(hub_views(r@) =~= counted_views(v@).take(i + 1));
        }
        i = i + 1;
    }
    proof {
        if v@.len() <= 10 {
            assert(counted_views(v@).take(n as int) =~= counted_views(v@));
        }
    }
    r
}

/// The tally of the corpus `docs` (each document with its relations): the
/// numbers of documents, of relations, of distinct document pairs with a
/// relation and of documents without relations; the histogram of relation
/// counts; the count of each relation kind; the ten documents with the most
/// relations; and the ten with the most relations to themselves.
pub fn analyze_corpus(docs: &Vec<CorpusDoc>) -> (r: CorpusTally)
    requires
        relation_total(docs@) <= usize::MAX,
    ensures
        r.doc_count == docs@.len(),
        r.total_relations == relation_total(docs@),
        r.unique_pairs == distinct(all_pairs(docs@)).len(),
        r.isolated_docs == isolated_total(docs@),
        counted_views(r.histogram@) == histogram_upto(docs@, 6),
        kind_views(r.by_type@) == tally(all_kinds(docs@)),
        hub_views(r.hub_docs_top10@) == top10(sort_desc(per_doc(docs@))),
        hub_views(r.incoming_top10@) == top10(sort_desc(tally(incoming_of(docs@)))),
{
    let mut total: usize = 0;
    let mut isolated: usize = 0;
    let mut per: Vec<(String, usize)> = Vec::new();
    let mut i: usize = 0;
    while i < docs.len()
        invariant
            i <= docs@.len(),
            relation_total(docs@) <= usize::MAX,
            total == relation_total(docs@.take(i as int)),
            isolated == isolated_total(docs@.take(i as int)),
            isolated <= i,
            per@.len() == i,
            counted_views(per@) == per_doc(docs@.take(i as int)),
        decreases docs@.len() - i,
    {
        proof {
            assert(docs@.take(i + 1).drop_last() =~= docs@.take(i as int));
            assert(docs@.take(i + 1).last() == docs@[i as int]);
            lemma_relation_total_prefix(docs@, i + 1);
        }
        let n = docs[i].relations.len();
        total = total + n;
        if n == 0 {
            isolated = isolated + 1;
        }
        let ghost before = counted_views(per@);
        per.push((docs[i].id.clone(), n));
        proof {
            let pd = per_doc(docs@.take(i + 1));
            assert(pd[i as int] == (docs@[i as int].id@, docs@[i as int].relations@.len()));
            assert(counted_views(per@)[i as int] == (docs@[i as int].id@, n as nat));
            assert forall|m: int| 0 <= m < i implies counted_views(per@)[m] == pd[m] by {
                assert(counted_views(per@)[m] == before[m]);
                assert(per_doc(docs@.take(i as int))[m] == pd[m]);
            }
            assert(counted_views(per@) =~= pd);
        }
        i = i + 1;
    }
    proof {
        assert(docs@.take(i as int) =~= docs@);
    }
    let hubs = sort_counted_desc(&per);
    let incoming = tally_incoming(docs);
    let incoming_sorted = sort_counted_desc(&incoming);
    CorpusTally {
        doc_count: docs.len(),
        total_relations: total,
        unique_pairs: count_unique_pairs(docs),
        isolated_docs: isolated,
        histogram: histogram(docs),
        by_type: tally_kinds(docs),
        hub_docs_top10: top10_hubs(&hubs),
        incoming_top10: top10_hubs(&incoming_sorted),
    }
}


/// The counts are in decreasing order.
pub open spec fn sorted_desc(s: Seq<(Seq<char>, nat)>) -> bool {
    forall|i: int, j: int| 0 <= i < j < s.len() ==> (#[trigger] s[i]).1 >= (#[trigger] s[j]).1
}

proof fn lemma_insert_desc(s: Seq<(Seq<char>, nat)>, x: (Seq<char>, nat))
    requires
        sorted_desc(s),
    ensures
        sorted_desc(insert_desc(s, x)),
        insert_desc(s, x).to_multiset() == s.to_multiset().insert(x),
    decreases s.len(),
{
    broadcast use vstd::seq_lib::group_to_multiset_ensures;

    if s.len() == 0 || s.last().1 >= x.1 {
        let r = s.push(x);
        assert forall|i: int, j: int| 0 <= i < j < r.len() implies (#[trigger] r[i]).1 >= (
        #[trigger] r[j]).1 by {
            if j == r.len() - 1 && i < s.len() {
                assert(s[i].1 >= s[s.len() - 1].1);
            }
        }
    } else {
        let pre = s.drop_last();
        assert(sorted_desc(pre)) by {
            assert forall|i: int, j: int| 0 <= i < j < pre.len() implies (#[trigger] pre[i]).1 >= (
            #[trigger] pre[j]).1 by {
                assert(s[i] == pre[i] && s[j] == pre[j]);
            }
        }
        lemma_insert_desc(pre, x);
        let m = insert_desc(pre, x);
        let r = m.push(s.last());
        assert forall|i: int, j: int| 0 <= i < j < r.len() implies (#[trigger] r[i]).1 >= (
        #[trigger] r[j]).1 by {
            if j == r.len() - 1 {
                assert(m.to_multiset().contains(m[i]));
                assert(m.to_multiset().count(m[i]) > 0);
                if m[i] == x {
                } else {
                    assert(pre.to_multiset().contains(m[i]));
                    let k = choose|k: int| 0 <= k < pre.len() && pre[k] == m[i];
                    assert(s[k] == pre[k]);
                    assert(s[k].1 >= s[s.len() - 1].1);
                }
            }
        }
        assert(s =~= pre.push(s.last()));
    }
}

/// Sorting by count gives decreasing counts and keeps every entry.
pub proof fn lemma_sort_desc(s: Seq<(Seq<char>, nat)>)
    ensures
        sorted_desc(sort_desc(s)),
        sort_desc(s).to_multiset() == s.to_multiset(),
    decreases s.len(),
{
    broadcast use vstd::seq_lib::group_to_multiset_ensures;

    if s.len() > 0 {
        lemma_sort_desc(s.drop_last());
        lemma_insert_desc(sort_desc(s.drop_last()), s.last());
        assert(s =~= s.drop_last().push(s.last()));
    } else {
        assert(sorted_desc(s));
    }
}

/// The sum of the counts of buckets below `k`.
pub open spec fn bucket_sum(docs: Seq<CorpusDoc>, k: int) -> nat
    decreases k,
{
    if k <= 0 {
        0
    } else {
        bucket_sum(docs, k - 1) + bucket_count(docs, k - 1)
    }
}

/// The counts of all buckets of a histogram.
pub open spec fn histogram_sum(h: Seq<(Seq<char>, nat)>) -> nat
    decreases h.len(),
{
    if h.len() == 0 {
        0
    } else {
        histogram_sum(h.drop_last()) + h.last().1
    }
}

proof fn lemma_bucket_sum_step(docs: Seq<CorpusDoc>, k: int)
    requires
        0 <= k <= 6,
        docs.len() > 0,
    ensures
        bucket_sum(docs, k) == bucket_sum(docs.drop_last(), k) + if bucket_of(
            docs.last().relations@.len(),
        ) < k {
            1nat
        } else {
            0nat
        },
    decreases k,
{
    if k > 0 {
        lemma_bucket_sum_step(docs, k - 1);
    }
}

proof fn lemma_bucket_sum_all(docs: Seq<CorpusDoc>)
    ensures
        bucket_sum(docs, 6) == docs.len(),
    decreases docs.len(),
{
    if docs.len() > 0 {
        lemma_bucket_sum_all(docs.drop_last());
        lemma_bucket_sum_step(docs, 6);
        assert(bucket_of(docs.last().relations@.len()) < 6);
    } else {
        lemma_bucket_sum_empty(docs, 6);
    }
}

proof fn lemma_bucket_sum_empty(docs: Seq<CorpusDoc>, k: int)
    requires
        docs.len() == 0,
    ensures
        bucket_sum(docs, k) == 0,
    decreases k,
{
    if k > 0 {
        lemma_bucket_sum_empty(docs, k - 1);
    }
}

proof fn lemma_histogram_sum(docs: Seq<CorpusDoc>, k: int)
    requires
        0 <= k <= 6,
    ensures
        histogram_sum(histogram_upto(docs, k)) == bucket_sum(docs, k),
    decreases k,
{
    if k > 0 {
        lemma_histogram_sum(docs, k - 1);
        let r = histogram_upto(docs, k - 1);
        if bucket_count(docs, k - 1) > 0 {
            assert(histogram_upto(docs, k).drop_last() =~= r);
        }
    }
}

/// Every document falls in exactly one bucket: the histogram counts add up
/// to the number of documents.
pub proof fn lemma_histogram_counts_every_document(docs: Seq<CorpusDoc>)
    ensures
        histogram_sum(histogram_upto(docs, 6)) == docs.len(),
{
    lemma_histogram_sum(docs, 6);
    lemma_bucket_sum_all(docs);
}

/// How serious a finding is.
#[derive(Debug, Clone, Copy, PartialEq, Eq, Structural)]
pub enum HealthLevel {
    Healthy,
    Warning,
    Error,
}

/// The mark shown for a level.
pub open spec fn level_symbol(l: HealthLevel) -> Seq<char> {
    match l {
        HealthLevel::Healthy => "✅"@,
        HealthLevel::Warning => "⚠️"@,
        HealthLevel::Error => "❌"@,
    }
}

impl HealthLevel {
    /// The mark shown for the level.
    pub fn symbol(&self) -> (r: &'static str)
        ensures
            r@ == level_symbol(*self),
    {
        match self {
            HealthLevel::Healthy => "✅",
            HealthLevel::Warning => "⚠️",
            HealthLevel::Error => "❌",
        }
    }
}

/// One finding of a health check: its level, what was found, what to do.
#[derive(Debug, Clone)]
pub struct HealthIssue {
    pub level: HealthLevel,
    pub message: String,
    pub action: String,
}

} // verus!
