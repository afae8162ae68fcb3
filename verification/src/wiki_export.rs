//! Export of processed documents as a wiki: splitting a processed file into
//! its metadata and its text, the summary line of the metadata, the name,
//! directory and text of each page, and the index page; and the figures of
//! the knowledge graph (its hub, its isolated documents, the paths between
//! two documents).

use vstd::prelude::*;
use crate::text::{
    chars_of, contains, dec_of, ends_with, ends_with_at, find_from, format_dec, join_sep, lines,
    line_ranges, occurs_at, owned, push_char, push_str, same_text, starts_with, starts_with_at,
    strictly_sorted, string_from, strs, sort_dedup, trim, trim_range,
};
use crate::paths::{file_stem_of, path_file_stem};
use crate::cross_reference::{relation_name, RelationType};

verus! {

/// The marker between the metadata and the text of a processed file.
pub open spec fn content_marker() -> Seq<char> {
    "=== CONTENT ==="@
}

/// The first index at which `p` occurs in `s`.
pub open spec fn first_index(s: Seq<char>, p: Seq<char>) -> Option<int> {
    if contains(s, p) {
        Some(choose|i: int| occurs_at(s, p, i) && forall|j: int| 0 <= j < i ==> !occurs_at(s, p, j))
    } else {
        None
    }
}

proof fn lemma_first_index(s: Seq<char>, p: Seq<char>, i: int)
    requires
        occurs_at(s, p, i),
        forall|j: int| 0 <= j < i ==> !occurs_at(s, p, j),
    ensures
        first_index(s, p) == Some(i),
{
    assert(contains(s, p));
    let c = choose|k: int| occurs_at(s, p, k) && forall|j: int| 0 <= j < k ==> !occurs_at(s, p, j);
    assert(occurs_at(s, p, c) && forall|j: int| 0 <= j < c ==> !occurs_at(s, p, j));
    if c < i {
        assert(!occurs_at(s, p, c));
    } else if c > i {
        assert(!occurs_at(s, p, i));
    }
}

/// What goes to the wiki of one processed file: (metadata, text). Without a
/// marker, the metadata is empty and the text is everything.
pub open spec fn meta_split(content: Seq<char>) -> (Seq<char>, Seq<char>) {
    match first_index(content, content_marker()) {
        Some(i) => (content.take(i), content.skip(i + content_marker().len())),
        None => (seq![], content),
    }
}

/// Splits a processed file at its first `=== CONTENT ===` marker into its
/// metadata and its text.
pub fn split_meta_content(content: &str) -> (r: (String, String))
    ensures
        (r.0@, r.1@) == meta_split(content@),
{
    let c = chars_of(content);
    let marker = chars_of("=== CONTENT ===");
    match find_from(c.as_slice(), marker.as_slice(), 0) {
        Some(i) => {
            proof {
                lemma_first_index(c@, marker@, i as int);
                assert(occurs_at(c@, marker@, i as int));
                assert(i + marker@.len() <= c@.len());
                assert(marker@.len() == marker.len());
            }
            let mlen = marker.len();
            let clen = c.len();
            proof {
                assert(i + mlen <= clen);
            }
            let start: usize = i + mlen;
            let meta = string_from(c.as_slice(), 0, i);
            let body = string_from(c.as_slice(), start, clen);
            proof {
                assert(c@.subrange(0, i as int) =~= c@.take(i as int));
                assert(c@.subrange(i + marker@.len(), c@.len() as int) =~= c@.skip(
                    i + marker@.len(),
                ));
            }
            (meta, body)
        },
        None => {
            proof {
                assert(!contains(c@, marker@));
            }
            (String::new(), owned(content))
        },
    }
}

/// The text after the first `':'` of a line, trimmed (empty without one).
pub open spec fn after_colon(t: Seq<char>) -> Seq<char> {
    if t.contains(':') {
        let k = choose|k: int| 0 <= k < t.len() && t[k] == ':' && forall|j: int| 0 <= j < k ==> t[j] != ':';
        trim(t.skip(k + 1))
    } else {
        seq![]
    }
}

/// The summary of the first line (trimmed) that begins with `summary`.
pub open spec fn summary_in(ls: Seq<Seq<char>>) -> Seq<char>
    decreases ls.len(),
{
    if ls.len() == 0 {
        seq![]
    } else if starts_with(trim(ls[0]), "summary"@) {
        after_colon(trim(ls[0]))
    } else {
        summary_in(ls.drop_first())
    }
}

/// The summary of the line `c[a..b]`, when, trimmed, it begins with `summary`.
fn line_summary(c: &Vec<char>, a: usize, b: usize) -> (r: Option<String>)
    requires
        a <= b <= c@.len(),
    ensures
        match r {
            Some(s) => starts_with(trim(c@.subrange(a as int, b as int)), "summary"@) && s@
                == after_colon(trim(c@.subrange(a as int, b as int))),
            None => !starts_with(trim(c@.subrange(a as int, b as int)), "summary"@),
        },
{
    let key = chars_of("summary");
    let (ta, tb) = trim_range(c.as_slice(), a, b);
    if !starts_with_at(c.as_slice(), ta, tb, key.as_slice()) {
        return None;
    }
    let ghost t = c@.subrange(ta as int, tb as int);
    let mut j = ta;
    while j < tb && c[j] != ':'
        invariant
            ta <= j <= tb <= c@.len(),
            forall|m: int| ta <= m < j ==> c@[m] != ':',
        decreases tb - j,
    {
        j = j + 1;
    }
    if j < tb {
        let (sa, sb) = trim_range(c.as_slice(), j + 1, tb);
        let r = string_from(c.as_slice(), sa, sb);
        proof {
            assert(t[j - ta] == ':');
            assert(t.contains(':'));
            let q = choose|q: int|
                0 <= q < t.len() && t[q] == ':' && forall|m: int| 0 <= m < q ==> t[m] != ':';
            if q < j - ta {
                assert(t[q] == c@[ta + q]);
            } else if q > j - ta {
                assert(t[j - ta] != ':');
            }
            assert(t.skip(j - ta + 1) =~= c@.subrange(j + 1, tb as int));
        }
        Some(r)
    } else {
        proof {
            assert forall|m: int| 0 <= m < t.len() implies t[m] != ':' by {
                assert(t[m] == c@[ta + m]);
            }
            assert(!t.contains(':'));
        }
        Some(String::new())
    }
}

/// The summary given in metadata: after the `':'` of the first line that,
/// trimmed, begins with `summary`; empty when there is none.
pub fn extract_summary(meta: &str) -> (r: String)
    ensures
        r@ == summary_in(lines(meta@)),
{
    let c = chars_of(meta);
    let ranges = line_ranges(c.as_slice());
    let ghost ls = lines(c@);
    proof {
        assert(ls.skip(0) =~= ls);
    }
    let mut k: usize = 0;
    while k < ranges.len()
        invariant
            k <= ranges@.len(),
            ranges@.len() == ls.len(),
            ls == lines(c@),
            c@ == meta@,
            forall|i: int|
                0 <= i < ranges@.len() ==> {
                    &&& (#[trigger] ranges@[i]).0 <= ranges@[i].1 <= c@.len()
                    &&& c@.subrange(ranges@[i].0 as int, ranges@[i].1 as int) == ls[i]
                },
            summary_in(ls) == summary_in(ls.skip(k as int)),
        decreases ranges@.len() - k,
    {
        let (a, b) = ranges[k];
        proof {
            assert(ls.skip(k as int)[0] == ls[k as int]);
            assert(ls.skip(k as int).drop_first() =~= ls.skip(k + 1));
        }
        match line_summary(&c, a, b) {
            Some(s) => {
                return s;
            },
            None => {},
        }
        k = k + 1;
    }
    proof {
        assert(ls.skip(k as int) =~= Seq::<Seq<char>>::empty());
    }
    String::new()
}

// ---------------------------------------------------------------------------
// The index page
// ---------------------------------------------------------------------------

/// One line of the index: a document's title, path, types and summary.
#[derive(Debug, Clone)]
pub struct IndexEntry {
    pub title: String,
    pub path: String,
    pub doc_types: Vec<String>,
    pub summary: String,
}

/// The type under which a document is listed: its first type, or `etc`.
pub open spec fn primary_type(e: IndexEntry) -> Seq<char> {
    if e.doc_types@.len() > 0 {
        e.doc_types@[0]@
    } else {
        "etc"@
    }
}

/// The primary types of the entries.
pub open spec fn primaries(es: Seq<IndexEntry>) -> Seq<Seq<char>> {
    Seq::new(es.len(), |i: int| primary_type(es[i]))
}

/// The number of entries listed under `t`.
pub open spec fn count_of_type(es: Seq<IndexEntry>, t: Seq<char>) -> nat
    decreases es.len(),
{
    if es.len() == 0 {
        0
    } else {
        count_of_type(es.drop_last(), t) + if primary_type(es.last()) == t {
            1nat
        } else {
            0nat
        }
    }
}

/// The lines of the entries listed under `t`, in order.
pub open spec fn entry_lines(es: Seq<IndexEntry>, t: Seq<char>) -> Seq<char>
    decreases es.len(),
{
    if es.len() == 0 {
        seq![]
    } else {
        let e = es.last();
        entry_lines(es.drop_last(), t) + if primary_type(e) == t {
            "- ["@ + e.title@ + "]("@ + e.path@ + ") — "@ + e.summary@ + "\n"@
        } else {
            seq![]
        }
    }
}

/// The section of the type `t`.
pub open spec fn type_section(es: Seq<IndexEntry>, t: Seq<char>) -> Seq<char> {
    "## "@ + t + " ("@ + dec_of(count_of_type(es, t)) + " 문서)\n\n"@ + entry_lines(es, t) + "\n"@
}

/// The sections of the types `ts`, in order.
pub open spec fn type_sections(es: Seq<IndexEntry>, ts: Seq<Seq<char>>) -> Seq<char>
    decreases ts.len(),
{
    if ts.len() == 0 {
        seq![]
    } else {
        type_sections(es, ts.drop_last()) + type_section(es, ts.last())
    }
}

/// The index page: a title, the number of documents, then one section per
/// type in the order `ts`.
pub open spec fn index_text(es: Seq<IndexEntry>, ts: Seq<Seq<char>>) -> Seq<char> {
    "# 문서 인덱스\n\n"@ + "총 "@ + dec_of(es.len()) + " 문서\n\n"@ + type_sections(es, ts)
}

/// The lines of the entries of the type `t`.
fn write_entry_lines(index: &mut String, entries: &[IndexEntry], t: &String)
    ensures
        final(index)@ == old(index)@ + entry_lines(entries@, t@),
{
    let ghost start = index@;
    let mut i: usize = 0;
    while i < entries.len()
        invariant
            i <= entries@.len(),
            start == old(index)@,
            index@ == start + entry_lines(entries@.take(i as int), t@),
        decreases entries@.len() - i,
    {
        proof {
            assert(entries@.take(i + 1).drop_last() =~= entries@.take(i as int));
            assert(entries@.take(i + 1).last() == entries@[i as int]);
        }
        let e = &entries[i];
        let p: &str = if e.doc_types.len() > 0 {
            e.doc_types[0].as_str()
        } else {
            "etc"
        };
        if crate::text::same_text(p, t.as_str()) {
            let ghost before = index@;
            push_str(index, "- [");
            push_str(index, e.title.as_str());
            push_str(index, "](");
            push_str(index, e.path.as_str());
            push_str(index, ") — ");
            push_str(index, e.summary.as_str());
            push_str(index, "\n");
            proof {
                assert(index@ =~= before + ("- ["@ + e.title@ + "]("@ + e.path@ + ") — "@
                    + e.summary@ + "\n"@));
            }
        }
        proof {
            assert(index@ =~= start + entry_lines(entries@.take(i + 1), t@));
        }
        i = i + 1;
    }
    proof {
        assert(entries@.take(entries@.len() as int) =~= entries@);
    }
}

/// The number of entries of the type `t`.
fn count_type(entries: &[IndexEntry], t: &String) -> (n: usize)
    ensures
        n == count_of_type(entries@, t@),
{
    let mut n: usize = 0;
    let mut i: usize = 0;
    while i < entries.len()
        invariant
            i <= entries@.len(),
            n == count_of_type(entries@.take(i as int), t@),
            n <= i,
        decreases entries@.len() - i,
    {
        proof {
            assert(entries@.take(i + 1).drop_last() =~= entries@.take(i as int));
            assert(entries@.take(i + 1).last() == entries@[i as int]);
        }
        let e = &entries[i];
        let p: &str = if e.doc_types.len() > 0 {
            e.doc_types[0].as_str()
        } else {
            "etc"
        };
        if crate::text::same_text(p, t.as_str()) {
            n = n + 1;
        }
        i = i + 1;
    }
    proof {
        assert(entries@.take(entries@.len() as int) =~= entries@);
    }
    n
}

/// The index page of the exported documents, grouped by primary type, the
/// types in sorted order.
pub fn generate_index(entries: &[IndexEntry]) -> (r: String)
    ensures
        exists|ts: Seq<Seq<char>>|
            strictly_sorted(ts) && ts.to_set() == primaries(entries@).to_set() && r@
                == #[trigger] index_text(entries@, ts),
{
    let mut prims: Vec<String> = Vec::new();
    let mut i: usize = 0;
    while i < entries.len()
        invariant
            i <= entries@.len(),
            strs(prims@) == primaries(entries@).take(i as int),
        decreases entries@.len() - i,
    {
        let p: String = if entries[i].doc_types.len() > 0 {
            entries[i].doc_types[0].clone()
        } else {
            owned("etc")
        };
        proof {
            assert(p@ == primary_type(entries@[i as int]));
        }
        let ghost before = prims@;
        prims.push(p);
        proof {
            assert(strs(prims@) =~= strs(before).push(p@));
            assert(primaries(entries@).take(i + 1) =~= primaries(entries@).take(i as int).push(
                primary_type(entries@[i as int]),
            ));
            assert(strs(prims@) =~= primaries(entries@).take(i + 1));
        }
        i = i + 1;
    }
    proof {
        assert(primaries(entries@).take(entries@.len() as int) =~= primaries(entries@));
    }
    let types = sort_dedup(&prims);
    let mut index = owned("# 문서 인덱스\n\n");
    push_str(&mut index, "총 ");
    let n = format_dec(entries.len() as u64);
    push_str(&mut index, n.as_str());
    push_str(&mut index, " 문서\n\n");
    let ghost head = index@;
    let ghost ts = strs(types@);
    proof {
        assert(head =~= "# 문서 인덱스\n\n"@ + "총 "@ + dec_of(entries@.len()) + " 문서\n\n"@);
        assert(type_sections(entries@, ts.take(0)) =~= Seq::<char>::empty());
        assert(index@ =~= head + type_sections(entries@, ts.take(0)));
    }
    let mut k: usize = 0;
    while k < types.len()
        invariant
            k <= types@.len(),
            ts == strs(types@),
            index@ == head + type_sections(entries@, ts.take(k as int)),
        decreases types@.len() - k,
    {
        proof {
            assert(ts.take(k + 1).drop_last() =~= ts.take(k as int));
            assert(ts.take(k + 1).last() == types@[k as int]@);
        }
        let ghost before = index@;
        let t = &types[k];
        push_str(&mut index, "## ");
        push_str(&mut index, t.as_str());
        push_str(&mut index, " (");
        let c = count_type(entries, t);
        let cs = format_dec(c as u64);
        push_str(&mut index, cs.as_str());
        push_str(&mut index, " 문서)\n\n");
        write_entry_lines(&mut index, entries, t);
        push_str(&mut index, "\n");
        proof {
            assert(index@ =~= before + type_section(entries@, t@));
        }
        k = k + 1;
    }
    proof {
        assert(ts.take(types@.len() as int) =~= ts);
        assert(index@ == index_text(entries@, ts));
    }
    index
}

/// Counts of an export: documents found, documents exported, and the errors.
#[derive(Debug, Clone)]
pub struct ExportReport {
    pub total: u64,
    pub exported: u64,
    pub errors: Vec<String>,
}

impl Default for ExportReport {
    fn default() -> (r: Self)
        ensures
            r.total == 0,
            r.exported == 0,
            r.errors@.len() == 0,
    {
        ExportReport { total: 0, exported: 0, errors: Vec::new() }
    }
}

/// The exporter of processed documents to a wiki directory.
pub struct WikiExporter;

/// The name of a document's page: the file stem of its path (its id when the
/// path has none), without a trailing `.txt`.
pub open spec fn page_name_spec(path: Seq<char>, id: Seq<char>) -> Seq<char> {
    let stem = match file_stem_of(path) {
        Some(st) => st,
        None => id,
    };
    if ends_with(stem, ".txt"@) {
        stem.take(stem.len() - 4)
    } else {
        stem
    }
}

/// The directory of a document's page: its first document type, `etc` when
/// it has none.
pub open spec fn type_dir_spec(doc_types: Seq<Seq<char>>) -> Seq<char> {
    if doc_types.len() > 0 {
        doc_types[0]
    } else {
        "etc"@
    }
}

/// One backlink line: `- [[target]] (relation)`.
pub open spec fn backlink_line(target: Seq<char>, rel: RelationType) -> Seq<char> {
    "- [["@ + target + "]] ("@ + relation_name(rel) + ")"@
}

/// The backlink lines of `links`.
pub open spec fn backlink_lines(links: Seq<(Seq<char>, RelationType)>) -> Seq<Seq<char>> {
    Seq::new(links.len(), |i: int| backlink_line(links[i].0, links[i].1))
}

/// The section of related documents: empty without relations, else a
/// `관련 문서` heading followed by one backlink line per relation.
pub open spec fn backlinks_spec(links: Seq<(Seq<char>, RelationType)>) -> Seq<char> {
    if links.len() == 0 {
        seq![]
    } else {
        "\n\n## 관련 문서\n\n"@ + join_sep(backlink_lines(links), seq!['\n']) + seq!['\n']
    }
}

/// A page: the trimmed metadata between `---` lines, a blank line, the
/// trimmed text, the related documents, and a final line break.
pub open spec fn page_spec(meta: Seq<char>, body: Seq<char>, backlinks: Seq<char>) -> Seq<char> {
    "---\n"@ + trim(meta) + "\n---\n\n"@ + trim(body) + backlinks + seq!['\n']
}

/// The pairs (target, relation) as plain values.
pub open spec fn link_views(v: Seq<(String, RelationType)>) -> Seq<(Seq<char>, RelationType)> {
    Seq::new(v.len(), |i: int| (v[i].0@, v[i].1))
}

/// The trimmed text of `s`.
fn trimmed(s: &str) -> (r: String)
    ensures
        r@ == trim(s@),
{
    let c = chars_of(s);
    let (a, b) = trim_range(c.as_slice(), 0, c.len());
    proof {
        assert(c@.subrange(0, c@.len() as int) =~= c@);
    }
    string_from(c.as_slice(), a, b)
}

impl WikiExporter {
    /// The name of the page of the document with path `path` and id `id`.
    pub fn page_name(path: &str, id: &str) -> (r: String)
        ensures
            r@ == page_name_spec(path@, id@),
    {
        let stem = match path_file_stem(path) {
            Some(st) => st,
            None => owned(id),
        };
        let c = chars_of(stem.as_str());
        let suffix = chars_of(".txt");
        proof {
            reveal_strlit(".txt");
            assert(c@.subrange(0, c@.len() as int) =~= c@);
        }
        if ends_with_at(c.as_slice(), 0, c.len(), suffix.as_slice()) {
            let r = string_from(c.as_slice(), 0, c.len() - 4);
            proof {
                assert(c@.subrange(0, c@.len() - 4) =~= c@.take(c@.len() - 4));
            }
            r
        } else {
            stem
        }
    }

    /// The directory of the page of a document with these types.
    pub fn type_dir(doc_types: &Vec<String>) -> (r: String)
        ensures
            r@ == type_dir_spec(strs(doc_types@)),
    {
        if doc_types.len() > 0 {
            doc_types[0].clone()
        } else {
            proof {
                reveal_strlit("etc");
            }
            owned("etc")
        }
    }

    /// The section of related documents for the relations `links`
    /// (target id, relation kind).
    pub fn backlinks(links: &Vec<(String, RelationType)>) -> (r: String)
        ensures
            r@ == backlinks_spec(link_views(links@)),
    {
        if links.len() == 0 {
            return String::new();
        }
        let mut r = owned("\n\n## 관련 문서\n\n");
        let ghost base = r@;
        let ghost lines_all = backlink_lines(link_views(links@));
        let mut k: usize = 0;
        while k < links.len()
            invariant
                k <= links@.len(),
                lines_all == backlink_lines(link_views(links@)),
                r@ == base + join_sep(lines_all.take(k as int), seq!['\n']),
            decreases links@.len() - k,
        {
            proof {
                assert(lines_all.take(k + 1) =~= lines_all.take(k as int).push(lines_all[k as int]));
                crate::text::lemma_join_sep_push(lines_all.take(k as int), seq!['\n'], lines_all[k as int]);
                if k == 0 {
                    assert(lines_all.take(0) =~= Seq::<Seq<char>>::empty());
                }
            }
            if k > 0 {
                push_char(&mut r, '\n');
            }
            push_str(&mut r, "- [[");
            push_str(&mut r, links[k].0.as_str());
            push_str(&mut r, "]] (");
            push_str(&mut r, links[k].1.as_str());
            push_str(&mut r, ")");
            proof {
                reveal_strlit("- [[");
                reveal_strlit("]] (");
                reveal_strlit(")");
                assert(r@ =~= base + join_sep(lines_all.take(k + 1), seq!['\n']));
            }
            k = k + 1;
        }
        push_char(&mut r, '\n');
        proof {
            assert(lines_all.take(links@.len() as int) =~= lines_all);
        }
        r
    }

    /// The text of a page from the metadata, the text and the related
    /// documents section of a document.
    pub fn page_content(meta: &str, body: &str, backlinks: &str) -> (r: String)
        ensures
            r@ == page_spec(meta@, body@, backlinks@),
    {
        let mut r = owned("---\n");
        let m = trimmed(meta);
        push_str(&mut r, m.as_str());
        push_str(&mut r, "\n---\n\n");
        let b = trimmed(body);
        push_str(&mut r, b.as_str());
        push_str(&mut r, backlinks);
        push_char(&mut r, '\n');
        r
    }
}

/// Figures of the knowledge graph.
#[derive(Debug, Clone, PartialEq, Eq)]
pub struct KgStats {
    pub total_nodes: usize,
    /// Relations counted once per pair (each is stored in both directions).
    pub total_edges: usize,
    pub isolated_nodes: usize,
    /// The document with the most relations (the first of them); empty when
    /// no document has any.
    pub hub_node: String,
    pub hub_degree: usize,
}

/// The sum of the relation counts.
pub open spec fn degree_sum(d: Seq<(Seq<char>, usize)>) -> nat
    decreases d.len(),
{
    if d.len() == 0 {
        0
    } else {
        degree_sum(d.drop_last()) + (d.last().1 as nat)
    }
}

/// The number of documents without relations.
pub open spec fn isolated_count(d: Seq<(Seq<char>, usize)>) -> nat
    decreases d.len(),
{
    if d.len() == 0 {
        0
    } else {
        isolated_count(d.drop_last()) + if d.last().1 == 0 {
            1nat
        } else {
            0nat
        }
    }
}

/// The hub of `d`: the first document with the largest count, with that
/// count; `("", 0)` when every count is zero.
pub open spec fn hub_of(d: Seq<(Seq<char>, usize)>) -> (Seq<char>, usize)
    decreases d.len(),
{
    if d.len() == 0 {
        (seq![], 0)
    } else {
        let h = hub_of(d.drop_last());
        if d.last().1 > h.1 {
            d.last()
        } else {
            h
        }
    }
}

/// The figures of a graph whose documents have the relation counts `d`.
pub open spec fn kg_stats_spec(d: Seq<(Seq<char>, usize)>) -> (usize, usize, usize, Seq<char>, usize) {
    (
        d.len() as usize,
        (degree_sum(d) / 2) as usize,
        isolated_count(d) as usize,
        hub_of(d).0,
        hub_of(d).1,
    )
}

/// The plain values of the pairs (id, count).
pub open spec fn degree_views(v: Seq<(String, usize)>) -> Seq<(Seq<char>, usize)> {
    Seq::new(v.len(), |i: int| (v[i].0@, v[i].1))
}

/// The paths of at most two steps from `source` to `target`: one direct path
/// for each direct relation to `target`; when there is none, one path through
/// each neighbour `m` for each relation of `m` to `target`.
pub open spec fn paths_spec(
    source: Seq<char>,
    target: Seq<char>,
    direct: Seq<Seq<char>>,
    second: Seq<Seq<Seq<char>>>,
) -> Seq<Seq<Seq<char>>> {
    let d = direct_paths(source, target, direct);
    if d.len() > 0 {
        d
    } else {
        two_step_paths(source, target, direct, second)
    }
}

/// One path `[source, target]` per occurrence of `target` in `direct`.
pub open spec fn direct_paths(source: Seq<char>, target: Seq<char>, direct: Seq<Seq<char>>) -> Seq<
    Seq<Seq<char>>,
>
    decreases direct.len(),
{
    if direct.len() == 0 {
        seq![]
    } else {
        let r = direct_paths(source, target, direct.drop_last());
        if direct.last() == target {
            r.push(seq![source, target])
        } else {
            r
        }
    }
}

/// One path `[source, m, target]` per relation of each neighbour `m` to `target`.
pub open spec fn two_step_paths(
    source: Seq<char>,
    target: Seq<char>,
    direct: Seq<Seq<char>>,
    second: Seq<Seq<Seq<char>>>,
) -> Seq<Seq<Seq<char>>>
    decreases direct.len(),
{
    if direct.len() == 0 || second.len() < direct.len() {
        seq![]
    } else {
        let n = direct.len() - 1;
        two_step_paths(source, target, direct.drop_last(), second) + via_paths(
            source,
            direct[n],
            target,
            second[n],
        )
    }
}

/// One path `[source, mid, target]` per occurrence of `target` in `mids`.
pub open spec fn via_paths(source: Seq<char>, mid: Seq<char>, target: Seq<char>, mids: Seq<Seq<char>>) -> Seq<
    Seq<Seq<char>>,
>
    decreases mids.len(),
{
    if mids.len() == 0 {
        seq![]
    } else {
        let r = via_paths(source, mid, target, mids.drop_last());
        if mids.last() == target {
            r.push(seq![source, mid, target])
        } else {
            r
        }
    }
}

/// The plain values of nested lists of strings.
pub open spec fn nested_views(v: Seq<Vec<String>>) -> Seq<Seq<Seq<char>>> {
    Seq::new(v.len(), |i: int| strs(v[i]@))
}

/// The plain values of paths.
pub open spec fn path_views(v: Seq<Vec<String>>) -> Seq<Seq<Seq<char>>> {
    nested_views(v)
}

/// Queries over the knowledge graph of documents and their relations.
pub struct KgQueryEngine;

impl KgQueryEngine {
    /// The figures of the graph whose documents, in listing order, have the
    /// relation counts `degrees` (id, number of relations).
    pub fn stats(degrees: &Vec<(String, usize)>) -> (r: KgStats)
        requires
            degree_sum(degree_views(degrees@)) <= usize::MAX,
        ensures
            (r.total_nodes, r.total_edges, r.isolated_nodes, r.hub_node@, r.hub_degree)
                == kg_stats_spec(degree_views(degrees@)),
    {
        let ghost d = degree_views(degrees@);
        let mut total: usize = 0;
        let mut isolated: usize = 0;
        let mut hub: String = String::new();
        let mut max: usize = 0;
        let mut i: usize = 0;
        while i < degrees.len()
            invariant
                i <= degrees@.len(),
                d == degree_views(degrees@),
                degree_sum(d) <= usize::MAX,
                total == degree_sum(d.take(i as int)),
                isolated == isolated_count(d.take(i as int)),
                isolated <= i,
                (hub@, max) == hub_of(d.take(i as int)),
            decreases degrees@.len() - i,
        {
            proof {
                assert(d.take(i + 1).drop_last() =~= d.take(i as int));
                assert(d.take(i + 1).last() == d[i as int]);
                lemma_degree_sum_prefix(d, i + 1);
            }
            let n = degrees[i].1;
            total = total + n;
            if n == 0 {
                isolated = isolated + 1;
            }
            if n > max {
                max = n;
                hub = degrees[i].0.clone();
            }
            i = i + 1;
        }
        proof {
            assert(d.take(i as int) =~= d);
        }
        KgStats {
            total_nodes: degrees.len(),
            total_edges: total / 2,
            isolated_nodes: isolated,
            hub_node: hub,
            hub_degree: max,
        }
    }

    /// The paths of at most two steps from `source_id` to `target_id`, given
    /// the relation targets of the source (`direct`) and, for each of them
    /// in the same order, that neighbour's relation targets (`second`).
    pub fn find_paths(
        source_id: &str,
        target_id: &str,
        direct: &Vec<String>,
        second: &Vec<Vec<String>>,
    ) -> (r: Vec<Vec<String>>)
        requires
            second@.len() == direct@.len(),
        ensures
            path_views(r@) == paths_spec(source_id@, target_id@, strs(direct@), nested_views(second@)),
    {
        let ghost dv = strs(direct@);
        let ghost sv = nested_views(second@);
        let mut r: Vec<Vec<String>> = Vec::new();
        let mut i: usize = 0;
        while i < direct.len()
            invariant
                i <= direct@.len(),
                dv == strs(direct@),
                path_views(r@) == direct_paths(source_id@, target_id@, dv.take(i as int)),
            decreases direct@.len() - i,
        {
            proof {
                assert(dv.take(i + 1).drop_last() =~= dv.take(i as int));
                assert(dv.take(i + 1).last() == direct@[i as int]@);
            }
            if same_text(direct[i].as_str(), target_id) {
                let ghost before = path_views(r@);
                let mut p: Vec<String> = Vec::new();
                p.push(owned(source_id));
                p.push(owned(target_id));
                r.push(p);
                proof {
                    assert(strs(p@) =~= seq![source_id@, target_id@]);
                    assert(path_views(r@) =~= before.push(seq![source_id@, target_id@]));
                }
            }
            i = i + 1;
        }
        proof {
            assert(dv.take(i as int) =~= dv);
        }
        if r.len() > 0 {
            return r;
        }
        let mut j: usize = 0;
        proof {
            assert(path_views(r@) =~= two_step_paths(source_id@, target_id@, dv.take(0), sv));
        }
        while j < direct.len()
            invariant
                j <= direct@.len() == second@.len(),
                dv == strs(direct@),
                sv == nested_views(second@),
                path_views(r@) == two_step_paths(source_id@, target_id@, dv.take(j as int), sv),
            decreases direct@.len() - j,
        {
            let ghost start = path_views(r@);
            proof {
                assert(dv.take(j + 1).drop_last() =~= dv.take(j as int));
                assert(dv.take(j + 1)[j as int] == direct@[j as int]@);
            }
            let mids = &second[j];
            let mut k: usize = 0;
            while k < mids.len()
                invariant
                    k <= mids@.len(),
                    j < direct@.len() == second@.len(),
                    mids@ == second@[j as int]@,
                    path_views(r@) == start + via_paths(
                        source_id@,
                        direct@[j as int]@,
                        target_id@,
                        strs(mids@).take(k as int),
                    ),
                decreases mids@.len() - k,
            {
                proof {
                    assert(strs(mids@).take(k + 1).drop_last() =~= strs(mids@).take(k as int));
                    assert(strs(mids@).take(k + 1).last() == mids@[k as int]@);
                }
                if same_text(mids[k].as_str(), target_id) {
                    let ghost before = path_views(r@);
                    let mut p: Vec<String> = Vec::new();
                    p.push(owned(source_id));
                    p.push(direct[j].clone());
                    p.push(owned(target_id));
                    r.push(p);
                    proof {
                        assert(strs(p@) =~= seq![source_id@, direct@[j as int]@, target_id@]);
                        assert(path_views(r@) =~= before.push(
                            seq![source_id@, direct@[j as int]@, target_id@],
                        ));
                    }
                }
                k = k + 1;
            }
            proof {
                assert(strs(mids@).take(k as int) =~= strs(mids@));
                assert(sv[j as int] == strs(mids@));
            }
            j = j + 1;
        }
        proof {
            assert(dv.take(j as int) =~= dv);
        }
        r
    }
}

/// The sum over a prefix is at most the sum over the whole.
proof fn lemma_degree_sum_prefix(d: Seq<(Seq<char>, usize)>, i: int)
    requires
        0 <= i <= d.len(),
    ensures
        degree_sum(d.take(i)) <= degree_sum(d),
    decreases d.len() - i,
{
    if i < d.len() {
        lemma_degree_sum_prefix(d, i + 1);
        assert(d.take(i + 1).drop_last() =~= d.take(i));
    } else {
        assert(d.take(i) =~= d);
    }
}

/// The hub has at least as many relations as any document, and it is the
/// first document with that many.
pub proof fn lemma_hub_is_first_maximum(d: Seq<(Seq<char>, usize)>)
    ensures
        forall|i: int| 0 <= i < d.len() ==> (#[trigger] d[i]).1 <= hub_of(d).1,
        hub_of(d).1 > 0 ==> exists|i: int|
            0 <= i < d.len() && d[i] == hub_of(d) && forall|j: int| 0 <= j < i ==> (#[trigger] d[j]).1
                < hub_of(d).1,
        hub_of(d).1 == 0 ==> hub_of(d).0 == Seq::<char>::empty(),
    decreases d.len(),
{
    if d.len() > 0 {
        let p = d.drop_last();
        lemma_hub_is_first_maximum(p);
        assert forall|i: int| 0 <= i < d.len() implies (#[trigger] d[i]).1 <= hub_of(d).1 by {
            if i < p.len() {
                assert(d[i] == p[i]);
            }
        }
        if hub_of(d).1 > 0 {
            if d.last().1 > hub_of(p).1 {
                let i = d.len() - 1;
                assert forall|j: int| 0 <= j < i implies (#[trigger] d[j]).1 < hub_of(d).1 by {
                    assert(d[j] == p[j]);
                }
            } else {
                let i = choose|i: int|
                    0 <= i < p.len() && p[i] == hub_of(p) && forall|j: int| 0 <= j < i ==> (
                    #[trigger] p[j]).1 < hub_of(p).1;
                assert(d[i] == p[i]);
                assert forall|j: int| 0 <= j < i implies (#[trigger] d[j]).1 < hub_of(d).1 by {
                    assert(d[j] == p[j]);
                }
            }
        }
    }
}

/// Every document counts once: as isolated or as one with relations; an
/// isolated count never exceeds the number of documents.
pub proof fn lemma_isolated_at_most_all(d: Seq<(Seq<char>, usize)>)
    ensures
        isolated_count(d) <= d.len(),
        isolated_count(d) == d.len() <==> forall|i: int| 0 <= i < d.len() ==> (#[trigger] d[i]).1 == 0,
    decreases d.len(),
{
    if d.len() > 0 {
        let p = d.drop_last();
        lemma_isolated_at_most_all(p);
        if isolated_count(d) == d.len() {
            assert forall|i: int| 0 <= i < d.len() implies (#[trigger] d[i]).1 == 0 by {
                if i < p.len() {
                    assert(d[i] == p[i]);
                }
            }
        }
        if forall|i: int| 0 <= i < d.len() ==> (#[trigger] d[i]).1 == 0 {
            assert forall|i: int| 0 <= i < p.len() implies (#[trigger] p[i]).1 == 0 by {
                assert(d[i] == p[i]);
            }
            assert(d[d.len() - 1].1 == 0);
        }
    }
}

} // verus!
