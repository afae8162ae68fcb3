//! Quality checks over the corpus: documents without relations, documents
//! without a type, relations without the reverse link, contradiction marks in
//! topic pages, and assertive claims in processed documents.

use vstd::prelude::*;
use crate::models::{relations_of, find_relations, CorpusDoc, DocRelation};
use crate::text::{
    chars_of, contains, contains_exec, dec_of, format_dec, lines, line_ranges, lowercase, owned,
    push_str, same_text, str_to_lowercase, string_from, strs, trim, trim_range,
};
use crate::verification::{detect_strong_claims, strong_claims_spec};

verus! {

/// The kind of a finding.
#[derive(Debug, Clone, Copy, PartialEq, Eq, Structural)]
pub enum LintIssueType {
    /// A document without relations.
    Orphan,
    /// A relation whose target does not link back.
    MissingBacklink,
    /// A document without a type.
    DuplicateTopic,
    /// A contradiction mark in a topic page.
    Contradiction,
    /// An assertive claim that may need softening.
    StrongClaim,
}

/// One finding: the document (or page) it concerns, its kind, and what was
/// found.
#[derive(Debug, Clone)]
pub struct LintIssue {
    pub doc_id: String,
    pub issue_type: LintIssueType,
    pub description: String,
}

/// The plain value of a finding.
pub open spec fn issue_view(i: LintIssue) -> (Seq<char>, LintIssueType, Seq<char>) {
    (i.doc_id@, i.issue_type, i.description@)
}

/// The plain values of findings.
pub open spec fn issue_views(v: Seq<LintIssue>) -> Seq<(Seq<char>, LintIssueType, Seq<char>)> {
    Seq::new(v.len(), |i: int| issue_view(v[i]))
}

/// The findings of a corpus check, with the documents found without
/// relations.
#[derive(Debug, Clone)]
pub struct LintReport {
    pub orphan_docs: Vec<String>,
    pub issues: Vec<LintIssue>,
}

impl Default for LintReport {
    fn default() -> (r: Self)
        ensures
            r.orphan_docs@.len() == 0,
            r.issues@.len() == 0,
    {
        LintReport { orphan_docs: Vec::new(), issues: Vec::new() }
    }
}

/// What `format!("{:?}", Path::new(p))` gives for the path text `p`: the
/// path quoted, with `Debug` escapes.
pub uninterp spec fn path_debug(p: Seq<char>) -> Seq<char>;

/// `format!("{:?}", std::path::Path::new(p))`: the path as `Debug` shows it.
#[verifier::external_body]
fn path_debug_text(p: &str) -> (r: String)
    ensures
        r@ == path_debug(p@),
{
    format!("{:?}", std::path::Path::new(p))
}

/// The findings on one document that need nothing but the document: no
/// relations, no type.
pub open spec fn own_issues(d: CorpusDoc) -> Seq<(Seq<char>, LintIssueType, Seq<char>)> {
    let orphan: Seq<(Seq<char>, LintIssueType, Seq<char>)> = if d.relations@.len() == 0 {
        seq![(d.id@, LintIssueType::Orphan, "관계 없는 고아 문서: "@ + path_debug(d.path@))]
    } else {
        seq![]
    };
    let untyped: Seq<(Seq<char>, LintIssueType, Seq<char>)> = if d.doc_types@.len() == 0 {
        seq![(d.id@, LintIssueType::DuplicateTopic, "유형 없는 문서"@)]
    } else {
        seq![]
    };
    orphan + untyped
}

/// The findings of the first pass over `docs`.
pub open spec fn first_pass(docs: Seq<CorpusDoc>) -> Seq<(Seq<char>, LintIssueType, Seq<char>)>
    decreases docs.len(),
{
    if docs.len() == 0 {
        seq![]
    } else {
        first_pass(docs.drop_last()) + own_issues(docs.last())
    }
}

/// The ids of the documents without relations.
pub open spec fn orphans(docs: Seq<CorpusDoc>) -> Seq<Seq<char>>
    decreases docs.len(),
{
    if docs.len() == 0 {
        seq![]
    } else if docs.last().relations@.len() == 0 {
        orphans(docs.drop_last()).push(docs.last().id@)
    } else {
        orphans(docs.drop_last())
    }
}

/// The target `t` links back to `id`: one of its relations points to `id`.
pub open spec fn links_back(all: Seq<CorpusDoc>, t: Seq<char>, id: Seq<char>) -> bool {
    exists|k: int|
        0 <= k < relations_of(all, t).len() && (#[trigger] relations_of(all, t)[k]).target_id@ == id
}

/// The findings on the relations `rels` of document `id` whose targets do
/// not link back.
pub open spec fn backlink_issues(all: Seq<CorpusDoc>, id: Seq<char>, rels: Seq<DocRelation>) -> Seq<
    (Seq<char>, LintIssueType, Seq<char>),
>
    decreases rels.len(),
{
    if rels.len() == 0 {
        seq![]
    } else {
        let r = backlink_issues(all, id, rels.drop_last());
        let t = rels.last().target_id@;
        if links_back(all, t, id) {
            r
        } else {
            r.push((id, LintIssueType::MissingBacklink, id + " → "@ + t + " 관계에 역방향 백링크 없음"@))
        }
    }
}

/// The findings of the second pass over the documents `docs` of the corpus
/// `all`.
pub open spec fn second_pass(all: Seq<CorpusDoc>, docs: Seq<CorpusDoc>) -> Seq<
    (Seq<char>, LintIssueType, Seq<char>),
>
    decreases docs.len(),
{
    if docs.len() == 0 {
        seq![]
    } else {
        second_pass(all, docs.drop_last()) + backlink_issues(
            all,
            docs.last().id@,
            docs.last().relations@,
        )
    }
}

/// Whether the relations of `t` in `docs` point back to `id`.
fn has_backlink(docs: &Vec<CorpusDoc>, t: &str, id: &str) -> (b: bool)
    ensures
        b == links_back(docs@, t@, id@),
{
    match find_relations(docs, t) {
        None => false,
        Some(rels) => {
            let mut k: usize = 0;
            while k < rels.len()
                invariant
                    k <= rels@.len(),
                    rels@ == relations_of(docs@, t@),
                    forall|m: int| 0 <= m < k ==> (#[trigger] rels@[m]).target_id@ != id@,
                decreases rels@.len() - k,
            {
                if same_text(rels[k].target_id.as_str(), id) {
                    return true;
                }
                k = k + 1;
            }
            false
        },
    }
}

/// Appends a finding.
fn push_issue(v: &mut Vec<LintIssue>, doc_id: &str, t: LintIssueType, description: String)
    ensures
        issue_views(final(v)@) == issue_views(old(v)@).push((doc_id@, t, description@)),
{
    let ghost before = issue_views(v@);
    v.push(LintIssue { doc_id: owned(doc_id), issue_type: t, description });
    proof {
        assert(issue_views(v@) =~= before.push((doc_id@, t, description@)));
    }
}

/// The corpus checker.
pub struct Linter;

impl Linter {
    /// Checks the corpus `docs` (each document with its types and
    /// relations): first, for each document, whether it has no relations
    /// (an orphan) and whether it has no type; then, for each relation,
    /// whether its target links back.
    pub fn lint(docs: &Vec<CorpusDoc>) -> (r: LintReport)
        ensures
            strs(r.orphan_docs@) == orphans(docs@),
            issue_views(r.issues@) == first_pass(docs@) + second_pass(docs@, docs@),
    {
        let mut report = LintReport::default();
        let mut i: usize = 0;
        proof {
            assert(issue_views(report.issues@) =~= first_pass(docs@.take(0)));
            assert(strs(report.orphan_docs@) =~= orphans(docs@.take(0)));
        }
        while i < docs.len()
            invariant
                i <= docs@.len(),
                issue_views(report.issues@) == first_pass(docs@.take(i as int)),
                strs(report.orphan_docs@) == orphans(docs@.take(i as int)),
            decreases docs@.len() - i,
        {
            proof {
                assert(docs@.take(i + 1).drop_last() =~= docs@.take(i as int));
                assert(docs@.take(i + 1).last() == docs@[i as int]);
            }
            let d = &docs[i];
            let ghost before = issue_views(report.issues@);
            if d.relations.len() == 0 {
                let ghost ob = strs(report.orphan_docs@);
                report.orphan_docs.push(d.id.clone());
                proof {
                    assert(strs(report.orphan_docs@) =~= ob.push(d.id@));
                }
                let mut desc = owned("관계 없는 고아 문서: ");
                let pd = path_debug_text(d.path.as_str());
                push_str(&mut desc, pd.as_str());
                push_issue(&mut report.issues, d.id.as_str(), LintIssueType::Orphan, desc);
            }
            if d.doc_types.len() == 0 {
                push_issue(&mut report.issues, d.id.as_str(), LintIssueType::DuplicateTopic, owned("유형 없는 문서"));
            }
            proof {
                assert(issue_views(report.issues@) =~= before + own_issues(docs@[i as int]));
            }
            i = i + 1;
        }
        proof {
            assert(docs@.take(i as int) =~= docs@);
        }
        let ghost first = issue_views(report.issues@);
        let mut j: usize = 0;
        proof {
            assert(second_pass(docs@, docs@.take(0)) =~= Seq::<(Seq<char>, LintIssueType, Seq<char>)>::empty());
            assert(first + second_pass(docs@, docs@.take(0)) =~= first);
        }
        while j < docs.len()
            invariant
                j <= docs@.len(),
                first == first_pass(docs@),
                issue_views(report.issues@) == first + second_pass(docs@, docs@.take(j as int)),
                strs(report.orphan_docs@) == orphans(docs@),
            decreases docs@.len() - j,
        {
            proof {
                assert(docs@.take(j + 1).drop_last() =~= docs@.take(j as int));
                assert(docs@.take(j + 1).last() == docs@[j as int]);
            }
            let d = &docs[j];
            let ghost start = issue_views(report.issues@);
            let mut k: usize = 0;
            proof {
                assert(backlink_issues(docs@, d.id@, d.relations@.take(0)) =~= Seq::<(Seq<char>, LintIssueType, Seq<char>)>::empty());
                assert(start + backlink_issues(docs@, d.id@, d.relations@.take(0)) =~= start);
            }
            while k < d.relations.len()
                invariant
                    k <= d.relations@.len(),
                    j < docs@.len(),
                    strs(report.orphan_docs@) == orphans(docs@),
                    d == docs@[j as int],
                    issue_views(report.issues@) == start + backlink_issues(
                        docs@,
                        d.id@,
                        d.relations@.take(k as int),
                    ),
                decreases d.relations@.len() - k,
            {
                proof {
                    assert(d.relations@.take(k + 1).drop_last() =~= d.relations@.take(k as int));
                    assert(d.relations@.take(k + 1).last() == d.relations@[k as int]);
                }
                let t = d.relations[k].target_id.as_str();
                if !has_backlink(docs, t, d.id.as_str()) {
                    let mut desc = owned(d.id.as_str());
                    push_str(&mut desc, " → ");
                    push_str(&mut desc, t);
                    push_str(&mut desc, " 관계에 역방향 백링크 없음");
                    let ghost b2 = issue_views(report.issues@);
                    push_issue(&mut report.issues, d.id.as_str(), LintIssueType::MissingBacklink, desc);
                    proof {
                        assert(issue_views(report.issues@) =~= start + backlink_issues(
                            docs@,
                            d.id@,
                            d.relations@.take(k + 1),
                        ));
                    }
                }
                k = k + 1;
            }
            proof {
                assert(d.relations@.take(k as int) =~= d.relations@);
                assert(issue_views(report.issues@) =~= first + second_pass(docs@, docs@.take(j + 1)));
            }
            j = j + 1;
        }
        proof {
            assert(docs@.take(j as int) =~= docs@);
        }
        report
    }
}

/// When every relation has its reverse, the check finds no missing backlink:
/// the second pass reports nothing.
pub proof fn lemma_symmetric_corpus_has_no_backlink_issues(all: Seq<CorpusDoc>, docs: Seq<CorpusDoc>)
    requires
        forall|i: int, k: int|
            0 <= i < docs.len() && 0 <= k < docs[i].relations@.len() ==> links_back(
                all,
                (#[trigger] docs[i].relations@[k]).target_id@,
                docs[i].id@,
            ),
    ensures
        second_pass(all, docs) == Seq::<(Seq<char>, LintIssueType, Seq<char>)>::empty(),
    decreases docs.len(),
{
    if docs.len() > 0 {
        let pre = docs.drop_last();
        assert forall|i: int, k: int|
            0 <= i < pre.len() && 0 <= k < pre[i].relations@.len() implies links_back(
            all,
            (#[trigger] pre[i].relations@[k]).target_id@,
            pre[i].id@,
        ) by {
            assert(pre[i] == docs[i]);
        }
        lemma_symmetric_corpus_has_no_backlink_issues(all, pre);
        let d = docs.last();
        assert(d == docs[docs.len() - 1]);
        lemma_all_linked_no_issues(all, d.id@, d.relations@);
        assert(second_pass(all, docs) =~= Seq::<(Seq<char>, LintIssueType, Seq<char>)>::empty());
    }
}

/// Relations whose targets all link back yield no finding.
proof fn lemma_all_linked_no_issues(all: Seq<CorpusDoc>, id: Seq<char>, rels: Seq<DocRelation>)
    requires
        forall|k: int| 0 <= k < rels.len() ==> links_back(all, (#[trigger] rels[k]).target_id@, id),
    ensures
        backlink_issues(all, id, rels) == Seq::<(Seq<char>, LintIssueType, Seq<char>)>::empty(),
    decreases rels.len(),
{
    if rels.len() > 0 {
        let pre = rels.drop_last();
        assert forall|k: int| 0 <= k < pre.len() implies links_back(all, (#[trigger] pre[k]).target_id@, id) by {
            assert(pre[k] == rels[k]);
        }
        lemma_all_linked_no_issues(all, id, pre);
        assert(rels.last() == rels[rels.len() - 1]);
    }
}

/// A line that marks a contradiction: it holds `⚠️` and, lowercased, `모순`.
pub open spec fn is_contradiction_line(l: Seq<char>) -> bool {
    contains(l, "⚠️"@) && contains(lowercase(l), "모순"@)
}

/// The contradiction findings among the lines `ls`, the first of which has
/// the number `first` (counted from 1), for the page `label`.
pub open spec fn contradiction_issues(label: Seq<char>, ls: Seq<Seq<char>>) -> Seq<
    (Seq<char>, LintIssueType, Seq<char>),
>
    decreases ls.len(),
{
    if ls.len() == 0 {
        seq![]
    } else {
        let r = contradiction_issues(label, ls.drop_last());
        let l = ls.last();
        if is_contradiction_line(l) {
            r.push((label, LintIssueType::Contradiction, dec_of(ls.len()) + "줄: "@ + trim(l)))
        } else {
            r
        }
    }
}

/// The contradiction marks in the text `content` of the topic page `label`:
/// one finding per marked line, with its number and its trimmed text.
pub fn topic_contradictions(label: &str, content: &str) -> (r: Vec<LintIssue>)
    ensures
        issue_views(r@) == contradiction_issues(label@, lines(content@)),
{
    let c = chars_of(content);
    let ranges = line_ranges(c.as_slice());
    let ghost ls = lines(c@);
    let warn = chars_of("⚠️");
    let mark = chars_of("모순");
    let mut out: Vec<LintIssue> = Vec::new();
    let mut i: usize = 0;
    proof {
        assert(issue_views(out@) =~= contradiction_issues(label@, ls.take(0)));
    }
    while i < ranges.len()
        invariant
            i <= ranges@.len() == ls.len(),
            ls == lines(c@),
            c@ == content@,
            warn@ == "⚠️"@,
            mark@ == "모순"@,
            forall|k: int|
                0 <= k < ranges@.len() ==> {
                    &&& (#[trigger] ranges@[k]).0 <= ranges@[k].1 <= c@.len()
                    &&& c@.subrange(ranges@[k].0 as int, ranges@[k].1 as int) == ls[k]
                },
            issue_views(out@) == contradiction_issues(label@, ls.take(i as int)),
        decreases ranges@.len() - i,
    {
        proof {
            assert(ls.take(i + 1).drop_last() =~= ls.take(i as int));
            assert(ls.take(i + 1).last() == ls[i as int]);
        }
        let (a, b) = ranges[i];
        let line = string_from(c.as_slice(), a, b);
        let lc = chars_of(line.as_str());
        let lower = str_to_lowercase(line.as_str());
        let lowc = chars_of(lower.as_str());
        if contains_exec(lc.as_slice(), warn.as_slice()) && contains_exec(lowc.as_slice(), mark.as_slice()) {
            let mut desc = format_dec(i as u64 + 1);
            push_str(&mut desc, "줄: ");
            let (p, q) = trim_range(c.as_slice(), a, b);
            let t = string_from(c.as_slice(), p, q);
            push_str(&mut desc, t.as_str());
            let ghost before = issue_views(out@);
            push_issue(&mut out, label, LintIssueType::Contradiction, desc);
            proof {
                assert(ls.take(i + 1).len() == i + 1);
            }
        }
        i = i + 1;
    }
    proof {
        assert(ls.take(i as int) =~= ls);
    }
    out
}

/// The findings of assertive claims in the processed text `content` of
/// document `doc_id`: at most `max(max_per_doc, 1)` of them, in order; none
/// for an empty text.
pub open spec fn claim_issues(doc_id: Seq<char>, content: Seq<char>, max_per_doc: nat) -> Seq<
    (Seq<char>, LintIssueType, Seq<char>),
> {
    let hits = strong_claims_spec(content);
    let n = if max_per_doc < 1 { 1 } else { max_per_doc };
    let k = if hits.len() < n { hits.len() } else { n };
    if content.len() == 0 {
        seq![]
    } else {
        Seq::new(k, |i: int| (doc_id, LintIssueType::StrongClaim, hits[i]))
    }
}

/// The strong-claim findings of one processed document.
pub fn strong_claim_issues(doc_id: &str, content: &str, max_per_doc: usize) -> (r: Vec<LintIssue>)
    ensures
        issue_views(r@) == claim_issues(doc_id@, content@, max_per_doc as nat),
{
    let mut out: Vec<LintIssue> = Vec::new();
    if chars_of(content).len() == 0 {
        proof {
            assert(issue_views(out@) =~= claim_issues(doc_id@, content@, max_per_doc as nat));
        }
        return out;
    }
    let hits = detect_strong_claims(content);
    let n: usize = if max_per_doc < 1 { 1 } else { max_per_doc };
    let k: usize = if hits.len() < n { hits.len() } else { n };
    let mut i: usize = 0;
    while i < k
        invariant
            i <= k <= hits@.len(),
            k == (if hits@.len() < n { hits@.len() } else { n as nat }),
            n == (if max_per_doc < 1 { 1 } else { max_per_doc }),
            hits@.len() == strong_claims_spec(content@).len(),
            forall|m: int| 0 <= m < hits@.len() ==> (#[trigger] hits@[m])@ == strong_claims_spec(content@)[m],
            issue_views(out@) == Seq::new(
                i as nat,
                |m: int| (doc_id@, LintIssueType::StrongClaim, strong_claims_spec(content@)[m]),
            ),
        decreases k - i,
    {
        let ghost before = issue_views(out@);
        push_issue(&mut out, doc_id, LintIssueType::StrongClaim, hits[i].clone());
        proof {
            assert(issue_views(out@) =~= Seq::new(
                (i + 1) as nat,
                |m: int| (doc_id@, LintIssueType::StrongClaim, strong_claims_spec(content@)[m]),
            ));
        }
        i = i + 1;
    }
    proof {
        assert(issue_views(out@) =~= claim_issues(doc_id@, content@, max_per_doc as nat));
    }
    out
}


/// The strong-claim findings of documents given as (id, processed text),
/// in document order.
pub open spec fn corpus_claim_issues(docs: Seq<(Seq<char>, Seq<char>)>, max_per_doc: nat) -> Seq<
    (Seq<char>, LintIssueType, Seq<char>),
>
    decreases docs.len(),
{
    if docs.len() == 0 {
        seq![]
    } else {
        corpus_claim_issues(docs.drop_last(), max_per_doc) + claim_issues(
            docs.last().0,
            docs.last().1,
            max_per_doc,
        )
    }
}

pub open spec fn doc_text_views(docs: Seq<(String, String)>) -> Seq<(Seq<char>, Seq<char>)> {
    Seq::new(docs.len(), |i: int| (docs[i].0@, docs[i].1@))
}

impl Linter {
    /// The strong claims of each processed document, at most `max_per_doc`
    /// (at least one) per document; documents whose text is empty or could
    /// not be read (given as empty) are skipped.
    pub fn lint_strong_claims(docs: &Vec<(String, String)>, max_per_doc: usize) -> (r: Vec<LintIssue>)
        ensures
            issue_views(r@) == corpus_claim_issues(doc_text_views(docs@), max_per_doc as nat),
    {
        let ghost dv = doc_text_views(docs@);
        let mut out: Vec<LintIssue> = Vec::new();
        let mut i: usize = 0;
        proof {
            assert(issue_views(out@) =~= corpus_claim_issues(dv.take(0), max_per_doc as nat));
        }
        while i < docs.len()
            invariant
                i <= docs@.len(),
                dv == doc_text_views(docs@),
                issue_views(out@) == corpus_claim_issues(dv.take(i as int), max_per_doc as nat),
            decreases docs@.len() - i,
        {
            let found = strong_claim_issues(docs[i].0.as_str(), docs[i].1.as_str(), max_per_doc);
            let ghost before = issue_views(out@);
            let mut j: usize = 0;
            while j < found.len()
                invariant
                    j <= found@.len(),
                    issue_views(out@) == before + issue_views(found@).take(j as int),
                decreases found@.len() - j,
            {
                push_issue(&mut out, found[j].doc_id.as_str(), found[j].issue_type, found[j].description.clone());
                proof {
                    assert(issue_views(out@) =~= before + issue_views(found@).take(j + 1));
                }
                j = j + 1;
            }
            proof {
                assert(dv.take(i + 1).drop_last() =~= dv.take(i as int));
                assert(issue_views(found@).take(found@.len() as int) =~= issue_views(found@));
            }
            i = i + 1;
        }
        proof {
            assert(dv.take(i as int) =~= dv);
        }
        out
    }
}

} // verus!
