//! Cross references between documents: coverage tags, the report of an
//! update, entities found by rules, the links that wikilinks ask for, the
//! metadata blocking of candidates, and the links chosen for the candidates
//! of a new document under the per-kind caps.

use vstd::prelude::*;
use crate::text::{
    byte_len, byte_len_of, chars_of, dec_of, format_dec, lowercase, owned, push_str, str_to_lowercase,
    same_text, strs, join_sep, push_joined,
};
use crate::audit::{format_hex, hex_padded};
use crate::models::StoredDocSummary;
use crate::wikilink::{extract_wikilinks, resolve_wikilink_target, resolve_spec, unique_nonempty, link_scan};

verus! {

// ---------------------------------------------------------------------------
// Relations
// ---------------------------------------------------------------------------

/// The kinds of relation between two documents.
#[derive(Debug, Clone, Copy, PartialEq, Eq, Structural)]
pub enum RelationType {
    Supersedes,
    Updates,
    RelatedTopic,
    References,
    ReferencedBy,
}

/// The name of a relation kind.
pub open spec fn relation_name(r: RelationType) -> Seq<char> {
    match r {
        RelationType::Supersedes => "supersedes"@,
        RelationType::Updates => "updates"@,
        RelationType::RelatedTopic => "related_topic"@,
        RelationType::References => "references"@,
        RelationType::ReferencedBy => "referenced_by"@,
    }
}

impl RelationType {
    /// The name of the relation kind.
    pub fn as_str(&self) -> (r: &'static str)
        ensures
            r@ == relation_name(*self),
    {
        match self {
            RelationType::Supersedes => "supersedes",
            RelationType::Updates => "updates",
            RelationType::RelatedTopic => "related_topic",
            RelationType::References => "references",
            RelationType::ReferencedBy => "referenced_by",
        }
    }
}

// ---------------------------------------------------------------------------
// Coverage
// ---------------------------------------------------------------------------

/// How well a section of a document is covered by sources.
#[derive(Debug, Clone)]
pub struct CoverageTag {
    pub section: String,
    pub level: String,
    pub source_count: usize,
}

/// The coverage level for a number of sources: `high` from ten, `medium`
/// from three, else `low`.
pub open spec fn coverage_level(n: nat) -> Seq<char> {
    if n >= 10 {
        "high"@
    } else if n >= 3 {
        "medium"@
    } else {
        "low"@
    }
}

/// The text of a coverage tag.
pub open spec fn tag_text(level: Seq<char>, n: nat) -> Seq<char> {
    "[coverage: "@ + level + " -- "@ + dec_of(n) + " sources]"@
}

/// Computes coverage tags.
pub struct CoverageCalculator;

impl CoverageCalculator {
    /// The coverage of a document with `source_count` related documents: one
    /// tag for the whole document.
    pub fn compute_coverage(doc_id: &str, source_count: usize) -> (r: Vec<CoverageTag>)
        ensures
            r@.len() == 1,
            r@[0].section@ == "전체"@,
            r@[0].level@ == coverage_level(source_count as nat),
            r@[0].source_count == source_count,
    {
        let level: &str = if source_count >= 10 {
            "high"
        } else if source_count >= 3 {
            "medium"
        } else {
            "low"
        };
        let mut v: Vec<CoverageTag> = Vec::new();
        v.push(CoverageTag { section: owned("전체"), level: owned(level), source_count });
        v
    }

    /// The text of a coverage tag: `[coverage: {level} -- {count} sources]`.
    pub fn format_tag(tag: &CoverageTag) -> (r: String)
        ensures
            r@ == tag_text(tag.level@, tag.source_count as nat),
    {
        let mut r = owned("[coverage: ");
        push_str(&mut r, tag.level.as_str());
        push_str(&mut r, " -- ");
        let n = format_dec(tag.source_count as u64);
        push_str(&mut r, n.as_str());
        push_str(&mut r, " sources]");
        r
    }
}

// ---------------------------------------------------------------------------
// Reports
// ---------------------------------------------------------------------------

/// A document updated by a cross-reference update.
#[derive(Debug, Clone)]
pub struct CrossRefUpdate {
    pub doc_id: String,
    pub change_summary: String,
    pub relation_type: RelationType,
}

/// The kinds of entity: the rules find people, amounts, technologies and
/// projects; the language model names any of them.
#[derive(Debug, Clone, Copy, PartialEq, Eq, Structural)]
pub enum EntityType {
    Person,
    Organization,
    Place,
    Amount,
    Technology,
    Project,
    Concept,
}

/// An entity found in a document.
#[derive(Debug, Clone)]
pub struct Entity {
    pub id: String,
    pub name: String,
    pub entity_type: EntityType,
    pub doc_ids: Vec<String>,
    pub mention_count: usize,
    pub first_seen: String,
}

/// What a cross-reference update did.
#[derive(Debug, Clone)]
pub struct CrossRefReport {
    /// Related documents looked at.
    pub candidates_checked: u64,
    /// Documents updated.
    pub documents_updated: u64,
    /// Links created.
    pub links_created: u64,
    /// The updates, in order.
    pub updates: Vec<CrossRefUpdate>,
    /// Entities found.
    pub entities: Vec<Entity>,
}

impl Default for CrossRefReport {
    fn default() -> (r: Self)
        ensures
            r.candidates_checked == 0,
            r.documents_updated == 0,
            r.links_created == 0,
            r.updates@.len() == 0,
            r.entities@.len() == 0,
    {
        CrossRefReport {
            candidates_checked: 0,
            documents_updated: 0,
            links_created: 0,
            updates: Vec::new(),
            entities: Vec::new(),
        }
    }
}

/// The line of one update in a report.
pub open spec fn update_line(u: CrossRefUpdate) -> Seq<char> {
    "  - "@ + u.doc_id@ + " ("@ + relation_name(u.relation_type) + ": "@ + u.change_summary@ + ")"@
}

/// The text of a report.
pub open spec fn report_text(r: CrossRefReport) -> Seq<char> {
    "=== 교차참조 업데이트 ===\n후보 검토: "@ + dec_of(r.candidates_checked as nat) + " 문서\n실제 업데이트: "@
        + dec_of(r.documents_updated as nat) + " 문서\n링크 생성: "@ + dec_of(r.links_created as nat)
        + " 개\n"@ + join_sep(Seq::new(r.updates@.len(), |i: int| update_line(r.updates@[i])), "\n"@)
}

impl CrossRefReport {
    /// The report as text: the counts, then one line per update.
    pub fn summary(&self) -> (r: String)
        ensures
            r@ == report_text(*self),
    {
        let mut lines: Vec<String> = Vec::new();
        let mut i: usize = 0;
        while i < self.updates.len()
            invariant
                i <= self.updates@.len(),
                lines@.len() == i,
                forall|j: int| 0 <= j < i ==> (#[trigger] lines@[j])@ == update_line(self.updates@[j]),
            decreases self.updates@.len() - i,
        {
            let u = &self.updates[i];
            let mut l = owned("  - ");
            push_str(&mut l, u.doc_id.as_str());
            push_str(&mut l, " (");
            push_str(&mut l, u.relation_type.as_str());
            push_str(&mut l, ": ");
            push_str(&mut l, u.change_summary.as_str());
            push_str(&mut l, ")");
            lines.push(l);
            i = i + 1;
        }
        let mut r = owned("=== 교차참조 업데이트 ===\n후보 검토: ");
        let a = format_dec(self.candidates_checked);
        push_str(&mut r, a.as_str());
        push_str(&mut r, " 문서\n실제 업데이트: ");
        let b = format_dec(self.documents_updated);
        push_str(&mut r, b.as_str());
        push_str(&mut r, " 문서\n링크 생성: ");
        let c = format_dec(self.links_created);
        push_str(&mut r, c.as_str());
        push_str(&mut r, " 개\n");
        proof {
            assert(strs(lines@) =~= Seq::new(self.updates@.len(), |i: int| update_line(self.updates@[i])));
        }
        push_joined(&mut r, &lines, "\n");
        r
    }
}

// ---------------------------------------------------------------------------
// Entities found by rules
// ---------------------------------------------------------------------------

/// The capture groups of every match of `pattern` in `text`, as
/// `regex::Regex::captures_iter` finds them: for each match, group 0 (the
/// whole match) and then each group in order, empty for a group that took no
/// part; no match at all when the pattern does not compile.
pub uninterp spec fn regex_captures(pattern: Seq<char>, text: Seq<char>) -> Seq<Seq<Seq<char>>>;

/// Runs `regex::Regex::captures_iter` of `pattern` over `text`.
#[verifier::external_body]
pub(crate) fn capture_groups(pattern: &str, text: &str) -> (r: Vec<Vec<String>>)
    ensures
        Seq::new(r@.len(), |i: int| strs(r@[i]@)) == regex_captures(pattern@, text@),
{
    match regex::Regex::new(pattern) {
        Ok(re) => re.captures_iter(text).map(|c| {
            c.iter().map(|m| m.map(|m| m.as_str().to_string()).unwrap_or_default()).collect()
        }).collect(),
        Err(_) => Vec::new(),
    }
}

/// The value of `std::collections::hash_map::DefaultHasher::new()` after
/// hashing `s`.
pub uninterp spec fn default_hash(s: Seq<char>) -> u64;

/// Hashes a string with a new `DefaultHasher`. Its keys are fixed, so the
/// value is a function of the string alone for a given build; std leaves the
/// algorithm free to change between releases, and the contract claims no
/// particular value.
#[verifier::external_body]
fn hash_str(s: &str) -> (r: u64)
    ensures
        r == default_hash(s@),
{
    let mut h = std::collections::hash_map::DefaultHasher::new();
    std::hash::Hash::hash(s, &mut h);
    std::hash::Hasher::finish(&h)
}

/// The hash text of a name: sixteen hexadecimal digits of the hash of its
/// lowercase form.
pub open spec fn name_hash(name: Seq<char>) -> Seq<char> {
    hex_padded(default_hash(lowercase(name)) as nat, 16)
}

/// Sixteen hexadecimal digits of the hash of the lowercase name.
pub fn hash_name(name: &str) -> (r: String)
    ensures
        r@ == name_hash(name@),
{
    let l = str_to_lowercase(name);
    let h = hash_str(l.as_str());
    format_hex(h as u128, 16)
}

/// The pattern of person names: two to four Hangul syllables before `(`.
pub open spec fn person_pattern() -> Seq<char> {
    "([가-힣]{2,4})\\s*\\("@
}

/// The pattern of amounts: a number and a unit.
pub open spec fn amount_pattern() -> Seq<char> {
    "(\\d[\\d,.]*)\\s*(만원|억원|원|달러|\\$|USD)"@
}

/// The pattern of technology names.
pub open spec fn tech_pattern() -> Seq<char> {
    "\\b([A-Z][a-zA-Z]+(?:\\.[a-zA-Z]+)*(?:\\s+\\d+(?:\\.\\d+)*)?)\\b"@
}

/// The pattern of project names.
pub open spec fn project_pattern() -> Seq<char> {
    "(?:프로젝트|Project)\\s+([A-Za-z가-힣]\\S*)"@
}

/// Words that are never technology names.
pub open spec fn stopwords() -> Seq<Seq<char>> {
    seq![
        "The"@, "This"@, "That"@, "These"@, "Those"@, "When"@, "Where"@, "What"@, "How"@,
        "From"@, "With"@, "About"@, "After"@, "Before"@, "During"@, "Into"@, "Through"@,
        "Between"@,
    ]
}

/// Group `g` of a match (empty when the match has fewer groups).
pub open spec fn group(m: Seq<Seq<char>>, g: int) -> Seq<char> {
    if 0 <= g < m.len() {
        m[g]
    } else {
        seq![]
    }
}

/// The candidate (none or one) that one match of a rule gives.
pub open spec fn cand_step(m: Seq<Seq<char>>, kind: EntityType) -> Seq<(Seq<char>, EntityType)> {
    match kind {
        EntityType::Person => seq![(group(m, 1), kind)],
        EntityType::Amount => seq![(group(m, 1) + group(m, 2), kind)],
        EntityType::Technology => {
            let n = group(m, 1);
            if byte_len(n) >= 3 && !stopwords().contains(n) {
                seq![(n, kind)]
            } else {
                seq![]
            }
        },
        EntityType::Project => seq![("프로젝트 "@ + group(m, 1), kind)],
        _ => seq![],
    }
}

/// The candidates, in order, that the matches of one rule give.
pub open spec fn candidates_of(ms: Seq<Seq<Seq<char>>>, kind: EntityType) -> Seq<(Seq<char>, EntityType)>
    decreases ms.len(),
{
    if ms.len() == 0 {
        seq![]
    } else {
        candidates_of(ms.drop_last(), kind) + cand_step(ms.last(), kind)
    }
}

/// Every candidate of the four rules over `text`, rule by rule.
pub open spec fn all_candidates(text: Seq<char>) -> Seq<(Seq<char>, EntityType)> {
    candidates_of(regex_captures(person_pattern(), text), EntityType::Person) + candidates_of(
        regex_captures(amount_pattern(), text),
        EntityType::Amount,
    ) + candidates_of(regex_captures(tech_pattern(), text), EntityType::Technology) + candidates_of(
        regex_captures(project_pattern(), text),
        EntityType::Project,
    )
}

/// The names of candidates.
pub open spec fn cand_names(c: Seq<(Seq<char>, EntityType)>) -> Seq<Seq<char>> {
    Seq::new(c.len(), |i: int| c[i].0)
}

/// The candidates whose name did not occur before, in order.
pub open spec fn first_of_each(c: Seq<(Seq<char>, EntityType)>) -> Seq<(Seq<char>, EntityType)>
    decreases c.len(),
{
    if c.len() == 0 {
        seq![]
    } else {
        let rest = first_of_each(c.drop_last());
        if cand_names(c.drop_last()).contains(c.last().0) {
            rest
        } else {
            rest.push(c.last())
        }
    }
}

/// The prefix of the id of an entity of a kind.
pub open spec fn kind_prefix(k: EntityType) -> Seq<char> {
    match k {
        EntityType::Person => "person_"@,
        EntityType::Amount => "amount_"@,
        EntityType::Technology => "tech_"@,
        EntityType::Project => "project_"@,
        EntityType::Organization => "organization_"@,
        EntityType::Place => "place_"@,
        EntityType::Concept => "concept_"@,
    }
}

/// The views of candidates.
pub open spec fn cand_views(v: Seq<(String, EntityType)>) -> Seq<(Seq<char>, EntityType)> {
    Seq::new(v.len(), |i: int| (v[i].0@, v[i].1))
}

/// Appends the candidate of one match.
fn push_candidate(m: &Vec<String>, kind: EntityType, stop: &Vec<String>, out: &mut Vec<(String, EntityType)>)
    requires
        strs(stop@) == stopwords(),
    ensures
        cand_views(final(out)@) == cand_views(old(out)@) + cand_step(strs(m@), kind),
{
    let g1: String = if m.len() > 1 {
        m[1].clone()
    } else {
        String::new()
    };
    proof {
        assert(g1@ == group(strs(m@), 1));
    }
    let ghost before = cand_views(out@);
    match kind {
        EntityType::Person => {
            out.push((g1, kind));
        },
        EntityType::Amount => {
            let mut a = g1;
            if m.len() > 2 {
                push_str(&mut a, m[2].as_str());
            } else {
                proof {
                    assert(group(strs(m@), 2) =~= Seq::<char>::empty());
                    assert(a@ + group(strs(m@), 2) =~= a@);
                }
            }
            out.push((a, kind));
        },
        EntityType::Technology => {
            let gc = chars_of(g1.as_str());
            if crate::text::byte_len_reaches(gc.as_slice(), 3) && !contains_string(stop, &g1) {
                out.push((g1, kind));
            }
        },
        EntityType::Project => {
            let mut p = owned("프로젝트 ");
            push_str(&mut p, g1.as_str());
            out.push((p, kind));
        },
        _ => {},
    }
    proof {
        assert(cand_views(out@) =~= before + cand_step(strs(m@), kind));
    }
}

/// The candidates of one rule.
fn rule_candidates(pattern: &str, text: &str, kind: EntityType, out: &mut Vec<(String, EntityType)>)
    ensures
        cand_views(final(out)@) == cand_views(old(out)@) + candidates_of(
            regex_captures(pattern@, text@),
            kind,
        ),
{
    let caps = capture_groups(pattern, text);
    let ghost ms = regex_captures(pattern@, text@);
    let ghost start = cand_views(out@);
    let stop = stopword_list();
    proof {
        assert(ms.take(0) =~= Seq::<Seq<Seq<char>>>::empty());
        assert(start + candidates_of(ms.take(0), kind) =~= start);
    }
    let mut i: usize = 0;
    while i < caps.len()
        invariant
            i <= caps@.len(),
            ms == regex_captures(pattern@, text@),
            Seq::new(caps@.len(), |k: int| strs(caps@[k]@)) == ms,
            strs(stop@) == stopwords(),
            cand_views(out@) == start + candidates_of(ms.take(i as int), kind),
        decreases caps@.len() - i,
    {
        proof {
            assert(ms.take(i + 1).drop_last() =~= ms.take(i as int));
            assert(ms.take(i + 1).last() == strs(caps@[i as int]@));
        }
        push_candidate(&caps[i], kind, &stop, out);
        proof {
            assert(cand_views(out@) =~= start + candidates_of(ms.take(i + 1), kind));
        }
        i = i + 1;
    }
    proof {
        assert(ms.take(caps@.len() as int) =~= ms);
    }
}

/// The words that are never technology names.
fn stopword_list() -> (r: Vec<String>)
    ensures
        strs(r@) == stopwords(),
{
    let mut v: Vec<String> = Vec::new();
    v.push(owned("The"));
    v.push(owned("This"));
    v.push(owned("That"));
    v.push(owned("These"));
    v.push(owned("Those"));
    v.push(owned("When"));
    v.push(owned("Where"));
    v.push(owned("What"));
    v.push(owned("How"));
    v.push(owned("From"));
    v.push(owned("With"));
    v.push(owned("About"));
    v.push(owned("After"));
    v.push(owned("Before"));
    v.push(owned("During"));
    v.push(owned("Into"));
    v.push(owned("Through"));
    v.push(owned("Between"));
    proof {
        assert(strs(v@) =~= stopwords());
    }
    v
}

/// Whether `s` is one of `v`.
fn contains_string(v: &Vec<String>, s: &String) -> (b: bool)
    ensures
        b == strs(v@).contains(s@),
{
    let mut i: usize = 0;
    while i < v.len()
        invariant
            i <= v@.len(),
            forall|k: int| 0 <= k < i ==> strs(v@)[k] != s@,
        decreases v@.len() - i,
    {
        if crate::text::same_text(v[i].as_str(), s.as_str()) {
            proof {
                assert(strs(v@)[i as int] == s@);
            }
            return true;
        }
        i = i + 1;
    }
    false
}

/// The prefix of the id of an entity of a kind.
fn kind_prefix_text(k: EntityType) -> (r: &'static str)
    ensures
        r@ == kind_prefix(k),
{
    match k {
        EntityType::Person => "person_",
        EntityType::Amount => "amount_",
        EntityType::Technology => "tech_",
        EntityType::Project => "project_",
        EntityType::Organization => "organization_",
        EntityType::Place => "place_",
        EntityType::Concept => "concept_",
    }
}

/// An entity made from a candidate of the document `doc_id` found on `date`.
pub open spec fn entity_of(e: Entity, c: (Seq<char>, EntityType), doc_id: Seq<char>, date: Seq<char>) -> bool {
    &&& e.name@ == c.0
    &&& e.entity_type == c.1
    &&& e.id@ == kind_prefix(c.1) + name_hash(c.0)
    &&& e.doc_ids@.len() == 1
    &&& e.doc_ids@[0]@ == doc_id
    &&& e.mention_count == 1
    &&& e.first_seen@ == date
}

/// The entity of a candidate.
fn make_entity(name: &String, kind: EntityType, doc_id: &str, date: &str) -> (e: Entity)
    ensures
        entity_of(e, (name@, kind), doc_id@, date@),
{
    let mut id = owned(kind_prefix_text(kind));
    let h = hash_name(name.as_str());
    push_str(&mut id, h.as_str());
    let mut ids: Vec<String> = Vec::new();
    ids.push(owned(doc_id));
    Entity { id, name: name.clone(), entity_type: kind, doc_ids: ids, mention_count: 1, first_seen: owned(date) }
}

proof fn lemma_seen_iff(a: Seq<Seq<char>>, b: Seq<Seq<char>>, x: Seq<char>)
    requires
        a.to_set() == b.to_set(),
    ensures
        a.contains(x) <==> b.contains(x),
{
    if a.contains(x) {
        assert(a.to_set().contains(x));
    }
    if b.contains(x) {
        assert(b.to_set().contains(x));
    }
}

/// The kind that a type name of the language model stands for; an unknown
/// name stands for a concept.
pub open spec fn entity_type_named(t: Seq<char>) -> EntityType {
    if t == "person"@ {
        EntityType::Person
    } else if t == "organization"@ {
        EntityType::Organization
    } else if t == "place"@ {
        EntityType::Place
    } else if t == "technology"@ {
        EntityType::Technology
    } else if t == "amount"@ {
        EntityType::Amount
    } else if t == "project"@ {
        EntityType::Project
    } else {
        EntityType::Concept
    }
}

/// The kind that a type name of the language model stands for.
pub fn entity_type_from_name(t: &str) -> (r: EntityType)
    ensures
        r == entity_type_named(t@),
{
    if same_text(t, "person") {
        EntityType::Person
    } else if same_text(t, "organization") {
        EntityType::Organization
    } else if same_text(t, "place") {
        EntityType::Place
    } else if same_text(t, "technology") {
        EntityType::Technology
    } else if same_text(t, "amount") {
        EntityType::Amount
    } else if same_text(t, "project") {
        EntityType::Project
    } else {
        EntityType::Concept
    }
}

/// The entity that the language model named `name` with the type name `t`,
/// in the document `doc_id` on `date`: its id is the type name as given, `_`
/// and the hash of the lowercase name in hexadecimal without padding.
pub open spec fn llm_entity_of(e: Entity, name: Seq<char>, t: Seq<char>, doc_id: Seq<char>, date: Seq<char>) -> bool {
    &&& e.name@ == name
    &&& e.entity_type == entity_type_named(t)
    &&& e.id@ == t + seq!['_'] + hex_padded(default_hash(lowercase(name)) as nat, 0)
    &&& e.doc_ids@.len() == 1
    &&& e.doc_ids@[0]@ == doc_id
    &&& e.mention_count == 1
    &&& e.first_seen@ == date
}

/// The entities that the language model gave as (name, type name) pairs, in
/// their order, for the document `doc_id` on `date`.
pub fn entities_from_model(named: &Vec<(String, String)>, doc_id: &str, date: &str) -> (r: Vec<Entity>)
    ensures
        r@.len() == named@.len(),
        forall|i: int|
            0 <= i < r@.len() ==> llm_entity_of(#[trigger] r@[i], named@[i].0@, named@[i].1@, doc_id@, date@),
{
    let mut out: Vec<Entity> = Vec::new();
    let mut i: usize = 0;
    while i < named.len()
        invariant
            i <= named@.len(),
            out@.len() == i,
            forall|k: int|
                0 <= k < i ==> llm_entity_of(#[trigger] out@[k], named@[k].0@, named@[k].1@, doc_id@, date@),
        decreases named@.len() - i,
    {
        let name = &named[i].0;
        let t = &named[i].1;
        let l = str_to_lowercase(name.as_str());
        let h = hash_str(l.as_str());
        let mut id = owned(t.as_str());
        push_str(&mut id, "_");
        let hx = format_hex(h as u128, 0);
        push_str(&mut id, hx.as_str());
        proof {
            reveal_strlit("_");
            assert("_"@ =~= seq!['_']);
        }
        let mut ids: Vec<String> = Vec::new();
        ids.push(owned(doc_id));
        out.push(Entity {
            id,
            name: owned(name.as_str()),
            entity_type: entity_type_from_name(t.as_str()),
            doc_ids: ids,
            mention_count: 1,
            first_seen: owned(date),
        });
        i = i + 1;
    }
    out
}

/// The entities of a processed document: those the language model named,
/// when it named any; else those the rules find in its text.
pub fn document_entities(named: &Vec<(String, String)>, text: &str, doc_id: &str, date: &str) -> (r: Vec<Entity>)
    ensures
        named@.len() > 0 ==> r@.len() == named@.len() && forall|i: int|
            0 <= i < r@.len() ==> llm_entity_of(#[trigger] r@[i], named@[i].0@, named@[i].1@, doc_id@, date@),
        named@.len() == 0 ==> r@.len() == first_of_each(all_candidates(text@)).len() && forall|i: int|
            0 <= i < r@.len() ==> entity_of(#[trigger] r@[i], first_of_each(all_candidates(text@))[i], doc_id@, date@),
{
    if named.len() > 0 {
        entities_from_model(named, doc_id, date)
    } else {
        CrossRefUpdater::extract_entities(text, doc_id, date)
    }
}

/// Updates documents after a new one was processed.
pub struct CrossRefUpdater;

/// One link to create: from, to, and the relation.
#[derive(Debug, Clone)]
pub struct PlannedLink {
    pub source_id: String,
    pub target_id: String,
    pub relation: RelationType,
}

/// The links that the wikilinks of `text` ask for: for each distinct target
/// that resolves to a document other than `new_doc_id`, a `References` link
/// from the new document and a `ReferencedBy` link back.
pub open spec fn wikilink_plan(new_doc_id: Seq<char>, targets: Seq<Seq<char>>, docs: Seq<StoredDocSummary>) -> Seq<
    (Seq<char>, Seq<char>, RelationType),
>
    decreases targets.len(),
{
    if targets.len() == 0 {
        seq![]
    } else {
        let rest = wikilink_plan(new_doc_id, targets.drop_last(), docs);
        match resolve_spec(targets.last(), docs) {
            Some(id) => if id == new_doc_id {
                rest
            } else {
                rest + seq![
                    (new_doc_id, id, RelationType::References),
                    (id, new_doc_id, RelationType::ReferencedBy),
                ]
            },
            None => rest,
        }
    }
}

/// The views of planned links.
pub open spec fn link_views(v: Seq<PlannedLink>) -> Seq<(Seq<char>, Seq<char>, RelationType)> {
    Seq::new(v.len(), |i: int| (v[i].source_id@, v[i].target_id@, v[i].relation))
}

impl CrossRefUpdater {
    /// The entities that the rules find in `text` (people, amounts,
    /// technologies, projects, in that order), each name once, as found in
    /// the document `doc_id` on `date`.
    pub fn extract_entities(text: &str, doc_id: &str, date: &str) -> (r: Vec<Entity>)
        ensures
            r@.len() == first_of_each(all_candidates(text@)).len(),
            forall|i: int|
                0 <= i < r@.len() ==> entity_of(
                    #[trigger] r@[i],
                    first_of_each(all_candidates(text@))[i],
                    doc_id@,
                    date@,
                ),
    {
        let mut cands: Vec<(String, EntityType)> = Vec::new();
        rule_candidates("([가-힣]{2,4})\\s*\\(", text, EntityType::Person, &mut cands);
        rule_candidates("(\\d[\\d,.]*)\\s*(만원|억원|원|달러|\\$|USD)", text, EntityType::Amount, &mut cands);
        rule_candidates(
            "\\b([A-Z][a-zA-Z]+(?:\\.[a-zA-Z]+)*(?:\\s+\\d+(?:\\.\\d+)*)?)\\b",
            text,
            EntityType::Technology,
            &mut cands,
        );
        rule_candidates("(?:프로젝트|Project)\\s+([A-Za-z가-힣]\\S*)", text, EntityType::Project, &mut cands);
        let ghost cs = cand_views(cands@);
        proof {
            assert(cs =~= all_candidates(text@));
        }
        let mut names: Vec<String> = Vec::new();
        let mut out: Vec<Entity> = Vec::new();
        let mut i: usize = 0;
        while i < cands.len()
            invariant
                i <= cands@.len(),
                cs == cand_views(cands@),
                cs == all_candidates(text@),
                out@.len() == names@.len(),
                strs(names@) == cand_names(first_of_each(cs.take(i as int))),
                strs(names@).to_set() == cand_names(cs.take(i as int)).to_set(),
                out@.len() == first_of_each(cs.take(i as int)).len(),
                forall|k: int|
                    0 <= k < out@.len() ==> entity_of(
                        #[trigger] out@[k],
                        first_of_each(cs.take(i as int))[k],
                        doc_id@,
                        date@,
                    ),
            decreases cands@.len() - i,
        {
            let ghost pre = cs.take(i as int);
            let ghost cur = cs.take(i + 1);
            proof {
                assert(cur.drop_last() =~= pre);
                assert(cur.last() == cs[i as int]);
                lemma_seen_iff(strs(names@), cand_names(pre), cs[i as int].0);
                assert(cand_names(cur) =~= cand_names(pre).push(cs[i as int].0));
                cand_names(pre).lemma_push_to_set_commute(cs[i as int].0);
            }
            let seen = contains_string(&names, &cands[i].0);
            if !seen {
                let e = make_entity(&cands[i].0, cands[i].1, doc_id, date);
                let ghost nb = names@;
                let ghost ob = out@;
                names.push(cands[i].0.clone());
                out.push(e);
                proof {
                    assert(strs(names@) =~= strs(nb).push(cs[i as int].0));
                    assert(first_of_each(cur) == first_of_each(pre).push(cs[i as int]));
                    assert(cand_names(first_of_each(cur)) =~= cand_names(first_of_each(pre)).push(
                        cs[i as int].0,
                    ));
                    strs(nb).lemma_push_to_set_commute(cs[i as int].0);
                    assert forall|k: int| 0 <= k < out@.len() implies entity_of(
                        #[trigger] out@[k],
                        first_of_each(cur)[k],
                        doc_id@,
                        date@,
                    ) by {
                        if k < ob.len() {
                            assert(out@[k] == ob[k]);
                        }
                    }
                }
            } else {
                proof {
                    assert(first_of_each(cur) == first_of_each(pre));
                    assert(strs(names@).to_set() =~= cand_names(cur).to_set());
                }
            }
            i = i + 1;
        }
        proof {
            assert(cs.take(cands@.len() as int) =~= cs);
        }
        out
    }

    /// The links that the wikilinks of `text` ask for, against the documents
    /// `all`: two links (there and back) for each distinct target that
    /// resolves to another document.
    pub fn link_wikilinks(new_doc_id: &str, text: &str, all: &[StoredDocSummary]) -> (r: Vec<
        PlannedLink,
    >)
        ensures
            link_views(r@) == wikilink_plan(new_doc_id@, unique_nonempty(link_scan(text@, 0)), all@),
    {
        let targets = extract_wikilinks(text);
        let ghost ts = unique_nonempty(link_scan(text@, 0));
        proof {
            assert(strs(targets@) =~= ts);
        }
        let mut out: Vec<PlannedLink> = Vec::new();
        let mut i: usize = 0;
        while i < targets.len()
            invariant
                i <= targets@.len(),
                strs(targets@) == ts,
                link_views(out@) == wikilink_plan(new_doc_id@, ts.take(i as int), all@),
            decreases targets@.len() - i,
        {
            proof {
                assert(ts.take(i + 1).drop_last() =~= ts.take(i as int));
                assert(ts.take(i + 1).last() == targets@[i as int]@);
            }
            let ghost before = out@;
            match resolve_wikilink_target(targets[i].as_str(), all) {
                Some(id) => {
                    if !crate::text::same_text(id.as_str(), new_doc_id) {
                        out.push(
                            PlannedLink {
                                source_id: owned(new_doc_id),
                                target_id: id.clone(),
                                relation: RelationType::References,
                            },
                        );
                        out.push(
                            PlannedLink {
                                source_id: id,
                                target_id: owned(new_doc_id),
                                relation: RelationType::ReferencedBy,
                            },
                        );
                    }
                },
                None => {},
            }
            proof {
                assert(link_views(out@) =~= wikilink_plan(new_doc_id@, ts.take(i + 1), all@));
            }
            i = i + 1;
        }
        proof {
            assert(ts.take(targets@.len() as int) =~= ts);
        }
        out
    }
}


// ---------------------------------------------------------------------------
// Candidates of a new document
// ---------------------------------------------------------------------------

/// Metadata blocking: a candidate passes when it is unknown, shares a
/// document type with the new document, or shares one of its keywords (when
/// the candidate's keywords are known).
pub open spec fn blocking_passes(
    item_types: Seq<Seq<char>>,
    item_keywords: Seq<Seq<char>>,
    cand: Option<(Seq<Seq<char>>, Option<Seq<Seq<char>>>)>,
) -> bool {
    match cand {
        None => true,
        Some((types, kws)) => shares(types, item_types) || match kws {
            Some(k) => shares(k, item_keywords),
            None => false,
        },
    }
}

/// Some element of `a` is in `b`.
pub open spec fn shares(a: Seq<Seq<char>>, b: Seq<Seq<char>>) -> bool {
    exists|i: int| 0 <= i < a.len() && b.contains(#[trigger] a[i])
}

/// Whether some element of `a` is in `b`.
fn shares_any(a: &Vec<String>, b: &Vec<String>) -> (r: bool)
    ensures
        r == shares(strs(a@), strs(b@)),
{
    let mut i: usize = 0;
    while i < a.len()
        invariant
            i <= a@.len(),
            forall|k: int| 0 <= k < i ==> !strs(b@).contains(#[trigger] strs(a@)[k]),
        decreases a@.len() - i,
    {
        let mut j: usize = 0;
        while j < b.len()
            invariant
                j <= b@.len(),
                i < a@.len(),
                forall|m: int| 0 <= m < j ==> (#[trigger] strs(b@)[m]) != strs(a@)[i as int],
            decreases b@.len() - j,
        {
            if crate::text::same_text(b[j].as_str(), a[i].as_str()) {
                proof {
                    assert(strs(b@)[j as int] == strs(a@)[i as int]);
                    assert(strs(b@).contains(strs(a@)[i as int]));
                    assert(shares(strs(a@), strs(b@)));
                }
                return true;
            }
            j = j + 1;
        }
        proof {
            if strs(b@).contains(strs(a@)[i as int]) {
                let m = choose|m: int| 0 <= m < strs(b@).len() && strs(b@)[m] == strs(a@)[i as int];
            }
        }
        i = i + 1;
    }
    proof {
        if shares(strs(a@), strs(b@)) {
            let k = choose|k: int| 0 <= k < strs(a@).len() && strs(b@).contains(#[trigger] strs(a@)[k]);
            assert(k < i);
        }
    }
    false
}

/// Whether a candidate passes metadata blocking: `cand` holds its document
/// types and, when known, its keywords; `None` for a candidate without
/// metadata.
pub fn blocking_pass(
    item_types: &Vec<String>,
    item_keywords: &Vec<String>,
    cand: Option<(&Vec<String>, Option<&Vec<String>>)>,
) -> (r: bool)
    ensures
        r == blocking_passes(
            strs(item_types@),
            strs(item_keywords@),
            match cand {
                None => None,
                Some((t, k)) => Some(
                    (
                        strs(t@),
                        match k {
                            Some(kk) => Some(strs(kk@)),
                            None => None,
                        },
                    ),
                ),
            },
        ),
{
    match cand {
        None => true,
        Some((types, kws)) => {
            if shares_any(types, item_types) {
                return true;
            }
            match kws {
                Some(k) => shares_any(k, item_keywords),
                None => false,
            }
        },
    }
}

/// What is known of one candidate of a new document when links are chosen,
/// candidates taken by decreasing similarity.
#[derive(Debug, Clone)]
pub struct CandidateFacts {
    pub cand_id: String,
    /// A relation to it exists already.
    pub linked_already: bool,
    /// It has as many incoming relations as the cap allows.
    pub incoming_full: bool,
    /// Its similarity is above the supersedes threshold.
    pub above_supersedes: bool,
    /// Its similarity is above the similarity threshold.
    pub above_threshold: bool,
    /// It shares a document type with the new document.
    pub same_type: bool,
    /// Both documents have reliable dates.
    pub dates_reliable: bool,
    /// Both dates are reliable and equal.
    pub same_date: bool,
    /// Keywords shared with the new document.
    pub keyword_overlap: usize,
}

/// The caps of links per kind for one new document, and the shared keywords
/// that make two documents related.
#[derive(Debug, Clone, Copy)]
pub struct LinkCaps {
    pub supersedes: usize,
    pub updates: usize,
    pub related: usize,
    pub references: usize,
    pub keyword_overlap_min: usize,
}

/// The counts of links made so far, per kind: supersedes, updates, related,
/// references.
pub type LinkCounts = (nat, nat, nat, nat);

/// The link made for one candidate, with the counts before it: the relation
/// from the new document to the candidate and the one back; `None` for no
/// link.
pub open spec fn link_for(c: CandidateFacts, caps: LinkCaps, n: LinkCounts) -> Option<(RelationType, RelationType)> {
    if c.linked_already || c.incoming_full {
        None
    } else if c.above_supersedes && c.same_type && c.dates_reliable && n.0 < caps.supersedes {
        Some((RelationType::Supersedes, RelationType::References))
    } else if c.same_type && c.same_date && n.1 < caps.updates {
        Some((RelationType::Updates, RelationType::Updates))
    } else if c.keyword_overlap >= caps.keyword_overlap_min && n.2 < caps.related {
        Some((RelationType::RelatedTopic, RelationType::RelatedTopic))
    } else if c.above_threshold && n.3 < caps.references {
        Some((RelationType::References, RelationType::ReferencedBy))
    } else {
        None
    }
}

/// The counts after a link.
pub open spec fn count_after(n: LinkCounts, l: Option<(RelationType, RelationType)>) -> LinkCounts {
    match l {
        Some((RelationType::Supersedes, _)) => (n.0 + 1, n.1, n.2, n.3),
        Some((RelationType::Updates, _)) => (n.0, n.1 + 1, n.2, n.3),
        Some((RelationType::RelatedTopic, _)) => (n.0, n.1, n.2 + 1, n.3),
        Some((RelationType::References, _)) => (n.0, n.1, n.2, n.3 + 1),
        _ => n,
    }
}

/// The choice ends after a candidate that took the last case (no earlier
/// kind applied) once every cap is reached.
pub open spec fn stops_after(c: CandidateFacts, caps: LinkCaps, n: LinkCounts) -> bool {
    let l = link_for(c, caps, n);
    let m = count_after(n, l);
    let reached_end = !(c.linked_already || c.incoming_full) && !(l matches Some((k, _)) && k
        != RelationType::References);
    reached_end && m.0 >= caps.supersedes && m.1 >= caps.updates && m.2 >= caps.related && m.3
        >= caps.references
}

/// What a link of kind `f` (with the relation `b` back) asks of a candidate
/// it is made to: the candidate is not linked yet and takes incoming links;
/// a supersedes link needs a similarity above the supersedes threshold, a
/// shared document type and reliable dates (and is answered by a reference);
/// an update needs a shared document type and the same date (and is
/// answered by an update); a related-topic link needs enough shared
/// keywords; a reference needs a similarity above the threshold (and is
/// answered by a referenced-by link).
pub open spec fn link_justified(c: CandidateFacts, caps: LinkCaps, f: RelationType, b: RelationType) -> bool {
    &&& !c.linked_already
    &&& !c.incoming_full
    &&& match f {
        RelationType::Supersedes => b == RelationType::References && c.above_supersedes && c.same_type
            && c.dates_reliable,
        RelationType::Updates => b == RelationType::Updates && c.same_type && c.same_date,
        RelationType::RelatedTopic => b == RelationType::RelatedTopic && c.keyword_overlap
            >= caps.keyword_overlap_min,
        RelationType::References => b == RelationType::ReferencedBy && c.above_threshold,
        RelationType::ReferencedBy => false,
    }
}

/// The link made for a candidate: each kind only when the candidate
/// justifies it and its cap is not reached, and the strongest such kind in
/// the order supersedes, updates, related topic, reference; none when no
/// kind applies.
pub proof fn lemma_link_for_meaning(c: CandidateFacts, caps: LinkCaps, n: LinkCounts)
    ensures
        link_for(c, caps, n) matches Some((f, b)) ==> link_justified(c, caps, f, b),
        link_for(c, caps, n) matches Some((RelationType::Supersedes, _)) ==> n.0 < caps.supersedes,
        link_for(c, caps, n) matches Some((RelationType::Updates, _)) ==> n.1 < caps.updates
            && !(link_justified(c, caps, RelationType::Supersedes, RelationType::References) && n.0 < caps.supersedes),
        link_for(c, caps, n) matches Some((RelationType::RelatedTopic, _)) ==> n.2 < caps.related
            && !(link_justified(c, caps, RelationType::Supersedes, RelationType::References) && n.0 < caps.supersedes)
            && !(link_justified(c, caps, RelationType::Updates, RelationType::Updates) && n.1 < caps.updates),
        link_for(c, caps, n) matches Some((RelationType::References, _)) ==> n.3 < caps.references
            && !(link_justified(c, caps, RelationType::Supersedes, RelationType::References) && n.0 < caps.supersedes)
            && !(link_justified(c, caps, RelationType::Updates, RelationType::Updates) && n.1 < caps.updates)
            && !(link_justified(c, caps, RelationType::RelatedTopic, RelationType::RelatedTopic) && n.2 < caps.related),
        link_for(c, caps, n) is None ==> !(link_justified(c, caps, RelationType::Supersedes, RelationType::References)
            && n.0 < caps.supersedes) && !(link_justified(c, caps, RelationType::Updates, RelationType::Updates) && n.1
            < caps.updates) && !(link_justified(c, caps, RelationType::RelatedTopic, RelationType::RelatedTopic) && n.2
            < caps.related) && !(link_justified(c, caps, RelationType::References, RelationType::ReferencedBy) && n.3
            < caps.references),
{
}

/// Every planned link goes to a candidate (from position `i` on) that
/// justifies it: an update only to a document of a shared type with the
/// same date, and so on (see `link_justified`).
pub proof fn lemma_planned_links_justified(cs: Seq<CandidateFacts>, caps: LinkCaps, i: int, n: LinkCounts)
    ensures
        forall|k: int|
            0 <= k < plan_from(cs, caps, i, n).len() ==> exists|j: int|
                i <= j < cs.len() && cs[j].cand_id@ == (#[trigger] plan_from(cs, caps, i, n)[k]).0
                    && link_justified(cs[j], caps, plan_from(cs, caps, i, n)[k].1, plan_from(cs, caps, i, n)[k].2),
    decreases cs.len() - i,
{
    if 0 <= i < cs.len() {
        let c = cs[i];
        let l = link_for(c, caps, n);
        lemma_link_for_meaning(c, caps, n);
        let rest = if stops_after(c, caps, n) {
            seq![]
        } else {
            plan_from(cs, caps, i + 1, count_after(n, l))
        };
        if !stops_after(c, caps, n) {
            lemma_planned_links_justified(cs, caps, i + 1, count_after(n, l));
        }
        let p = plan_from(cs, caps, i, n);
        assert forall|k: int| 0 <= k < p.len() implies exists|j: int|
            i <= j < cs.len() && cs[j].cand_id@ == (#[trigger] p[k]).0 && link_justified(cs[j], caps, p[k].1, p[k].2) by {
            match l {
                Some((f, b)) => {
                    if k == 0 {
                        assert(p[0] == (c.cand_id@, f, b));
                    } else {
                        assert(p[k] == rest[k - 1]);
                        let j = choose|j: int| i + 1 <= j < cs.len() && cs[j].cand_id@ == rest[k - 1].0
                            && link_justified(cs[j], caps, rest[k - 1].1, rest[k - 1].2);
                    }
                },
                None => {
                    assert(p[k] == rest[k]);
                    let j = choose|j: int| i + 1 <= j < cs.len() && cs[j].cand_id@ == rest[k].0
                        && link_justified(cs[j], caps, rest[k].1, rest[k].2);
                },
            }
        }
    }
}

/// The same for the earlier planning with separate caps to stop on.
pub proof fn lemma_split_links_justified(cs: Seq<CandidateFacts>, caps: LinkCaps, stop: LinkCaps, i: int, n: LinkCounts)
    ensures
        forall|k: int|
            0 <= k < plan_split(cs, caps, stop, i, n).len() ==> exists|j: int|
                i <= j < cs.len() && cs[j].cand_id@ == (#[trigger] plan_split(cs, caps, stop, i, n)[k]).0
                    && link_justified(
                    cs[j],
                    caps,
                    plan_split(cs, caps, stop, i, n)[k].1,
                    plan_split(cs, caps, stop, i, n)[k].2,
                ),
    decreases cs.len() - i,
{
    if 0 <= i < cs.len() {
        let c = cs[i];
        let l = link_for(c, caps, n);
        lemma_link_for_meaning(c, caps, n);
        let rest = if stops_split(c, caps, stop, n) {
            seq![]
        } else {
            plan_split(cs, caps, stop, i + 1, count_after(n, l))
        };
        if !stops_split(c, caps, stop, n) {
            lemma_split_links_justified(cs, caps, stop, i + 1, count_after(n, l));
        }
        let p = plan_split(cs, caps, stop, i, n);
        assert forall|k: int| 0 <= k < p.len() implies exists|j: int|
            i <= j < cs.len() && cs[j].cand_id@ == (#[trigger] p[k]).0 && link_justified(cs[j], caps, p[k].1, p[k].2) by {
            match l {
                Some((f, b)) => {
                    if k == 0 {
                        assert(p[0] == (c.cand_id@, f, b));
                    } else {
                        assert(p[k] == rest[k - 1]);
                        let j = choose|j: int| i + 1 <= j < cs.len() && cs[j].cand_id@ == rest[k - 1].0
                            && link_justified(cs[j], caps, rest[k - 1].1, rest[k - 1].2);
                    }
                },
                None => {
                    assert(p[k] == rest[k]);
                    let j = choose|j: int| i + 1 <= j < cs.len() && cs[j].cand_id@ == rest[k].0
                        && link_justified(cs[j], caps, rest[k].1, rest[k].2);
                },
            }
        }
    }
}

/// The links chosen for the candidates `cs[i..]` with the counts `n`: one
/// (candidate, relation, relation back) per link, in order.
pub open spec fn plan_from(cs: Seq<CandidateFacts>, caps: LinkCaps, i: int, n: LinkCounts) -> Seq<
    (Seq<char>, RelationType, RelationType),
>
    decreases cs.len() - i,
{
    if i < 0 || i >= cs.len() {
        seq![]
    } else {
        let c = cs[i];
        let l = link_for(c, caps, n);
        let rest = if stops_after(c, caps, n) {
            seq![]
        } else {
            plan_from(cs, caps, i + 1, count_after(n, l))
        };
        match l {
            Some((f, b)) => seq![(c.cand_id@, f, b)] + rest,
            None => rest,
        }
    }
}


/// The number of links of kind `k` in `ls`.
pub open spec fn links_of_kind(ls: Seq<(Seq<char>, RelationType, RelationType)>, k: RelationType) -> nat
    decreases ls.len(),
{
    if ls.len() == 0 {
        0
    } else {
        links_of_kind(ls.drop_last(), k) + if ls.last().1 == k {
            1nat
        } else {
            0nat
        }
    }
}

proof fn lemma_links_of_kind_prepend(x: (Seq<char>, RelationType, RelationType), ls: Seq<(Seq<char>, RelationType, RelationType)>, k: RelationType)
    ensures
        links_of_kind(seq![x] + ls, k) == links_of_kind(ls, k) + if x.1 == k { 1nat } else { 0nat },
    decreases ls.len(),
{
    if ls.len() > 0 {
        lemma_links_of_kind_prepend(x, ls.drop_last(), k);
        assert((seq![x] + ls).drop_last() =~= seq![x] + ls.drop_last());
        assert((seq![x] + ls).last() == ls.last());
    } else {
        assert(seq![x] + ls =~= seq![x]);
        assert(seq![x].drop_last() =~= Seq::<(Seq<char>, RelationType, RelationType)>::empty());
        assert(seq![x].last() == x);
        assert(links_of_kind(Seq::<(Seq<char>, RelationType, RelationType)>::empty(), k) == 0);
    }
}

/// The links chosen never exceed the cap of their kind: starting from counts
/// within the caps, each kind gets at most its cap in all.
pub proof fn lemma_plan_respects_caps(cs: Seq<CandidateFacts>, caps: LinkCaps, i: int, n: LinkCounts)
    requires
        0 <= i,
        n.0 <= caps.supersedes,
        n.1 <= caps.updates,
        n.2 <= caps.related,
        n.3 <= caps.references,
    ensures
        n.0 + links_of_kind(plan_from(cs, caps, i, n), RelationType::Supersedes) <= caps.supersedes,
        n.1 + links_of_kind(plan_from(cs, caps, i, n), RelationType::Updates) <= caps.updates,
        n.2 + links_of_kind(plan_from(cs, caps, i, n), RelationType::RelatedTopic) <= caps.related,
        n.3 + links_of_kind(plan_from(cs, caps, i, n), RelationType::References) <= caps.references,
    decreases cs.len() - i,
{
    if i < cs.len() {
        let c = cs[i];
        let l = link_for(c, caps, n);
        let m = count_after(n, l);
        lemma_plan_respects_caps(cs, caps, i + 1, m);
        let rest = if stops_after(c, caps, n) {
            seq![]
        } else {
            plan_from(cs, caps, i + 1, m)
        };
        match l {
            Some((f, b)) => {
                let x = (c.cand_id@, f, b);
                lemma_links_of_kind_prepend(x, rest, RelationType::Supersedes);
                lemma_links_of_kind_prepend(x, rest, RelationType::Updates);
                lemma_links_of_kind_prepend(x, rest, RelationType::RelatedTopic);
                lemma_links_of_kind_prepend(x, rest, RelationType::References);
            },
            None => {},
        }
    }
}

/// The links to make for the candidates `cs` of a new document, taken in
/// order (by decreasing similarity): a candidate linked already or whose
/// incoming relations are full is skipped; otherwise the first kind that
/// applies and is under its cap is chosen (supersedes, updates, related
/// topic, references); after a candidate that reached the references case,
/// the choice ends when every cap is reached.
pub fn plan_crossref_links(cs: &Vec<CandidateFacts>, caps: LinkCaps) -> (r: Vec<(String, RelationType, RelationType)>)
    ensures
        Seq::new(r@.len(), |k: int| (r@[k].0@, r@[k].1, r@[k].2)) == plan_from(cs@, caps, 0, (0, 0, 0, 0)),
        forall|k: int|
            0 <= k < r@.len() ==> exists|j: int|
                0 <= j < cs@.len() && cs@[j].cand_id@ == (#[trigger] r@[k]).0@ && link_justified(cs@[j], caps, r@[k].1, r@[k].2),
{
    let mut out: Vec<(String, RelationType, RelationType)> = Vec::new();
    let mut s: usize = 0;
    let mut u: usize = 0;
    let mut rl: usize = 0;
    let mut f: usize = 0;
    let mut i: usize = 0;
    let ghost total = plan_from(cs@, caps, 0, (0, 0, 0, 0));
    proof {
        assert(Seq::new(out@.len(), |k: int| (out@[k].0@, out@[k].1, out@[k].2)) + plan_from(
            cs@,
            caps,
            0,
            (0, 0, 0, 0),
        ) =~= total);
    }
    while i < cs.len()
        invariant
            i <= cs@.len(),
            s <= i && u <= i && rl <= i && f <= i,
            total == plan_from(cs@, caps, 0, (0, 0, 0, 0)),
            Seq::new(out@.len(), |k: int| (out@[k].0@, out@[k].1, out@[k].2)) + plan_from(
                cs@,
                caps,
                i as int,
                (s as nat, u as nat, rl as nat, f as nat),
            ) == total,
        decreases cs@.len() - i,
    {
        let c = &cs[i];
        let ghost n: LinkCounts = (s as nat, u as nat, rl as nat, f as nat);
        let ghost before = Seq::new(out@.len(), |k: int| (out@[k].0@, out@[k].1, out@[k].2));
        if c.linked_already || c.incoming_full {
            i = i + 1;
            continue;
        }
        let mut kind: Option<(RelationType, RelationType)> = None;
        if c.above_supersedes && c.same_type && c.dates_reliable && s < caps.supersedes {
            kind = Some((RelationType::Supersedes, RelationType::References));
            s = s + 1;
        } else if c.same_type && c.same_date && u < caps.updates {
            kind = Some((RelationType::Updates, RelationType::Updates));
            u = u + 1;
        } else if c.keyword_overlap >= caps.keyword_overlap_min && rl < caps.related {
            kind = Some((RelationType::RelatedTopic, RelationType::RelatedTopic));
            rl = rl + 1;
        } else if c.above_threshold && f < caps.references {
            kind = Some((RelationType::References, RelationType::ReferencedBy));
            f = f + 1;
        }
        proof {
            assert(kind == link_for(*c, caps, n));
            assert((s as nat, u as nat, rl as nat, f as nat) == count_after(n, kind));
        }
        if let Some((fw, bw)) = kind {
            out.push((c.cand_id.clone(), fw, bw));
            proof {
                let after = Seq::new(out@.len(), |k: int| (out@[k].0@, out@[k].1, out@[k].2));
                assert(after =~= before.push((c.cand_id@, fw, bw)));
            }
        }
        let last_case = match kind {
            None => true,
            Some((RelationType::References, _)) => true,
            Some(_) => false,
        };
        if last_case && s >= caps.supersedes && u >= caps.updates && rl >= caps.related && f
            >= caps.references {
            proof {
                assert(stops_after(*c, caps, n));
                let after = Seq::new(out@.len(), |k: int| (out@[k].0@, out@[k].1, out@[k].2));
                match kind {
                    Some((fw, bw)) => {
                        assert(plan_from(cs@, caps, i as int, n) =~= seq![(c.cand_id@, fw, bw)]);
                        assert(after =~= before + seq![(c.cand_id@, fw, bw)]);
                    },
                    None => {
                        assert(plan_from(cs@, caps, i as int, n) =~= Seq::<(Seq<char>, RelationType, RelationType)>::empty());
                    },
                }
                assert(after =~= total);
                lemma_result_justified(cs@, caps, out@);
            }
            return out;
        }
        proof {
            assert(!stops_after(*c, caps, n));
            let after = Seq::new(out@.len(), |k: int| (out@[k].0@, out@[k].1, out@[k].2));
            let rest = plan_from(cs@, caps, i + 1, count_after(n, kind));
            match kind {
                Some((fw, bw)) => {
                    assert(plan_from(cs@, caps, i as int, n) == seq![(c.cand_id@, fw, bw)] + rest);
                    assert(after + rest =~= before + (seq![(c.cand_id@, fw, bw)] + rest));
                },
                None => {
                    assert(plan_from(cs@, caps, i as int, n) == rest);
                },
            }
        }
        i = i + 1;
    }
    proof {
        assert(plan_from(cs@, caps, i as int, (s as nat, u as nat, rl as nat, f as nat)) =~= Seq::<(Seq<char>, RelationType, RelationType)>::empty());
        assert(Seq::new(out@.len(), |k: int| (out@[k].0@, out@[k].1, out@[k].2)) =~= total);
        lemma_result_justified(cs@, caps, out@);
    }
    out
}

proof fn lemma_result_justified(cs: Seq<CandidateFacts>, caps: LinkCaps, r: Seq<(String, RelationType, RelationType)>)
    requires
        Seq::new(r.len(), |k: int| (r[k].0@, r[k].1, r[k].2)) == plan_from(cs, caps, 0, (0, 0, 0, 0)),
    ensures
        forall|k: int|
            0 <= k < r.len() ==> exists|j: int|
                0 <= j < cs.len() && cs[j].cand_id@ == (#[trigger] r[k]).0@ && link_justified(cs[j], caps, r[k].1, r[k].2),
{
    let total = plan_from(cs, caps, 0, (0, 0, 0, 0));
    lemma_planned_links_justified(cs, caps, 0, (0, 0, 0, 0));
    assert forall|k: int| 0 <= k < r.len() implies exists|j: int|
        0 <= j < cs.len() && cs[j].cand_id@ == (#[trigger] r[k]).0@ && link_justified(cs[j], caps, r[k].1, r[k].2) by {
        assert(Seq::new(r.len(), |k: int| (r[k].0@, r[k].1, r[k].2))[k] == (r[k].0@, r[k].1, r[k].2));
        assert(total[k] == (r[k].0@, r[k].1, r[k].2));
    }
}


/// `stops_after` with separate caps for the choice (`caps`) and for the end
/// of the choice (`stop`).
pub open spec fn stops_split(c: CandidateFacts, caps: LinkCaps, stop: LinkCaps, n: LinkCounts) -> bool {
    let l = link_for(c, caps, n);
    let m = count_after(n, l);
    let reached_end = !(c.linked_already || c.incoming_full) && !(l matches Some((k, _)) && k
        != RelationType::References);
    reached_end && m.0 >= stop.supersedes && m.1 >= stop.updates && m.2 >= stop.related && m.3
        >= stop.references
}

/// `plan_from` with separate caps for the choice and for its end.
pub open spec fn plan_split(cs: Seq<CandidateFacts>, caps: LinkCaps, stop: LinkCaps, i: int, n: LinkCounts) -> Seq<
    (Seq<char>, RelationType, RelationType),
>
    decreases cs.len() - i,
{
    if i < 0 || i >= cs.len() {
        seq![]
    } else {
        let c = cs[i];
        let l = link_for(c, caps, n);
        let rest = if stops_split(c, caps, stop, n) {
            seq![]
        } else {
            plan_split(cs, caps, stop, i + 1, count_after(n, l))
        };
        match l {
            Some((f, b)) => seq![(c.cand_id@, f, b)] + rest,
            None => rest,
        }
    }
}

/// The caps of the earlier planning: at most 2 supersedes and 10 references
/// links, the other caps and the keyword minimum as configured.
pub open spec fn legacy_caps(caps: LinkCaps) -> LinkCaps {
    LinkCaps { supersedes: 2, references: 10, ..caps }
}

/// The links of the earlier planning: the kinds are chosen under at most 2
/// supersedes and 10 references links (the other caps as configured), and
/// the choice ends, after a candidate that reached the references case,
/// once the configured caps are all reached. The candidates' facts are
/// judged by the caller (references need a similarity above 0.7 there, and
/// incoming caps are not checked).
pub fn plan_crossref_links_legacy(cs: &Vec<CandidateFacts>, caps: LinkCaps) -> (r: Vec<(String, RelationType, RelationType)>)
    ensures
        Seq::new(r@.len(), |k: int| (r@[k].0@, r@[k].1, r@[k].2)) == plan_split(cs@, legacy_caps(caps), caps, 0, (0, 0, 0, 0)),
        forall|k: int|
            0 <= k < r@.len() ==> exists|j: int|
                0 <= j < cs@.len() && cs@[j].cand_id@ == (#[trigger] r@[k]).0@ && link_justified(
                    cs@[j],
                    legacy_caps(caps),
                    r@[k].1,
                    r@[k].2,
                ),
{
    let decide = LinkCaps { supersedes: 2, references: 10, ..caps };
    let r = plan_links_split(cs, decide, caps);
    proof {
        let total = plan_split(cs@, legacy_caps(caps), caps, 0, (0, 0, 0, 0));
        lemma_split_links_justified(cs@, legacy_caps(caps), caps, 0, (0, 0, 0, 0));
        assert forall|k: int| 0 <= k < r@.len() implies exists|j: int|
            0 <= j < cs@.len() && cs@[j].cand_id@ == (#[trigger] r@[k]).0@ && link_justified(
                cs@[j],
                legacy_caps(caps),
                r@[k].1,
                r@[k].2,
            ) by {
            assert(Seq::new(r@.len(), |k: int| (r@[k].0@, r@[k].1, r@[k].2))[k] == (r@[k].0@, r@[k].1, r@[k].2));
            assert(total[k] == (r@[k].0@, r@[k].1, r@[k].2));
        }
    }
    r
}

fn plan_links_split(cs: &Vec<CandidateFacts>, caps: LinkCaps, stop: LinkCaps) -> (r: Vec<(String, RelationType, RelationType)>)
    ensures
        Seq::new(r@.len(), |k: int| (r@[k].0@, r@[k].1, r@[k].2)) == plan_split(cs@, caps, stop, 0, (0, 0, 0, 0)),
{
    let mut out: Vec<(String, RelationType, RelationType)> = Vec::new();
    let mut s: usize = 0;
    let mut u: usize = 0;
    let mut rl: usize = 0;
    let mut f: usize = 0;
    let mut i: usize = 0;
    let ghost total = plan_split(cs@, caps, stop, 0, (0, 0, 0, 0));
    proof {
        assert(Seq::new(out@.len(), |k: int| (out@[k].0@, out@[k].1, out@[k].2)) + plan_split(cs@, caps, stop,
            0,
            (0, 0, 0, 0),
        ) =~= total);
    }
    while i < cs.len()
        invariant
            i <= cs@.len(),
            s <= i && u <= i && rl <= i && f <= i,
            total == plan_split(cs@, caps, stop, 0, (0, 0, 0, 0)),
            Seq::new(out@.len(), |k: int| (out@[k].0@, out@[k].1, out@[k].2)) + plan_split(cs@, caps, stop,
                i as int,
                (s as nat, u as nat, rl as nat, f as nat),
            ) == total,
        decreases cs@.len() - i,
    {
        let c = &cs[i];
        let ghost n: LinkCounts = (s as nat, u as nat, rl as nat, f as nat);
        let ghost before = Seq::new(out@.len(), |k: int| (out@[k].0@, out@[k].1, out@[k].2));
        if c.linked_already || c.incoming_full {
            i = i + 1;
            continue;
        }
        let mut kind: Option<(RelationType, RelationType)> = None;
        if c.above_supersedes && c.same_type && c.dates_reliable && s < caps.supersedes {
            kind = Some((RelationType::Supersedes, RelationType::References));
            s = s + 1;
        } else if c.same_type && c.same_date && u < caps.updates {
            kind = Some((RelationType::Updates, RelationType::Updates));
            u = u + 1;
        } else if c.keyword_overlap >= caps.keyword_overlap_min && rl < caps.related {
            kind = Some((RelationType::RelatedTopic, RelationType::RelatedTopic));
            rl = rl + 1;
        } else if c.above_threshold && f < caps.references {
            kind = Some((RelationType::References, RelationType::ReferencedBy));
            f = f + 1;
        }
        proof {
            assert(kind == link_for(*c, caps, n));
            assert((s as nat, u as nat, rl as nat, f as nat) == count_after(n, kind));
        }
        if let Some((fw, bw)) = kind {
            out.push((c.cand_id.clone(), fw, bw));
            proof {
                let after = Seq::new(out@.len(), |k: int| (out@[k].0@, out@[k].1, out@[k].2));
                assert(after =~= before.push((c.cand_id@, fw, bw)));
            }
        }
        let last_case = match kind {
            None => true,
            Some((RelationType::References, _)) => true,
            Some(_) => false,
        };
        if last_case && s >= stop.supersedes && u >= stop.updates && rl >= stop.related && f
            >= stop.references {
            proof {
                assert(stops_split(*c, caps, stop, n));
                let after = Seq::new(out@.len(), |k: int| (out@[k].0@, out@[k].1, out@[k].2));
                match kind {
                    Some((fw, bw)) => {
                        assert(plan_split(cs@, caps, stop, i as int, n) =~= seq![(c.cand_id@, fw, bw)]);
                        assert(after =~= before + seq![(c.cand_id@, fw, bw)]);
                    },
                    None => {
                        assert(plan_split(cs@, caps, stop, i as int, n) =~= Seq::<(Seq<char>, RelationType, RelationType)>::empty());
                    },
                }
                assert(after =~= total);
            }
            return out;
        }
        proof {
            assert(!stops_split(*c, caps, stop, n));
            let after = Seq::new(out@.len(), |k: int| (out@[k].0@, out@[k].1, out@[k].2));
            let rest = plan_split(cs@, caps, stop, i + 1, count_after(n, kind));
            match kind {
                Some((fw, bw)) => {
                    assert(plan_split(cs@, caps, stop, i as int, n) == seq![(c.cand_id@, fw, bw)] + rest);
                    assert(after + rest =~= before + (seq![(c.cand_id@, fw, bw)] + rest));
                },
                None => {
                    assert(plan_split(cs@, caps, stop, i as int, n) == rest);
                },
            }
        }
        i = i + 1;
    }
    proof {
        assert(plan_split(cs@, caps, stop, i as int, (s as nat, u as nat, rl as nat, f as nat)) =~= Seq::<(Seq<char>, RelationType, RelationType)>::empty());
        assert(Seq::new(out@.len(), |k: int| (out@[k].0@, out@[k].1, out@[k].2)) =~= total);
    }
    out
}

} // verus!
