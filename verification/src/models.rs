//! Document records shared by the library's functions.

use vstd::prelude::*;
use crate::cross_reference::RelationType;

verus! {

/// A stored document as the corpus lists it.
#[derive(Debug, Clone)]
pub struct StoredDocSummary {
    pub id: String,
    /// Path of the processed file.
    pub path: String,
    pub doc_types: Vec<String>,
    pub date: String,
}

/// A relation of one document to another, as the corpus stores it.
#[derive(Debug, Clone)]
pub struct DocRelation {
    pub source_id: String,
    pub target_id: String,
    pub relation: RelationType,
}

/// The plain value of a relation.
pub open spec fn relation_view(r: DocRelation) -> (Seq<char>, Seq<char>, RelationType) {
    (r.source_id@, r.target_id@, r.relation)
}

/// A document of the corpus with its types and its relations, as the checks
/// over the whole corpus read it.
#[derive(Debug, Clone)]
pub struct CorpusDoc {
    pub id: String,
    /// Path of the processed file.
    pub path: String,
    pub doc_types: Vec<String>,
    pub relations: Vec<DocRelation>,
}

/// The relations of the first document with the id `id`; none when no
/// document has it.
pub open spec fn relations_of(docs: Seq<CorpusDoc>, id: Seq<char>) -> Seq<DocRelation>
    decreases docs.len(),
{
    if docs.len() == 0 {
        seq![]
    } else if docs[0].id@ == id {
        docs[0].relations@
    } else {
        relations_of(docs.drop_first(), id)
    }
}

/// The relations of the first document of `docs` with the id `id`; `None`
/// when no document has that id.
pub fn find_relations<'a>(docs: &'a Vec<CorpusDoc>, id: &str) -> (r: Option<&'a Vec<DocRelation>>)
    ensures
        match r {
            Some(v) => v@ == relations_of(docs@, id@),
            None => relations_of(docs@, id@) == Seq::<DocRelation>::empty(),
        },
{
    let mut i: usize = 0;
    proof {
        assert(docs@.skip(0) =~= docs@);
    }
    while i < docs.len()
        invariant
            i <= docs@.len(),
            relations_of(docs@, id@) == relations_of(docs@.skip(i as int), id@),
        decreases docs@.len() - i,
    {
        proof {
            assert(docs@.skip(i as int).drop_first() =~= docs@.skip(i + 1));
            assert(docs@.skip(i as int)[0] == docs@[i as int]);
        }
        if crate::text::same_text(docs[i].id.as_str(), id) {
            return Some(&docs[i].relations);
        }
        i = i + 1;
    }
    proof {
        assert(docs@.skip(i as int) =~= Seq::<CorpusDoc>::empty());
    }
    None
}

} // verus!
