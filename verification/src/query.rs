//! Query composition and its selection semantics.
//!
//! Search parameters are all optional; each present field contributes one
//! sub-query with a boolean occurrence rule: free-text matching on the
//! path and name fields is a ranking signal (SHOULD), while the modified
//! date range and the metadata term are hard filters (MUST). A compound
//! query with at least one MUST clause selects the documents satisfying
//! every MUST clause; one with only SHOULD clauses selects the documents
//! satisfying at least one of them; an empty compound query selects
//! everything.

use vstd::prelude::*;
use crate::dto::FileDTO;
use crate::index_model::{IndexModel, clone_record};
use crate::text::{text_matches, term_matches, text_match_str, term_match_str};

verus! {

/// An inclusive range of modification timestamps, in seconds since the
/// epoch.
#[derive(Clone, Copy, Debug)]
pub struct DateRange {
    pub start: u64,
    pub end: u64,
}

/// A query's search criteria; an absent field leaves that dimension
/// unconstrained.
#[derive(Clone, Debug)]
pub struct SearchParams {
    pub name: Option<String>,
    pub file_path: Option<String>,
    pub date_range: Option<DateRange>,
    pub metadata: Option<String>,
}

impl SearchParams {
    /// No field constrains the query: the compound query would select
    /// every document. Callers that do not want a full scan guard on
    /// this.
    pub open spec fn unconstrained(&self) -> bool {
        &&& self.name is None
        &&& self.file_path is None
        &&& self.date_range is None
        &&& self.metadata is None
    }

    /// Runtime check of [`SearchParams::unconstrained`].
    pub fn is_unconstrained(&self) -> (b: bool)
        ensures
            b == self.unconstrained(),
    {
        self.name.is_none() && self.file_path.is_none() && self.date_range.is_none()
            && self.metadata.is_none()
    }
}

/// Boolean occurrence rule of one sub-query.
#[derive(Clone, Copy, Debug)]
pub enum Occur {
    /// Optional: contributes to the score when matched, never excludes.
    Should,
    /// Required: documents failing the clause are excluded.
    Must,
}

/// One sub-query of the compound query.
#[derive(Debug)]
pub enum SubQuery {
    /// Free-text match against the stored path.
    PathText(String),
    /// Free-text match against the stored name.
    NameText(String),
    /// Inclusive range filter on the modification timestamp.
    ModifiedRange(u64, u64),
    /// Exact-term filter on the metadata field.
    MetadataTerm(String),
}

/// The compound query a set of search parameters composes: one clause per
/// present field, in a fixed order — path, name, date range, metadata.
pub open spec fn plan_of(p: SearchParams) -> Seq<(Occur, SubQuery)> {
    (match p.file_path {
        Some(q) => seq![(Occur::Should, SubQuery::PathText(q))],
        None => Seq::empty(),
    }) + (match p.name {
        Some(q) => seq![(Occur::Should, SubQuery::NameText(q))],
        None => Seq::empty(),
    }) + (match p.date_range {
        Some(r) => seq![(Occur::Must, SubQuery::ModifiedRange(r.start, r.end))],
        None => Seq::empty(),
    }) + (match p.metadata {
        Some(t) => seq![(Occur::Must, SubQuery::MetadataTerm(t))],
        None => Seq::empty(),
    })
}

/// Whether one clause holds of one document.
pub open spec fn clause_sat(sub: SubQuery, doc: FileDTO) -> bool {
    match sub {
        SubQuery::PathText(q) => text_matches(q@, doc.file_path@),
        SubQuery::NameText(q) => text_matches(q@, doc.name@),
        SubQuery::ModifiedRange(s, e) => s <= doc.date_modified && doc.date_modified <= e,
        SubQuery::MetadataTerm(t) => term_matches(t@, doc.metadata@),
    }
}

/// Whether the compound query has a required clause.
pub open spec fn has_must(plan: Seq<(Occur, SubQuery)>) -> bool {
    exists|i: int| 0 <= i < plan.len() && (#[trigger] plan[i]).0 is Must
}

/// The compound query's selection rule over one document.
pub open spec fn plan_selects(plan: Seq<(Occur, SubQuery)>, doc: FileDTO) -> bool {
    if has_must(plan) {
        forall|i: int|
            0 <= i < plan.len() && (#[trigger] plan[i]).0 is Must ==> clause_sat(plan[i].1, doc)
    } else if plan.len() > 0 {
        exists|i: int| 0 <= i < plan.len() && clause_sat((#[trigger] plan[i]).1, doc)
    } else {
        true
    }
}

/// Compose the compound query of the given search parameters.
pub fn build_plan(params: &SearchParams) -> (plan: Vec<(Occur, SubQuery)>)
    ensures
        plan@ == plan_of(*params),
{
    let mut plan: Vec<(Occur, SubQuery)> = Vec::new();
    if let Some(q) = &params.file_path {
        plan.push((Occur::Should, SubQuery::PathText(q.clone())));
    }
    if let Some(q) = &params.name {
        plan.push((Occur::Should, SubQuery::NameText(q.clone())));
    }
    if let Some(r) = &params.date_range {
        plan.push((Occur::Must, SubQuery::ModifiedRange(r.start, r.end)));
    }
    if let Some(t) = &params.metadata {
        plan.push((Occur::Must, SubQuery::MetadataTerm(t.clone())));
    }
    proof {
        assert(plan@ =~= plan_of(*params));
    }
    plan
}

/// Whether one clause holds of one document, runtime form.
fn clause_holds(sub: &SubQuery, doc: &FileDTO) -> (b: bool)
    ensures
        b == clause_sat(*sub, *doc),
{
    match sub {
        SubQuery::PathText(q) => text_match_str(q.as_str(), doc.file_path.as_str()),
        SubQuery::NameText(q) => text_match_str(q.as_str(), doc.name.as_str()),
        SubQuery::ModifiedRange(s, e) => *s <= doc.date_modified && doc.date_modified <= *e,
        SubQuery::MetadataTerm(t) => term_match_str(t.as_str(), doc.metadata.as_str()),
    }
}

/// Whether the compound query selects the document, runtime form of
/// [`plan_selects`].
pub fn matches_plan(plan: &Vec<(Occur, SubQuery)>, doc: &FileDTO) -> (b: bool)
    ensures
        b == plan_selects(plan@, *doc),
{
    let mut any_must = false;
    let mut i: usize = 0;
    while i < plan.len()
        invariant
            i <= plan@.len(),
            any_must == exists|k: int| 0 <= k < i && (#[trigger] plan@[k]).0 is Must,
        decreases plan@.len() - i,
    {
        let (occ, _) = &plan[i];
        if let Occur::Must = occ {
            any_must = true;
        }
        i = i + 1;
    }
    assert(any_must == has_must(plan@));
    if any_must {
        let mut i: usize = 0;
        while i < plan.len()
            invariant
                i <= plan@.len(),
                has_must(plan@),
                forall|k: int|
                    0 <= k < i && (#[trigger] plan@[k]).0 is Must ==> clause_sat(
                        plan@[k].1,
                        *doc,
                    ),
            decreases plan@.len() - i,
        {
            let (occ, sub) = &plan[i];
            if let Occur::Must = occ {
                if !clause_holds(sub, doc) {
                    assert(!plan_selects(plan@, *doc));
                    return false;
                }
            }
            i = i + 1;
        }
        true
    } else if plan.len() > 0 {
        let mut i: usize = 0;
        while i < plan.len()
            invariant
                i <= plan@.len(),
                !has_must(plan@),
                plan@.len() > 0,
                forall|k: int| 0 <= k < i ==> !clause_sat((#[trigger] plan@[k]).1, *doc),
            decreases plan@.len() - i,
        {
            let (_, sub) = &plan[i];
            if clause_holds(sub, doc) {
                return true;
            }
            i = i + 1;
        }
        false
    } else {
        true
    }
}

/// Range filter law: a document whose modification timestamp lies outside
/// a queried date range is never selected, whatever the text fields hold.
pub proof fn lemma_range_filter_excludes(p: SearchParams, doc: FileDTO)
    requires
        p.date_range is Some,
        doc.date_modified < p.date_range->Some_0.start || doc.date_modified
            > p.date_range->Some_0.end,
    ensures
        !plan_selects(plan_of(p), doc),
{
    let plan = plan_of(p);
    let r = p.date_range->Some_0;
    let k = (if p.file_path is Some {
        1int
    } else {
        0int
    }) + (if p.name is Some {
        1int
    } else {
        0int
    });
    assert(plan[k].0 is Must && plan[k].1 == SubQuery::ModifiedRange(r.start, r.end));
    assert(has_must(plan));
    assert(!clause_sat(plan[k].1, doc));
}

/// The same document with another stored popularity signal.
pub open spec fn with_popularity(doc: FileDTO, pop: Option<u64>) -> FileDTO {
    FileDTO { popularity: pop, ..doc }
}

/// Missing-field tolerance law: selection never reads the popularity
/// signal, so a document lacking one is selected exactly as if it carried
/// any other value — scoring alone falls back to the neutral default.
pub proof fn lemma_selection_ignores_popularity(
    plan: Seq<(Occur, SubQuery)>,
    doc: FileDTO,
    pop: Option<u64>,
)
    ensures
        plan_selects(plan, with_popularity(doc, pop)) == plan_selects(plan, doc),
{
    let doc2 = with_popularity(doc, pop);
    assert forall|i: int| 0 <= i < plan.len() implies (clause_sat(
        (#[trigger] plan[i]).1,
        doc2,
    ) == clause_sat(plan[i].1, doc)) by {
        let sub = plan[i].1;
        match sub {
            SubQuery::PathText(q) => {
                assert(doc2.file_path == doc.file_path);
            },
            SubQuery::NameText(q) => {
                assert(doc2.name == doc.name);
            },
            SubQuery::ModifiedRange(s, e) => {
                assert(doc2.date_modified == doc.date_modified);
            },
            SubQuery::MetadataTerm(t) => {
                assert(doc2.metadata == doc.metadata);
            },
        }
    }
    if has_must(plan) {
    } else if plan.len() > 0 {
        if plan_selects(plan, doc) {
            let i = choose|i: int| 0 <= i < plan.len() && clause_sat((#[trigger] plan[i]).1, doc);
            assert(clause_sat(plan[i].1, doc2));
        }
        if plan_selects(plan, doc2) {
            let i = choose|i: int| 0 <= i < plan.len() && clause_sat((#[trigger] plan[i]).1, doc2);
            assert(clause_sat(plan[i].1, doc));
        }
    }
}

/// Execute a compound query against the committed snapshot of the store:
/// exactly the selected documents, in stored order. The caller ranks
/// them once scores are attached.
pub fn search_committed(m: &IndexModel, params: &SearchParams) -> (out: Vec<FileDTO>)
    ensures
        out@ == m.committed@.filter(
            |d: FileDTO| plan_selects(plan_of(*params), d),
        ),
{
    let plan = build_plan(params);
    let mut out: Vec<FileDTO> = Vec::new();
    let mut i: usize = 0;
    proof {
        reveal(Seq::filter);
        assert(m.committed@.take(0) =~= Seq::<FileDTO>::empty());
    }
    while i < m.committed.len()
        invariant
            i <= m.committed@.len(),
            plan@ == plan_of(*params),
            out@ == m.committed@.take(i as int).filter(
                |d: FileDTO| plan_selects(plan_of(*params), d),
            ),
        decreases m.committed@.len() - i,
    {
        let ghost prefix = m.committed@.take(i as int);
        let ghost next = m.committed@.take(i as int + 1);
        proof {
            reveal(Seq::filter);
            assert(next.drop_last() =~= prefix);
            assert(next.last() == m.committed@[i as int]);
        }
        if matches_plan(&plan, &m.committed[i]) {
            out.push(clone_record(&m.committed[i]));
        }
        i = i + 1;
    }
    proof {
        assert(m.committed@.take(m.committed@.len() as int) =~= m.committed@);
    }
    out
}

} // verus!
