//! Contents of the index store, as the ingestion policy defines them.
//!
//! The store keeps two layers: `live`, the documents a commit issued now
//! would persist, and `committed`, the snapshot readers observe. Every
//! mutation is an upsert by identity — delete any document carrying the
//! record's `file_id`, then add the record — so at most one live document
//! per identity exists at every commit point. A failed commit changes
//! nothing: staged documents are never dropped.

use vstd::prelude::*;
use crate::dto::FileDTO;

verus! {

/// No two documents share an identity.
pub open spec fn unique_ids(docs: Seq<FileDTO>) -> bool {
    forall|i: int, j: int|
        0 <= i < j < docs.len() ==> docs[i].file_id@ != docs[j].file_id@
}

/// The documents left after deleting every document with the given
/// identity, in their original order.
pub open spec fn remove_id(docs: Seq<FileDTO>, id: Seq<char>) -> Seq<FileDTO>
    decreases docs.len(),
{
    if docs.len() == 0 {
        Seq::empty()
    } else if docs[0].file_id@ == id {
        remove_id(docs.drop_first(), id)
    } else {
        seq![docs[0]] + remove_id(docs.drop_first(), id)
    }
}

/// The first document with the given identity, if any. Under
/// [`unique_ids`] it is the only one.
pub open spec fn find_id(docs: Seq<FileDTO>, id: Seq<char>) -> Option<FileDTO>
    decreases docs.len(),
{
    if docs.len() == 0 {
        None
    } else if docs[0].file_id@ == id {
        Some(docs[0])
    } else {
        find_id(docs.drop_first(), id)
    }
}

/// How many documents carry the given identity.
pub open spec fn count_id(docs: Seq<FileDTO>, id: Seq<char>) -> nat
    decreases docs.len(),
{
    if docs.len() == 0 {
        0
    } else {
        (if docs[0].file_id@ == id {
            1nat
        } else {
            0nat
        }) + count_id(docs.drop_first(), id)
    }
}

/// Upsert by identity: delete before add, within one write transaction.
pub open spec fn upsert_spec(docs: Seq<FileDTO>, rec: FileDTO) -> Seq<FileDTO> {
    remove_id(docs, rec.file_id@).push(rec)
}

/// The contents after a whole run of ingestion records, applied in queue
/// order.
pub open spec fn apply_upserts(docs: Seq<FileDTO>, recs: Seq<FileDTO>) -> Seq<FileDTO>
    decreases recs.len(),
{
    if recs.len() == 0 {
        docs
    } else {
        apply_upserts(upsert_spec(docs, recs[0]), recs.drop_first())
    }
}

/// The most recently ingested record with the given identity, if any.
pub open spec fn last_with_id(recs: Seq<FileDTO>, id: Seq<char>) -> Option<FileDTO>
    decreases recs.len(),
{
    if recs.len() == 0 {
        None
    } else {
        let rest = last_with_id(recs.drop_first(), id);
        if rest is Some {
            rest
        } else if recs[0].file_id@ == id {
            Some(recs[0])
        } else {
            None
        }
    }
}

proof fn lemma_remove_id_props(docs: Seq<FileDTO>, id: Seq<char>)
    ensures
        forall|j: int|
            0 <= j < remove_id(docs, id).len() ==> (#[trigger] remove_id(docs, id)[j]).file_id@
                != id,
        unique_ids(docs) ==> unique_ids(remove_id(docs, id)),
        forall|other: Seq<char>|
            other != id ==> #[trigger] find_id(remove_id(docs, id), other) == find_id(docs, other),
        forall|j: int|
            0 <= j < remove_id(docs, id).len() ==> exists|k: int|
                0 <= k < docs.len() && docs[k] == #[trigger] remove_id(docs, id)[j],
    decreases docs.len(),
{
    if docs.len() == 0 {
    } else {
        let rest = docs.drop_first();
        lemma_remove_id_props(rest, id);
        assert(unique_ids(docs) ==> unique_ids(rest)) by {
            if unique_ids(docs) {
                assert(forall|i: int, j: int|
                    0 <= i < j < rest.len() ==> rest[i].file_id@ != rest[j].file_id@) by {
                    assert(forall|i: int| 0 <= i < rest.len() ==> rest[i] == docs[i + 1]);
                }
            }
        }
        if docs[0].file_id@ == id {
        } else {
            let out = seq![docs[0]] + remove_id(rest, id);
            assert(out[0] == docs[0]);
            assert(forall|j: int|
                1 <= j < out.len() ==> out[j] == #[trigger] remove_id(rest, id)[j - 1]);
            if unique_ids(docs) {
                assert(forall|j: int|
                    1 <= j < out.len() ==> out[0].file_id@ != (#[trigger] out[j]).file_id@) by {
                    assert(forall|j: int|
                        0 <= j < remove_id(rest, id).len() ==> exists|k: int|
                            0 <= k < rest.len() && rest[k] == #[trigger] remove_id(rest, id)[j]);
                    assert(forall|k: int| 0 <= k < rest.len() ==> docs[0].file_id@
                        != (#[trigger] rest[k]).file_id@) by {
                        assert(forall|k: int| 0 <= k < rest.len() ==> rest[k] == docs[k + 1]);
                    }
                }
            }
            assert forall|other: Seq<char>| other != id implies #[trigger] find_id(out, other)
                == find_id(docs, other) by {
                assert(out.len() > 0 && out[0] == docs[0]);
                assert(out.drop_first() =~= remove_id(rest, id));
                assert(find_id(out.drop_first(), other) == find_id(remove_id(rest, id), other));
                assert(find_id(remove_id(rest, id), other) == find_id(rest, other));
                if docs[0].file_id@ == other {
                    assert(find_id(out, other) == Some(docs[0]));
                    assert(find_id(docs, other) == Some(docs[0]));
                } else {
                    assert(find_id(out, other) == find_id(out.drop_first(), other));
                    assert(find_id(docs, other) == find_id(rest, other));
                }
            }
            assert(forall|j: int|
                0 <= j < out.len() ==> exists|k: int|
                    0 <= k < docs.len() && docs[k] == #[trigger] out[j]) by {
                assert(forall|j: int|
                    1 <= j < out.len() ==> out[j] == #[trigger] remove_id(rest, id)[j - 1]);
                assert(forall|k: int| 0 <= k < rest.len() ==> rest[k] == docs[k + 1]);
            }
        }
    }
}

proof fn lemma_count_id_zero(docs: Seq<FileDTO>, id: Seq<char>)
    ensures
        (count_id(docs, id) == 0) <==> (forall|j: int|
            0 <= j < docs.len() ==> (#[trigger] docs[j]).file_id@ != id),
    decreases docs.len(),
{
    if docs.len() == 0 {
    } else {
        let rest = docs.drop_first();
        lemma_count_id_zero(rest, id);
        if count_id(docs, id) == 0 {
            assert(docs[0].file_id@ != id);
            assert forall|j: int| 0 <= j < docs.len() implies (#[trigger] docs[j]).file_id@
                != id by {
                if j >= 1 {
                    assert(docs[j] == rest[j - 1]);
                }
            }
        } else {
            if docs[0].file_id@ != id {
                assert(count_id(rest, id) != 0);
                let j = choose|j: int| 0 <= j < rest.len() && (#[trigger] rest[j]).file_id@ == id;
                assert(docs[j + 1] == rest[j]);
                assert(!(forall|k: int| 0 <= k < docs.len() ==> (#[trigger] docs[k]).file_id@
                    != id));
            }
        }
    }
}

proof fn lemma_find_none_iff_count_zero(docs: Seq<FileDTO>, id: Seq<char>)
    ensures
        (find_id(docs, id) is None) <==> (count_id(docs, id) == 0),
    decreases docs.len(),
{
    if docs.len() == 0 {
    } else {
        lemma_find_none_iff_count_zero(docs.drop_first(), id);
    }
}

proof fn lemma_find_id_none(docs: Seq<FileDTO>, id: Seq<char>)
    ensures
        (find_id(docs, id) is None) <==> (forall|j: int|
            0 <= j < docs.len() ==> (#[trigger] docs[j]).file_id@ != id),
{
    lemma_find_none_iff_count_zero(docs, id);
    lemma_count_id_zero(docs, id);
}

proof fn lemma_count_id_push(docs: Seq<FileDTO>, d: FileDTO, id: Seq<char>)
    ensures
        count_id(docs.push(d), id) == count_id(docs, id) + (if d.file_id@ == id {
            1nat
        } else {
            0nat
        }),
    decreases docs.len(),
{
    let out = docs.push(d);
    assert(out.len() == docs.len() + 1);
    if docs.len() == 0 {
        assert(out[0] == d);
        assert(out.drop_first() =~= Seq::<FileDTO>::empty());
        assert(count_id(out.drop_first(), id) == 0);
        assert(count_id(docs, id) == 0);
    } else {
        assert(out[0] == docs[0]);
        assert(out.drop_first() =~= docs.drop_first().push(d));
        lemma_count_id_push(docs.drop_first(), d, id);
        assert(count_id(out.drop_first(), id) == count_id(docs.drop_first().push(d), id));
        assert(count_id(out, id) == (if out[0].file_id@ == id {
            1nat
        } else {
            0nat
        }) + count_id(out.drop_first(), id));
        assert(count_id(docs, id) == (if docs[0].file_id@ == id {
            1nat
        } else {
            0nat
        }) + count_id(docs.drop_first(), id));
    }
}

proof fn lemma_find_id_push(docs: Seq<FileDTO>, d: FileDTO, id: Seq<char>)
    ensures
        find_id(docs.push(d), id) == (if find_id(docs, id) is Some {
            find_id(docs, id)
        } else if d.file_id@ == id {
            Some(d)
        } else {
            None
        }),
    decreases docs.len(),
{
    let out = docs.push(d);
    assert(out.len() == docs.len() + 1);
    if docs.len() == 0 {
        assert(out[0] == d);
        assert(out.drop_first() =~= Seq::<FileDTO>::empty());
        assert(find_id(out.drop_first(), id) is None);
        assert(find_id(docs, id) is None);
        if d.file_id@ == id {
            assert(find_id(out, id) == Some(d));
        } else {
            assert(find_id(out, id) is None);
        }
    } else {
        assert(out[0] == docs[0]);
        assert(out.drop_first() =~= docs.drop_first().push(d));
        lemma_find_id_push(docs.drop_first(), d, id);
        assert(find_id(out.drop_first(), id) == find_id(docs.drop_first().push(d), id));
        if docs[0].file_id@ == id {
            assert(find_id(out, id) == Some(docs[0]));
            assert(find_id(docs, id) == Some(docs[0]));
        } else {
            assert(find_id(out, id) == find_id(out.drop_first(), id));
            assert(find_id(docs, id) == find_id(docs.drop_first(), id));
        }
    }
}

/// What one upsert does to the contents: the record's identity now maps to
/// exactly this record, every other identity is untouched, and uniqueness
/// is preserved.
pub proof fn lemma_upsert(docs: Seq<FileDTO>, rec: FileDTO)
    ensures
        unique_ids(docs) ==> unique_ids(upsert_spec(docs, rec)),
        find_id(upsert_spec(docs, rec), rec.file_id@) == Some(rec),
        count_id(upsert_spec(docs, rec), rec.file_id@) == 1,
        forall|other: Seq<char>|
            other != rec.file_id@ ==> #[trigger] find_id(upsert_spec(docs, rec), other) == find_id(
                docs,
                other,
            ),
{
    let removed = remove_id(docs, rec.file_id@);
    let out = upsert_spec(docs, rec);
    lemma_remove_id_props(docs, rec.file_id@);
    lemma_find_id_none(removed, rec.file_id@);
    lemma_find_id_push(removed, rec, rec.file_id@);
    lemma_count_id_zero(removed, rec.file_id@);
    lemma_count_id_push(removed, rec, rec.file_id@);
    if unique_ids(docs) {
        assert(unique_ids(out)) by {
            assert(forall|i: int| 0 <= i < removed.len() ==> out[i] == removed[i]);
            assert(out[out.len() - 1] == rec);
        }
    }
    assert forall|other: Seq<char>| other != rec.file_id@ implies #[trigger] find_id(out, other)
        == find_id(docs, other) by {
        lemma_find_id_push(removed, rec, other);
        assert(find_id(removed, other) == find_id(docs, other));
        assert(out == removed.push(rec));
    }
}

/// Upsert uniqueness law: start from contents with unique identities and
/// apply any run of ingestion records. Afterwards identities are still
/// unique, and each identity that some record carried maps to exactly one
/// document — the most recently ingested record with that identity.
/// Identities no record carried keep their old document.
pub proof fn lemma_upsert_uniqueness(docs: Seq<FileDTO>, recs: Seq<FileDTO>, id: Seq<char>)
    requires
        unique_ids(docs),
    ensures
        unique_ids(apply_upserts(docs, recs)),
        find_id(apply_upserts(docs, recs), id) == (match last_with_id(recs, id) {
            Some(r) => Some(r),
            None => find_id(docs, id),
        }),
        last_with_id(recs, id) is Some ==> count_id(apply_upserts(docs, recs), id) == 1,
    decreases recs.len(),
{
    if recs.len() == 0 {
    } else {
        let docs1 = upsert_spec(docs, recs[0]);
        lemma_upsert(docs, recs[0]);
        lemma_upsert_uniqueness(docs1, recs.drop_first(), id);
        let out = apply_upserts(docs, recs);
        if last_with_id(recs, id) is Some && count_id(out, id) != 1 {
            // The identity is present, so exactly one document carries it:
            // a present identity with unique contents has count one.
            assert(find_id(out, id) is Some);
            lemma_count_for_unique(out, id);
        }
    }
}

proof fn lemma_count_for_unique(docs: Seq<FileDTO>, id: Seq<char>)
    requires
        unique_ids(docs),
        find_id(docs, id) is Some,
    ensures
        count_id(docs, id) == 1,
    decreases docs.len(),
{
    if docs.len() == 0 {
    } else {
        let rest = docs.drop_first();
        assert(forall|j: int| 0 <= j < rest.len() ==> rest[j] == docs[j + 1]);
        if docs[0].file_id@ == id {
            assert(forall|j: int| 0 <= j < rest.len() ==> (#[trigger] rest[j]).file_id@ != id);
            lemma_count_id_zero(rest, id);
        } else {
            assert(unique_ids(rest));
            lemma_count_for_unique(rest, id);
        }
    }
}

/// An exact copy of a record, field by field.
pub fn clone_record(d: &FileDTO) -> (r: FileDTO)
    ensures
        r == *d,
{
    let r = FileDTO {
        file_id: d.file_id.clone(),
        name: d.name.clone(),
        file_path: d.file_path.clone(),
        date_modified: d.date_modified,
        metadata: d.metadata.clone(),
        popularity: d.popularity,
    };
    r
}

/// The two content layers of one index store.
pub struct IndexModel {
    /// What a commit issued now would persist.
    pub live: Vec<FileDTO>,
    /// The snapshot readers observe: the most recently committed state.
    pub committed: Vec<FileDTO>,
}

impl IndexModel {
    /// Both layers keep at most one document per identity.
    pub open spec fn wf(&self) -> bool {
        unique_ids(self.live@) && unique_ids(self.committed@)
    }

    /// An empty store, as created at first use.
    pub fn new() -> (m: IndexModel)
        ensures
            m.wf(),
            m.live@ == Seq::<FileDTO>::empty(),
            m.committed@ == Seq::<FileDTO>::empty(),
    {
        IndexModel { live: Vec::new(), committed: Vec::new() }
    }

    /// Delete every staged document with the given identity. Readers see
    /// nothing of it until the next commit.
    pub fn delete_by_id(&mut self, id: &String)
        requires
            old(self).wf(),
        ensures
            final(self).wf(),
            final(self).live@ == remove_id(old(self).live@, id@),
            final(self).committed == old(self).committed,
    {
        let ghost orig = self.live@;
        let mut kept: Vec<FileDTO> = Vec::new();
        let mut i: usize = 0;
        assert(orig.skip(0) =~= orig);
        while i < self.live.len()
            invariant
                i <= self.live.len(),
                self.live@ == orig,
                self.committed == old(self).committed,
                remove_id(orig, id@) == kept@ + remove_id(orig.skip(i as int), id@),
            decreases self.live.len() - i,
        {
            let ghost pre = kept@;
            assert(orig.skip(i as int)[0] == orig[i as int]);
            assert(orig.skip(i as int).drop_first() =~= orig.skip(i as int + 1));
            if self.live[i].file_id == *id {
            } else {
                kept.push(clone_record(&self.live[i]));
                assert(pre + remove_id(orig.skip(i as int), id@) == kept@ + remove_id(
                    orig.skip(i as int + 1),
                    id@,
                )) by {
                    assert(pre + (seq![orig[i as int]] + remove_id(orig.skip(i as int + 1), id@))
                        =~= (pre + seq![orig[i as int]]) + remove_id(orig.skip(i as int + 1), id@));
                    assert(kept@ =~= pre + seq![orig[i as int]]);
                }
            }
            i = i + 1;
        }
        assert(orig.skip(orig.len() as int) =~= Seq::<FileDTO>::empty());
        assert(kept@ + Seq::<FileDTO>::empty() =~= kept@);
        proof {
            lemma_remove_id_props(orig, id@);
        }
        self.live = kept;
    }

    /// Stage a document whose identity is not staged yet; the upsert
    /// protocol guarantees that by deleting first.
    pub fn add_document(&mut self, rec: FileDTO)
        requires
            old(self).wf(),
            find_id(old(self).live@, rec.file_id@) is None,
        ensures
            final(self).wf(),
            final(self).live@ == old(self).live@.push(rec),
            final(self).committed == old(self).committed,
    {
        proof {
            lemma_find_id_none(self.live@, rec.file_id@);
        }
        assert(unique_ids(self.live@.push(rec))) by {
            let out = self.live@.push(rec);
            assert(forall|i: int| 0 <= i < self.live@.len() ==> out[i] == self.live@[i]);
            assert(out[out.len() - 1] == rec);
        }
        self.live.push(rec);
    }

    /// Upsert one ingestion record: delete any document with its identity,
    /// then add it, in that order.
    pub fn upsert(&mut self, rec: FileDTO)
        requires
            old(self).wf(),
        ensures
            final(self).wf(),
            final(self).live@ == upsert_spec(old(self).live@, rec),
            final(self).committed == old(self).committed,
    {
        let id = rec.file_id.clone();
        self.delete_by_id(&id);
        proof {
            lemma_remove_id_props(old(self).live@, rec.file_id@);
            lemma_find_id_none(self.live@, rec.file_id@);
        }
        self.add_document(rec);
    }

    /// A commit succeeded: everything staged becomes visible to readers.
    pub fn commit_succeeded(&mut self)
        requires
            old(self).wf(),
        ensures
            final(self).wf(),
            final(self).live == old(self).live,
            final(self).committed@ == old(self).live@,
    {
        let mut snap: Vec<FileDTO> = Vec::new();
        let mut i: usize = 0;
        while i < self.live.len()
            invariant
                i <= self.live.len(),
                self.live == old(self).live,
                snap@ =~= self.live@.take(i as int),
            decreases self.live.len() - i,
        {
            snap.push(clone_record(&self.live[i]));
            assert(snap@ =~= self.live@.take(i as int + 1));
            i = i + 1;
        }
        assert(snap@ =~= self.live@);
        self.committed = snap;
    }

    /// The committed document with the given identity, if one exists.
    pub fn find_by_file_id(&self, id: &String) -> (r: Option<FileDTO>)
        ensures
            r == find_id(self.committed@, id@),
    {
        let docs = &self.committed;
        let mut i: usize = 0;
        assert(docs@.skip(0) =~= docs@);
        while i < docs.len()
            invariant
                i <= docs.len(),
                docs@ == self.committed@,
                find_id(docs@, id@) == find_id(docs@.skip(i as int), id@),
            decreases docs.len() - i,
        {
            assert(docs@.skip(i as int)[0] == docs@[i as int]);
            assert(docs@.skip(i as int).drop_first() =~= docs@.skip(i as int + 1));
            if docs[i].file_id == *id {
                assert(find_id(docs@.skip(i as int), id@) == Some(docs@[i as int]));
                let found = clone_record(&docs[i]);
                assert(found == docs@[i as int]);
                assert(find_id(self.committed@, id@) == Some(found));
                return Some(found);
            }
            i = i + 1;
        }
        assert(docs@.skip(docs@.len() as int) =~= Seq::<FileDTO>::empty());
        None
    }

    /// How many committed documents carry the given identity. Under the
    /// store's invariant this is zero or one.
    pub fn count_by_file_id(&self, id: &String) -> (n: usize)
        ensures
            n == count_id(self.committed@, id@),
    {
        let docs = &self.committed;
        let mut n: usize = 0;
        let mut i: usize = 0;
        assert(docs@.skip(0) =~= docs@);
        while i < docs.len()
            invariant
                i <= docs.len(),
                n <= i,
                count_id(docs@, id@) == n + count_id(docs@.skip(i as int), id@),
            decreases docs.len() - i,
        {
            assert(docs@.skip(i as int)[0] == docs@[i as int]);
            assert(docs@.skip(i as int).drop_first() =~= docs@.skip(i as int + 1));
            if docs[i].file_id == *id {
                n = n + 1;
            }
            i = i + 1;
        }
        assert(docs@.skip(docs@.len() as int) =~= Seq::<FileDTO>::empty());
        n
    }
}

} // verus!
