//! The index model: a named, durable collection of documents, the
//! exclusive per-invocation writer handle that stages mutations until an
//! explicit commit, read-only readers, and the provider that resolves an
//! index id to an opened (or freshly created) index.

use vstd::prelude::*;

use crate::document::doc_id_of;
use crate::document::Document;
use crate::seqs::lemma_push_parts;
use crate::seqs::lemma_take_full;
use crate::seqs::lemma_take_step;
use crate::seqs::override_map;

verus! {

/// The abstract content of one document: its fields in order.
pub type DocModel = Seq<(Seq<char>, Seq<char>)>;

/// One primitive mutation a writer stages: delete every document whose id
/// field equals the term, or add a document.
pub enum WriterOp {
    DeleteTerm { doc_id: String },
    AddDoc { document: Document },
}

/// The abstract form of a staged mutation.
pub enum OpModel {
    DeleteTerm(Seq<char>),
    AddDoc(DocModel),
}

impl View for WriterOp {
    type V = OpModel;

    open spec fn view(&self) -> OpModel {
        match self {
            WriterOp::DeleteTerm { doc_id } => OpModel::DeleteTerm(doc_id@),
            WriterOp::AddDoc { document } => OpModel::AddDoc(document@),
        }
    }
}

/// The documents whose id field equals `id`, in index order.
pub open spec fn docs_with_id(docs: Seq<DocModel>, id: Seq<char>) -> Seq<DocModel>
    decreases docs.len(),
{
    if docs.len() == 0 {
        Seq::empty()
    } else if doc_id_of(docs.last()) == Some(id) {
        docs_with_id(docs.drop_last(), id).push(docs.last())
    } else {
        docs_with_id(docs.drop_last(), id)
    }
}

/// The documents left after deleting by id term: every document whose id
/// field equals `id` goes away; all others keep their order.
pub open spec fn remove_docs_with_id(docs: Seq<DocModel>, id: Seq<char>) -> Seq<DocModel>
    decreases docs.len(),
{
    if docs.len() == 0 {
        Seq::empty()
    } else if doc_id_of(docs.last()) == Some(id) {
        remove_docs_with_id(docs.drop_last(), id)
    } else {
        remove_docs_with_id(docs.drop_last(), id).push(docs.last())
    }
}

/// The effect of one staged mutation on the committed documents.
pub open spec fn apply_op(docs: Seq<DocModel>, op: OpModel) -> Seq<DocModel> {
    match op {
        OpModel::DeleteTerm(id) => remove_docs_with_id(docs, id),
        OpModel::AddDoc(d) => docs.push(d),
    }
}

/// The effect of a sequence of staged mutations, applied in order.
pub open spec fn apply_ops(docs: Seq<DocModel>, ops: Seq<OpModel>) -> Seq<DocModel>
    decreases ops.len(),
{
    if ops.len() == 0 {
        docs
    } else {
        apply_op(apply_ops(docs, ops.drop_last()), ops.last())
    }
}

/// The two mutations that indexing one document stages: first delete any
/// existing document with the same id (term-delete), then add the document.
pub open spec fn index_doc_ops(d: DocModel) -> Seq<OpModel>
    recommends
        doc_id_of(d) is Some,
{
    seq![OpModel::DeleteTerm(doc_id_of(d).unwrap()), OpModel::AddDoc(d)]
}

/// The documents an index id resolves to in a durable table: its
/// committed documents, or none if the id has no durable state yet.
pub open spec fn docs_of(m: Map<Seq<char>, Seq<DocModel>>, id: Seq<char>) -> Seq<DocModel> {
    if m.contains_key(id) {
        m[id]
    } else {
        Seq::empty()
    }
}

/// Resolves an index identifier to an opened (or freshly created) index
/// instance: the durable state for the id if it has any, and a freshly
/// initialized, empty index otherwise. An index is never implicitly
/// deleted by loading.
pub trait IndexLoader {
    /// What each index id currently resolves to.
    spec fn loader_model(&self) -> Map<Seq<char>, Seq<DocModel>>;

    /// Resolves `index_id` to its current durable state.
    fn load_index(&self, index_id: &str) -> (r: SearchIndex)
        ensures
            r.id() == index_id@,
            r@ == docs_of(self.loader_model(), index_id@),
    ;
}

/// A named, durable collection of documents; only committed state lives
/// here, so readers opened from it never observe staged mutations.
pub struct SearchIndex {
    index_id: String,
    docs: Vec<Document>,
}

/// A read-only view of the committed generation a reader was opened (or
/// last reloaded) against.
pub struct IndexReader {
    docs: Vec<Document>,
}

/// An exclusive, per-invocation mutator bound to exactly one index. It
/// accumulates staged mutations; `commit` seals them into a new durable,
/// reader-visible generation.
pub struct IndexWriter {
    index: SearchIndex,
    staged: Vec<WriterOp>,
    merging: bool,
}

impl View for SearchIndex {
    type V = Seq<DocModel>;

    closed spec fn view(&self) -> Seq<DocModel> {
        self.docs@.map_values(|d: Document| d@)
    }
}

impl View for IndexReader {
    type V = Seq<DocModel>;

    closed spec fn view(&self) -> Seq<DocModel> {
        self.docs@.map_values(|d: Document| d@)
    }
}

/// A field-for-field copy of a document list.
fn clone_docs(docs: &Vec<Document>) -> (r: Vec<Document>)
    ensures
        r@.map_values(|d: Document| d@) == docs@.map_values(|d: Document| d@),
{
    let mut r: Vec<Document> = Vec::new();
    let mut i: usize = 0;
    let ghost dm = docs@.map_values(|d: Document| d@);
    while i < docs.len()
        invariant
            i <= docs.len(),
            dm == docs@.map_values(|d: Document| d@),
            r@.map_values(|d: Document| d@) =~= dm.take(i as int),
        decreases docs.len() - i,
    {
        let ghost prev = r@;
        r.push(docs[i].duplicate());
        proof {
            assert(r@.map_values(|d: Document| d@) =~= prev.map_values(|d: Document| d@).push(
                dm[i as int],
            ));
            lemma_take_step(dm, i as int);
        }
        i = i + 1;
    }
    proof {
        lemma_take_full(dm);
    }
    r
}

/// Deletes by id term: removes from `docs` every document whose id field
/// equals `doc_id`; no error if none does.
fn remove_docs_matching(docs: &mut Vec<Document>, doc_id: &str)
    ensures
        final(docs)@.map_values(|d: Document| d@) == remove_docs_with_id(
            old(docs)@.map_values(|d: Document| d@),
            doc_id@,
        ),
{
    let p = doc_id.to_owned();
    let ghost dm = docs@.map_values(|d: Document| d@);
    let mut kept: Vec<Document> = Vec::new();
    let mut i: usize = 0;
    while i < docs.len()
        invariant
            i <= docs.len(),
            p@ == doc_id@,
            dm == docs@.map_values(|d: Document| d@),
            kept@.map_values(|d: Document| d@) =~= remove_docs_with_id(dm.take(i as int), doc_id@),
        decreases docs.len() - i,
    {
        proof {
            lemma_take_step(dm, i as int);
        }
        let matches_id = match docs[i].get_id() {
            Some(s) => *s == p,
            None => false,
        };
        if !matches_id {
            let ghost prev = kept@;
            kept.push(docs[i].duplicate());
            proof {
                assert(kept@.map_values(|d: Document| d@) =~= prev.map_values(
                    |d: Document| d@,
                ).push(dm[i as int]));
            }
        }
        i = i + 1;
    }
    proof {
        lemma_take_full(dm);
    }
    *docs = kept;
}

impl SearchIndex {
    /// The id this index is filed under.
    pub closed spec fn id(&self) -> Seq<char> {
        self.index_id@
    }

    /// The id this index is filed under.
    pub fn index_id(&self) -> (r: &String)
        ensures
            r@ == self.id(),
    {
        &self.index_id
    }

    /// A freshly initialized, empty index for `index_id`.
    pub fn create(index_id: &str) -> (r: SearchIndex)
        ensures
            r@ == Seq::<DocModel>::empty(),
            r.id() == index_id@,
    {
        let r = SearchIndex { index_id: index_id.to_owned(), docs: Vec::new() };
        proof {
            assert(r@ =~= Seq::<DocModel>::empty());
        }
        r
    }

    /// A copy of this index, observing the same committed documents.
    pub fn duplicate(&self) -> (r: SearchIndex)
        ensures
            r@ == self@,
            r.id() == self.id(),
    {
        SearchIndex { index_id: self.index_id.clone(), docs: clone_docs(&self.docs) }
    }

    /// Opens a reader against the latest committed generation. A reader
    /// observes exactly the committed documents: mutations staged in any
    /// writer are invisible to it.
    pub fn reader(&self) -> (r: IndexReader)
        ensures
            r@ == self@,
    {
        IndexReader { docs: clone_docs(&self.docs) }
    }

    /// Opens the exclusive writer handle for this index, with nothing
    /// staged yet.
    pub fn default_writer(&self) -> (r: IndexWriter)
        ensures
            r.committed() == self@,
            r.staged_ops() == Seq::<OpModel>::empty(),
            r.writer_index_id() == self.id(),
            !r.merging(),
    {
        let r = IndexWriter { index: self.duplicate(), staged: Vec::new(), merging: false };
        proof {
            assert(r.staged_ops() =~= Seq::<OpModel>::empty());
        }
        r
    }
}

impl IndexReader {
    /// The observed documents, in index order.
    pub fn docs(&self) -> (r: &Vec<Document>)
        ensures
            r@.map_values(|d: Document| d@) == self@,
    {
        &self.docs
    }

    /// How many committed documents the reader observes.
    pub fn num_docs(&self) -> (r: usize)
        ensures
            r == self@.len(),
    {
        self.docs.len()
    }

    /// How many observed documents carry `doc_id` as their id field.
    pub fn count_docs_with_id(&self, doc_id: &str) -> (r: usize)
        ensures
            r == docs_with_id(self@, doc_id@).len(),
    {
        let p = doc_id.to_owned();
        let ghost dm = self@;
        let mut count: usize = 0;
        let mut i: usize = 0;
        while i < self.docs.len()
            invariant
                i <= self.docs.len(),
                p@ == doc_id@,
                dm == self@,
                count == docs_with_id(dm.take(i as int), doc_id@).len(),
                count <= i,
            decreases self.docs.len() - i,
        {
            proof {
                lemma_take_step(dm, i as int);
            }
            let matches_id = match self.docs[i].get_id() {
                Some(s) => *s == p,
                None => false,
            };
            if matches_id {
                count = count + 1;
            }
            i = i + 1;
        }
        proof {
            lemma_take_full(dm);
        }
        count
    }

    /// The latest-added observed document carrying `doc_id` as its id
    /// field, if any; under delete-then-add upsert this is the surviving
    /// version of the document.
    pub fn find_doc_by_id(&self, doc_id: &str) -> (r: Option<&Document>)
        ensures
            match r {
                Some(d) => docs_with_id(self@, doc_id@).len() > 0 && d@ == docs_with_id(
                    self@,
                    doc_id@,
                ).last(),
                None => docs_with_id(self@, doc_id@).len() == 0,
            },
    {
        let p = doc_id.to_owned();
        let ghost dm = self@;
        let mut found: Option<usize> = None;
        let mut i: usize = 0;
        while i < self.docs.len()
            invariant
                i <= self.docs.len(),
                p@ == doc_id@,
                dm == self@,
                match found {
                    Some(j) => j < i && dm[j as int] == docs_with_id(dm.take(i as int), doc_id@)
                        .last() && docs_with_id(dm.take(i as int), doc_id@).len() > 0,
                    None => docs_with_id(dm.take(i as int), doc_id@).len() == 0,
                },
            decreases self.docs.len() - i,
        {
            proof {
                lemma_take_step(dm, i as int);
            }
            let matches_id = match self.docs[i].get_id() {
                Some(s) => *s == p,
                None => false,
            };
            if matches_id {
                found = Some(i);
            }
            i = i + 1;
        }
        proof {
            lemma_take_full(dm);
        }
        match found {
            Some(j) => Some(&self.docs[j]),
            None => None,
        }
    }
}

impl IndexWriter {
    /// The committed documents of the index this writer is bound to.
    pub closed spec fn committed(&self) -> Seq<DocModel> {
        self.index@
    }

    /// The mutations staged since the writer was opened or last committed.
    pub closed spec fn staged_ops(&self) -> Seq<OpModel> {
        self.staged@.map_values(|o: WriterOp| o@)
    }

    /// The id of the index this writer is bound to.
    pub closed spec fn writer_index_id(&self) -> Seq<char> {
        self.index.index_id@
    }

    /// Whether background segment merges kicked off by a commit are still
    /// outstanding.
    pub closed spec fn merging(&self) -> bool {
        self.merging
    }

    /// Stages a delete-by-id-term mutation.
    pub fn delete_term(&mut self, doc_id: &str)
        ensures
            final(self).staged_ops() == old(self).staged_ops().push(OpModel::DeleteTerm(doc_id@)),
            final(self).committed() == old(self).committed(),
            final(self).writer_index_id() == old(self).writer_index_id(),
            final(self).merging() == old(self).merging(),
    {
        let ghost prev = self.staged@;
        self.staged.push(WriterOp::DeleteTerm { doc_id: doc_id.to_owned() });
        proof {
            assert(self.staged_ops() =~= prev.map_values(|o: WriterOp| o@).push(
                OpModel::DeleteTerm(doc_id@),
            ));
        }
    }

    /// Stages an add-document mutation.
    pub fn add_document(&mut self, document: Document)
        ensures
            final(self).staged_ops() == old(self).staged_ops().push(OpModel::AddDoc(document@)),
            final(self).committed() == old(self).committed(),
            final(self).writer_index_id() == old(self).writer_index_id(),
            final(self).merging() == old(self).merging(),
    {
        let ghost prev = self.staged@;
        let ghost dm = document@;
        self.staged.push(WriterOp::AddDoc { document });
        proof {
            assert(self.staged_ops() =~= prev.map_values(|o: WriterOp| o@).push(
                OpModel::AddDoc(dm),
            ));
        }
    }

    /// Seals the staged mutations, in staging order, into a new durable,
    /// reader-visible generation, and kicks off background segment merges.
    pub fn commit(&mut self)
        ensures
            final(self).committed() == apply_ops(old(self).committed(), old(self).staged_ops()),
            final(self).staged_ops() == Seq::<OpModel>::empty(),
            final(self).writer_index_id() == old(self).writer_index_id(),
            final(self).merging(),
    {
        let ghost ops = self.staged_ops();
        let ghost init = self.index@;
        let mut i: usize = 0;
        while i < self.staged.len()
            invariant
                i <= self.staged.len(),
                ops == self.staged@.map_values(|o: WriterOp| o@),
                self.index@ == apply_ops(init, ops.take(i as int)),
                self.index.index_id@ == old(self).writer_index_id(),
            decreases self.staged.len() - i,
        {
            proof {
                lemma_take_step(ops, i as int);
            }
            match &self.staged[i] {
                WriterOp::DeleteTerm { doc_id } => {
                    remove_docs_matching(&mut self.index.docs, doc_id.as_str());
                },
                WriterOp::AddDoc { document } => {
                    let ghost prev = self.index.docs@;
                    let d = document.duplicate();
                    self.index.docs.push(d);
                    proof {
                        assert(self.index@ =~= prev.map_values(|d: Document| d@).push(
                            ops[i as int]->AddDoc_0,
                        ));
                    }
                },
            }
            i = i + 1;
        }
        proof {
            lemma_take_full(ops);
        }
        self.staged = Vec::new();
        self.merging = true;
        proof {
            assert(self.staged_ops() =~= Seq::<OpModel>::empty());
        }
    }

    /// Blocks until the background segment-merge activity kicked off by
    /// commits has finished, so no merge work is left orphaned when the
    /// compute instance is reclaimed.
    pub fn wait_merging_threads(&mut self)
        ensures
            final(self).committed() == old(self).committed(),
            final(self).staged_ops() == old(self).staged_ops(),
            final(self).writer_index_id() == old(self).writer_index_id(),
            !final(self).merging(),
    {
        self.merging = false;
    }

    /// Releases the writer, handing back the index it was bound to.
    pub fn into_index(self) -> (r: SearchIndex)
        ensures
            r@ == self.committed(),
            r.id() == self.writer_index_id(),
    {
        self.index
    }
}

/// Resolves an index id to the durable state for that id: the index is
/// opened if its location exists and freshly created otherwise (never
/// implicitly deleted). Later stores for an id supersede earlier ones.
pub struct IndexProvider {
    entries: Vec<SearchIndex>,
}

impl IndexProvider {
    /// What each index id currently resolves to.
    pub closed spec fn model(&self) -> Map<Seq<char>, Seq<DocModel>> {
        override_map(
            Map::<Seq<char>, Seq<DocModel>>::empty(),
            self.entries@.map_values(|e: SearchIndex| (e.index_id@, e@)),
        )
    }

    /// A provider for one invocation, starting with no durable index
    /// locations.
    pub fn lambda() -> (r: IndexProvider)
        ensures
            r.model() == Map::<Seq<char>, Seq<DocModel>>::empty(),
    {
        let r = IndexProvider { entries: Vec::new() };
        proof {
            assert(r.entries@.map_values(|e: SearchIndex| (e.index_id@, e@)) =~= Seq::<
                (Seq<char>, Seq<DocModel>),
            >::empty());
        }
        r
    }

    /// Files `index` as the durable state its id resolves to from now on.
    pub fn store_index(&mut self, index: SearchIndex)
        ensures
            final(self).model() == old(self).model().insert(index.id(), index@),
    {
        let ghost prev = self.entries@.map_values(|e: SearchIndex| (e.index_id@, e@));
        let ghost im = index@;
        let ghost iid = index.index_id@;
        self.entries.push(index);
        proof {
            assert(self.entries@.map_values(|e: SearchIndex| (e.index_id@, e@)) =~= prev.push(
                (iid, im),
            ));
            lemma_push_parts(prev, (iid, im));
        }
    }
}

impl IndexLoader for IndexProvider {
    open spec fn loader_model(&self) -> Map<Seq<char>, Seq<DocModel>> {
        self.model()
    }

    fn load_index(&self, index_id: &str) -> (r: SearchIndex) {
        let p = index_id.to_owned();
        let ghost em = self.entries@.map_values(|e: SearchIndex| (e.index_id@, e@));
        let mut r = SearchIndex::create(index_id);
        let mut i: usize = 0;
        while i < self.entries.len()
            invariant
                i <= self.entries.len(),
                p@ == index_id@,
                em == self.entries@.map_values(|e: SearchIndex| (e.index_id@, e@)),
                r.id() == index_id@,
                r@ == if override_map(
                    Map::<Seq<char>, Seq<DocModel>>::empty(),
                    em.take(i as int),
                ).contains_key(index_id@) {
                    override_map(Map::<Seq<char>, Seq<DocModel>>::empty(), em.take(i as int))[
                        index_id@]
                } else {
                    Seq::<DocModel>::empty()
                },
            decreases self.entries.len() - i,
        {
            proof {
                lemma_take_step(em, i as int);
            }
            if self.entries[i].index_id == p {
                r = self.entries[i].duplicate();
            }
            i = i + 1;
        }
        proof {
            lemma_take_full(em);
        }
        r
    }
}

/// Upsert idempotence: indexing a document and then indexing another with
/// the same id (possibly different content) leaves exactly one document
/// with that id, whose content is the one indexed last.
pub proof fn lemma_upsert_idempotent(docs: Seq<DocModel>, d1: DocModel, d2: DocModel)
    requires
        doc_id_of(d1) is Some,
        doc_id_of(d2) == doc_id_of(d1),
    ensures
        docs_with_id(
            apply_ops(docs, index_doc_ops(d1) + index_doc_ops(d2)),
            doc_id_of(d1).unwrap(),
        ) == seq![d2],
{
    let id = doc_id_of(d1).unwrap();
    lemma_apply_ops_append(docs, index_doc_ops(d1), index_doc_ops(d2));
    lemma_apply_index_doc(docs, d1);
    let mid = remove_docs_with_id(docs, id).push(d1);
    lemma_apply_index_doc(mid, d2);
    let removed = remove_docs_with_id(mid, id);
    lemma_remove_removes(mid, id);
    lemma_docs_with_id_push(removed, d2, id);
    lemma_remove_removes_twice(mid, id);
    assert(docs_with_id(removed, id).push(d2) =~= seq![d2]);
}

/// Order sensitivity: indexing a document and then deleting its id leaves
/// no document with that id; the later mutation strictly overrides.
pub proof fn lemma_delete_overrides_index(docs: Seq<DocModel>, d: DocModel)
    requires
        doc_id_of(d) is Some,
    ensures
        docs_with_id(
            apply_ops(docs, index_doc_ops(d).push(OpModel::DeleteTerm(doc_id_of(d).unwrap()))),
            doc_id_of(d).unwrap(),
        ) == Seq::<DocModel>::empty(),
{
    let id = doc_id_of(d).unwrap();
    let ops = index_doc_ops(d).push(OpModel::DeleteTerm(id));
    lemma_push_parts(index_doc_ops(d), OpModel::DeleteTerm(id));
    lemma_apply_index_doc(docs, d);
    lemma_remove_removes(apply_ops(docs, index_doc_ops(d)), id);
    lemma_remove_removes_twice(apply_ops(docs, index_doc_ops(d)), id);
}

/// Commit visibility, the half a reader can newly observe: after staged
/// mutations ending in the indexing of `d` are committed, a reader opened
/// against the new generation observes exactly `d` under its id. (That a
/// reader opened before the commit observes no staged mutation at all is
/// what `SearchIndex::reader` ensures: it sees committed documents only.)
pub proof fn lemma_commit_makes_staged_visible(
    committed: Seq<DocModel>,
    pre: Seq<OpModel>,
    d: DocModel,
)
    requires
        doc_id_of(d) is Some,
    ensures
        docs_with_id(
            apply_ops(committed, pre + index_doc_ops(d)),
            doc_id_of(d).unwrap(),
        ) == seq![d],
{
    let id = doc_id_of(d).unwrap();
    lemma_apply_ops_append(committed, pre, index_doc_ops(d));
    let mid = apply_ops(committed, pre);
    lemma_apply_index_doc(mid, d);
    let removed = remove_docs_with_id(mid, id);
    lemma_remove_removes(mid, id);
    lemma_docs_with_id_push(removed, d, id);
    lemma_remove_removes_twice(mid, id);
    assert(docs_with_id(removed, id).push(d) =~= seq![d]);
}

/// After a delete by id, no document with that id is left.
pub proof fn lemma_remove_removes(docs: Seq<DocModel>, id: Seq<char>)
    ensures
        docs_with_id(remove_docs_with_id(docs, id), id) == Seq::<DocModel>::empty(),
    decreases docs.len(),
{
    if docs.len() > 0 {
        lemma_remove_removes(docs.drop_last(), id);
        if doc_id_of(docs.last()) == Some(id) {
        } else {
            lemma_push_parts(remove_docs_with_id(docs.drop_last(), id), docs.last());
        }
    }
}

/// `docs_with_id` of the delete's result is empty, so appending a matching
/// document to it gives that document alone; spelled out as a lemma about
/// pushes so the upsert proofs can chain it.
proof fn lemma_docs_with_id_push(docs: Seq<DocModel>, d: DocModel, id: Seq<char>)
    requires
        doc_id_of(d) == Some(id),
    ensures
        docs_with_id(docs.push(d), id) == docs_with_id(docs, id).push(d),
    decreases docs.len(),
{
    lemma_push_parts(docs, d);
}

/// Deleting by id is idempotent on the document list.
proof fn lemma_remove_removes_twice(docs: Seq<DocModel>, id: Seq<char>)
    ensures
        remove_docs_with_id(remove_docs_with_id(docs, id), id) == remove_docs_with_id(docs, id),
    decreases docs.len(),
{
    if docs.len() > 0 {
        lemma_remove_removes_twice(docs.drop_last(), id);
        if doc_id_of(docs.last()) == Some(id) {
        } else {
            lemma_push_parts(remove_docs_with_id(docs.drop_last(), id), docs.last());
        }
    }
}

/// Applying a concatenation of mutation sequences applies the first, then
/// the second.
pub proof fn lemma_apply_ops_append(docs: Seq<DocModel>, a: Seq<OpModel>, b: Seq<OpModel>)
    ensures
        apply_ops(docs, a + b) == apply_ops(apply_ops(docs, a), b),
    decreases b.len(),
{
    if b.len() == 0 {
        assert(a + b =~= a);
    } else {
        lemma_apply_ops_append(docs, a, b.drop_last());
        assert((a + b).drop_last() =~= a + b.drop_last());
        assert((a + b).last() == b.last());
    }
}

/// Indexing one document amounts to deleting its id and appending it.
pub proof fn lemma_apply_index_doc(docs: Seq<DocModel>, d: DocModel)
    requires
        doc_id_of(d) is Some,
    ensures
        apply_ops(docs, index_doc_ops(d)) == remove_docs_with_id(docs, doc_id_of(d).unwrap()).push(
            d,
        ),
{
    let id = doc_id_of(d).unwrap();
    let ops = index_doc_ops(d);
    let del = seq![OpModel::DeleteTerm(id)];
    assert(ops.len() == 2 && del.len() == 1);
    assert(ops.drop_last() =~= del);
    assert(del.drop_last() =~= Seq::<OpModel>::empty());
    assert(apply_ops(docs, Seq::<OpModel>::empty()) == docs);
    assert(del.last() == OpModel::DeleteTerm(id));
    assert(apply_ops(docs, del) == remove_docs_with_id(docs, id));
    assert(ops.last() == OpModel::AddDoc(d));
    assert(apply_ops(docs, ops) == apply_op(apply_ops(docs, del), OpModel::AddDoc(d)));
}

} // verus!
