//! The index writer worker and the write-batch client.
//!
//! The worker runs once per invocation over one polled set of queue
//! messages: it decodes them, groups them by index id, obtains exactly one
//! writer handle per distinct id, applies every message in arrival order
//! with upsert (delete-then-add) semantics, then commits every writer
//! touched and waits out its background merges. There is no per-message
//! partial success: either the whole polled set is applied and committed,
//! or the invocation fails with the state untouched and the messaging
//! layer's redelivery is relied upon for recovery.

use vstd::prelude::*;

use crate::document::doc_id_of;
use crate::document::Document;
use crate::index::apply_ops;
use crate::index::docs_of;
use crate::index::IndexLoader;
use crate::index::index_doc_ops;
use crate::index::DocModel;
use crate::index::IndexProvider;
use crate::index::IndexWriter;
use crate::index::OpModel;
use crate::seqs::lemma_contains_split;
use crate::seqs::lemma_override_absent;
use crate::seqs::lemma_override_present;
use crate::seqs::lemma_push_parts;
use crate::seqs::lemma_take_full;
use crate::seqs::lemma_take_step;
use crate::seqs::override_map;

verus! {

/// The document-level change one queue message carries.
pub enum WriterMessageDetail {
    IndexSingleDoc { document: Document },
    DeleteSingleDoc { doc_id: String },
}

/// One queue message: a mutation for one index, delivered with the index
/// id as its ordering group key.
pub struct WriterMessage {
    pub index_id: String,
    pub detail: WriterMessageDetail,
}

/// The abstract form of a message's mutation.
pub enum DetailModel {
    IndexSingleDoc(DocModel),
    DeleteSingleDoc(Seq<char>),
}

/// The abstract form of one queue message.
pub struct MessageModel {
    pub index_id: Seq<char>,
    pub detail: DetailModel,
}

impl View for WriterMessageDetail {
    type V = DetailModel;

    open spec fn view(&self) -> DetailModel {
        match self {
            WriterMessageDetail::IndexSingleDoc { document } => DetailModel::IndexSingleDoc(
                document@,
            ),
            WriterMessageDetail::DeleteSingleDoc { doc_id } => DetailModel::DeleteSingleDoc(
                doc_id@,
            ),
        }
    }
}

impl View for WriterMessage {
    type V = MessageModel;

    open spec fn view(&self) -> MessageModel {
        MessageModel { index_id: self.index_id@, detail: self.detail@ }
    }
}

impl WriterMessage {
    /// A field-for-field copy of the message.
    pub fn duplicate(&self) -> (r: WriterMessage)
        ensures
            r@ == self@,
    {
        let detail = match &self.detail {
            WriterMessageDetail::IndexSingleDoc { document } => {
                WriterMessageDetail::IndexSingleDoc { document: document.duplicate() }
            },
            WriterMessageDetail::DeleteSingleDoc { doc_id } => {
                WriterMessageDetail::DeleteSingleDoc { doc_id: doc_id.clone() }
            },
        };
        WriterMessage { index_id: self.index_id.clone(), detail }
    }
}

/// Why an invocation of the worker failed as a whole.
#[derive(Debug, PartialEq, Eq)]
pub enum WorkerError {
    /// A queue message body could not be decoded; the invocation is failed
    /// rather than the bad message skipped, so the messaging layer
    /// redelivers the whole set.
    MessageDecodeError,
    /// A message asked to index a document with no `__id` field.
    ValidationError,
}

/// The abstract forms of a polled set of messages, in arrival order.
pub open spec fn msg_models(s: Seq<WriterMessage>) -> Seq<MessageModel> {
    s.map_values(|m: WriterMessage| m@)
}

/// A message the worker can apply: a document being indexed must carry an
/// id to upsert by.
pub open spec fn msg_valid(m: MessageModel) -> bool {
    match m.detail {
        DetailModel::IndexSingleDoc(d) => doc_id_of(d) is Some,
        DetailModel::DeleteSingleDoc(_) => true,
    }
}

/// Whether every message of the polled set can be applied.
pub open spec fn msgs_valid(s: Seq<MessageModel>) -> bool {
    forall|i: int| 0 <= i < s.len() ==> msg_valid(#[trigger] s[i])
}

/// The writer mutations one document-level change stages: indexing stages
/// the delete-then-add pair; a delete stages the delete alone.
pub open spec fn detail_ops(d: DetailModel) -> Seq<OpModel> {
    match d {
        DetailModel::IndexSingleDoc(doc) => index_doc_ops(doc),
        DetailModel::DeleteSingleDoc(id) => seq![OpModel::DeleteTerm(id)],
    }
}

/// The writer mutations one message stages.
pub open spec fn msg_ops(m: MessageModel) -> Seq<OpModel> {
    detail_ops(m.detail)
}

/// The mutations the polled set contributes to index `id`, in arrival
/// order.
pub open spec fn ops_for_index(msgs: Seq<MessageModel>, id: Seq<char>) -> Seq<OpModel>
    decreases msgs.len(),
{
    if msgs.len() == 0 {
        Seq::empty()
    } else if msgs.last().index_id == id {
        ops_for_index(msgs.drop_last(), id) + msg_ops(msgs.last())
    } else {
        ops_for_index(msgs.drop_last(), id)
    }
}

/// Stages a delete mutation on the writer: every document whose id field
/// equals `doc_id` will go away at the next commit; no error if none does.
pub fn delete_doc(writer: &mut IndexWriter, doc_id: &str)
    ensures
        final(writer).staged_ops() == old(writer).staged_ops().push(OpModel::DeleteTerm(doc_id@)),
        final(writer).committed() == old(writer).committed(),
        final(writer).writer_index_id() == old(writer).writer_index_id(),
        final(writer).merging() == old(writer).merging(),
{
    writer.delete_term(doc_id);
}

/// Stages an index mutation with upsert semantics: first a delete of any
/// existing document whose id field equals the document's id, then the add
/// of the document itself. Repeating this for the same id is idempotent in
/// final content: the last write wins.
pub fn index_doc(writer: &mut IndexWriter, doc: Document)
    requires
        doc_id_of(doc@) is Some,
    ensures
        final(writer).staged_ops() == old(writer).staged_ops() + index_doc_ops(doc@),
        final(writer).committed() == old(writer).committed(),
        final(writer).writer_index_id() == old(writer).writer_index_id(),
        final(writer).merging() == old(writer).merging(),
{
    let ghost dm = doc@;
    let doc_id = match doc.get_id() {
        Some(s) => s.clone(),
        None => vstd::pervasive::unreached(),
    };
    delete_doc(writer, doc_id.as_str());
    writer.add_document(doc);
    proof {
        assert(final(writer).staged_ops() =~= old(writer).staged_ops() + index_doc_ops(dm));
    }
}

/// Applies one polled set of messages: groups them by index id, applies
/// each index's mutations in arrival order through one writer handle,
/// then commits every writer touched and waits out its merges.
///
/// On success, each touched index holds exactly its prior documents with
/// the set's mutations applied in order, and untouched indexes are exactly
/// as they were. On a validation failure nothing was committed: the
/// durable state is untouched.
pub fn handle_batch(provider: &mut IndexProvider, messages: &Vec<WriterMessage>) -> (r: Result<
    (),
    WorkerError,
>)
    ensures
        r is Ok <==> msgs_valid(msg_models(messages@)),
        r is Err ==> *final(provider) == *old(provider) && r == Err::<(), WorkerError>(
            WorkerError::ValidationError,
        ),
        r is Ok ==> forall|id: Seq<char>|
            (#[trigger] ops_for_index(msg_models(messages@), id)).len() == 0 ==> {
                &&& final(provider).model().contains_key(id) == old(provider).model().contains_key(
                    id,
                )
                &&& old(provider).model().contains_key(id) ==> final(provider).model()[id] == old(
                    provider,
                ).model()[id]
            },
        r is Ok ==> forall|id: Seq<char>|
            (#[trigger] ops_for_index(msg_models(messages@), id)).len() > 0 ==> {
                &&& final(provider).model().contains_key(id)
                &&& final(provider).model()[id] == apply_ops(
                    docs_of(old(provider).model(), id),
                    ops_for_index(msg_models(messages@), id),
                )
            },
{
    let ghost mm = msg_models(messages@);
    let ghost old_model = old(provider).model();

    // RECEIVE: every message must be applicable before anything is staged.
    let mut k: usize = 0;
    while k < messages.len()
        invariant
            k <= messages.len(),
            mm == msg_models(messages@),
            *provider == *old(provider),
            forall|i: int| 0 <= i < k ==> msg_valid(#[trigger] mm[i]),
        decreases messages.len() - k,
    {
        match &messages[k].detail {
            WriterMessageDetail::IndexSingleDoc { document } => {
                if document.get_id().is_none() {
                    proof {
                        assert(!msg_valid(mm[k as int]));
                    }
                    return Err(WorkerError::ValidationError);
                }
            },
            WriterMessageDetail::DeleteSingleDoc { doc_id: _ } => {},
        }
        k = k + 1;
    }

    // GROUP: the distinct index ids, in first-arrival order.
    let mut distinct_ids: Vec<String> = Vec::new();
    let mut k2: usize = 0;
    while k2 < messages.len()
        invariant
            k2 <= messages.len(),
            mm == msg_models(messages@),
            *provider == *old(provider),
            msgs_valid(mm),
            forall|a: int, b: int|
                0 <= a < b < distinct_ids.len() ==> distinct_ids@[a]@ != distinct_ids@[b]@,
            forall|id: Seq<char>|
                (#[trigger] ops_for_index(mm.take(k2 as int), id)).len() > 0 <==> distinct_ids@
                    .map_values(|s: String| s@).contains(id),
        decreases messages.len() - k2,
    {
        proof {
            lemma_take_step(mm, k2 as int);
        }
        let ghost ids = distinct_ids@.map_values(|s: String| s@);
        let id0 = &messages[k2].index_id;
        proof {
            assert(mm[k2 as int].index_id == id0@);
        }
        let mut present = false;
        let mut l: usize = 0;
        while l < distinct_ids.len() && !present
            invariant
                l <= distinct_ids.len(),
                ids == distinct_ids@.map_values(|s: String| s@),
                !present ==> forall|j: int| 0 <= j < l ==> distinct_ids@[j]@ != id0@,
                present ==> ids.contains(id0@),
            decreases distinct_ids.len() - l,
        {
            if distinct_ids[l] == *id0 {
                present = true;
                proof {
                    assert(ids[l as int] == id0@);
                }
            }
            l = l + 1;
        }
        if !present {
            distinct_ids.push(id0.clone());
            proof {
                assert(distinct_ids@.map_values(|s: String| s@) =~= ids.push(id0@));
            }
        }
        proof {
            let nids = distinct_ids@.map_values(|s: String| s@);
            if present {
                assert(nids == ids);
            }
            assert forall|id: Seq<char>|
                (#[trigger] ops_for_index(mm.take(k2 + 1), id)).len() > 0 <==> nids.contains(
                    id,
                ) by {
                assert(mm.take(k2 + 1).last() == mm[k2 as int]);
                assert(mm.take(k2 + 1).drop_last() == mm.take(k2 as int));
                if !present {
                    lemma_push_parts(ids, id0@);
                    lemma_contains_split(nids, id);
                }
                if id == id0@ {
                    assert(ops_for_index(mm.take(k2 + 1), id) == ops_for_index(
                        mm.take(k2 as int),
                        id,
                    ) + msg_ops(mm[k2 as int]));
                    assert(msg_ops(mm[k2 as int]).len() > 0);
                    assert(nids.contains(id));
                } else {
                    assert(ops_for_index(mm.take(k2 + 1), id) == ops_for_index(
                        mm.take(k2 as int),
                        id,
                    ));
                    assert(nids.contains(id) <==> ids.contains(id));
                }
            }
        }
        k2 = k2 + 1;
    }
    proof {
        lemma_take_full(mm);
    }

    // APPLY and COMMIT, one distinct index id at a time: open one writer
    // handle, stage that index's mutations in arrival order, commit, and
    // wait for its background merges before moving on.
    let ghost ids = distinct_ids@.map_values(|s: String| s@);
    let ghost pairs = distinct_ids@.map_values(
        |s: String| (s@, apply_ops(docs_of(old_model, s@), ops_for_index(mm, s@))),
    );
    let mut di: usize = 0;
    while di < distinct_ids.len()
        invariant
            di <= distinct_ids.len(),
            mm == msg_models(messages@),
            msgs_valid(mm),
            old_model == old(provider).model(),
            ids == distinct_ids@.map_values(|s: String| s@),
            pairs == distinct_ids@.map_values(
                |s: String| (s@, apply_ops(docs_of(old_model, s@), ops_for_index(mm, s@))),
            ),
            forall|a: int, b: int| 0 <= a < b < ids.len() ==> ids[a] != ids[b],
            forall|id: Seq<char>| (#[trigger] ops_for_index(mm, id)).len() > 0 <==> ids.contains(
                id,
            ),
            provider.model() == override_map(old_model, pairs.take(di as int)),
        decreases distinct_ids.len() - di,
    {
        let id = &distinct_ids[di];
        proof {
            assert(id@ == ids[di as int]);
            assert forall|j: int| 0 <= j < di implies (#[trigger] pairs.take(di as int)[j]).0
                != id@ by {
                assert(pairs.take(di as int)[j] == pairs[j]);
                assert(pairs[j].0 == ids[j]);
                assert(ids[j] != ids[di as int]);
            }
            lemma_override_absent(old_model, pairs.take(di as int), id@);
        }
        let idx = provider.load_index(id.as_str());
        let mut writer = idx.default_writer();
        proof {
            assert(writer.committed() == docs_of(old_model, id@));
            assert(writer.staged_ops() =~= ops_for_index(mm.take(0), id@));
        }
        let mut k3: usize = 0;
        while k3 < messages.len()
            invariant
                k3 <= messages.len(),
                mm == msg_models(messages@),
                msgs_valid(mm),
                id@ == ids[di as int],
                di < distinct_ids.len(),
                ids == distinct_ids@.map_values(|s: String| s@),
                writer.staged_ops() == ops_for_index(mm.take(k3 as int), id@),
                writer.committed() == docs_of(old_model, id@),
                writer.writer_index_id() == id@,
            decreases messages.len() - k3,
        {
            proof {
                lemma_take_step(mm, k3 as int);
            }
            if messages[k3].index_id == *id {
                match &messages[k3].detail {
                    WriterMessageDetail::IndexSingleDoc { document } => {
                        index_doc(&mut writer, document.duplicate());
                        proof {
                            assert(writer.staged_ops() =~= ops_for_index(mm.take(k3 as int), id@)
                                + msg_ops(mm[k3 as int]));
                        }
                    },
                    WriterMessageDetail::DeleteSingleDoc { doc_id } => {
                        delete_doc(&mut writer, doc_id.as_str());
                        proof {
                            assert(writer.staged_ops() =~= ops_for_index(mm.take(k3 as int), id@)
                                + msg_ops(mm[k3 as int]));
                        }
                    },
                }
            }
            k3 = k3 + 1;
        }
        proof {
            lemma_take_full(mm);
        }
        writer.commit();
        writer.wait_merging_threads();
        let committed = writer.into_index();
        provider.store_index(committed);
        proof {
            lemma_take_step(pairs, di as int);
        }
        di = di + 1;
    }
    proof {
        lemma_take_full(pairs);
        assert forall|id: Seq<char>| (#[trigger] ops_for_index(mm, id)).len() == 0 implies {
            &&& provider.model().contains_key(id) == old_model.contains_key(id)
            &&& old_model.contains_key(id) ==> provider.model()[id] == old_model[id]
        } by {
            assert forall|j: int| 0 <= j < pairs.len() implies (#[trigger] pairs[j]).0 != id by {
                assert(pairs[j].0 == ids[j]);
                assert(ids.contains(ids[j]));
            }
            lemma_override_absent(old_model, pairs, id);
        }
        assert forall|id: Seq<char>| (#[trigger] ops_for_index(mm, id)).len() > 0 implies {
            &&& provider.model().contains_key(id)
            &&& provider.model()[id] == apply_ops(docs_of(old_model, id), ops_for_index(mm, id))
        } by {
            let j = choose|j: int| 0 <= j < ids.len() && ids[j] == id;
            assert(pairs[j].0 == id);
            assert forall|l: int| 0 <= l < pairs.len() && l != j implies (#[trigger] pairs[l]).0
                != pairs[j].0 by {
                assert(pairs[l].0 == ids[l]);
            }
            lemma_override_present(old_model, pairs, j);
        }
    }
    Ok(())
}

/// Runs one invocation over the decoded bodies of one polled set of queue
/// messages. A body that failed to decode (`None`) fails the whole
/// invocation with `MessageDecodeError` before anything is applied;
/// otherwise the set is applied as `handle_batch` does.
pub fn handle_event(provider: &mut IndexProvider, bodies: &Vec<Option<WriterMessage>>) -> (r: Result<
    (),
    WorkerError,
>)
    ensures
        r == Err::<(), WorkerError>(WorkerError::MessageDecodeError) <==> !all_decoded(bodies@),
        r is Err ==> *final(provider) == *old(provider),
        all_decoded(bodies@) ==> {
            &&& (r is Ok <==> msgs_valid(decoded_models(bodies@)))
            &&& (r is Err ==> r == Err::<(), WorkerError>(WorkerError::ValidationError))
            &&& (r is Ok ==> forall|id: Seq<char>|
                (#[trigger] ops_for_index(decoded_models(bodies@), id)).len() == 0 ==> {
                    &&& final(provider).model().contains_key(id) == old(
                        provider,
                    ).model().contains_key(id)
                    &&& old(provider).model().contains_key(id) ==> final(provider).model()[id]
                        == old(provider).model()[id]
                })
            &&& (r is Ok ==> forall|id: Seq<char>|
                (#[trigger] ops_for_index(decoded_models(bodies@), id)).len() > 0 ==> {
                    &&& final(provider).model().contains_key(id)
                    &&& final(provider).model()[id] == apply_ops(
                        docs_of(old(provider).model(), id),
                        ops_for_index(decoded_models(bodies@), id),
                    )
                })
        },
{
    let mut msgs: Vec<WriterMessage> = Vec::new();
    let mut k: usize = 0;
    proof {
        assert(msg_models(msgs@) =~= decoded_models(bodies@.take(0)));
    }
    while k < bodies.len()
        invariant
            k <= bodies.len(),
            forall|i: int| 0 <= i < k ==> (#[trigger] bodies@[i]) is Some,
            msg_models(msgs@) == decoded_models(bodies@.take(k as int)),
        decreases bodies.len() - k,
    {
        match &bodies[k] {
            Some(m) => {
                let ghost mv = m@;
                msgs.push(m.duplicate());
                proof {
                    lemma_take_step(bodies@, k as int);
                    assert(msg_models(msgs@) =~= decoded_models(bodies@.take(k as int)).push(mv));
                    assert(decoded_models(bodies@.take(k + 1)) =~= decoded_models(
                        bodies@.take(k as int),
                    ).push(bodies@[k as int].unwrap()@));
                }
            },
            None => {
                proof {
                    assert(bodies@[k as int] is None);
                    assert(!all_decoded(bodies@));
                }
                return Err(WorkerError::MessageDecodeError);
            },
        }
        k = k + 1;
    }
    proof {
        lemma_take_full(bodies@);
        assert(all_decoded(bodies@));
    }
    handle_batch(provider, &msgs)
}

/// An ordered batch of document mutations for one index. The client
/// accumulates mutations in caller-supplied order, then `write_batch`
/// turns the batch into the queue messages to enqueue.
pub struct WriteBatch {
    index_id: String,
    ops: Vec<WriterMessageDetail>,
}

/// The messages a batch stands for: one per mutation, in batch order, each
/// keyed by the batch's index id.
pub open spec fn batch_messages(details: Seq<DetailModel>, bid: Seq<char>) -> Seq<MessageModel> {
    details.map_values(|d: DetailModel| MessageModel { index_id: bid, detail: d })
}

/// The writer mutations a batch's changes stage, in batch order.
pub open spec fn details_ops(details: Seq<DetailModel>) -> Seq<OpModel>
    decreases details.len(),
{
    if details.len() == 0 {
        Seq::empty()
    } else {
        details_ops(details.drop_last()) + detail_ops(details.last())
    }
}

impl WriteBatch {
    /// The index this batch is scoped to.
    pub closed spec fn id(&self) -> Seq<char> {
        self.index_id@
    }

    /// The accumulated mutations, in caller-supplied order.
    pub closed spec fn details(&self) -> Seq<DetailModel> {
        self.ops@.map_values(|d: WriterMessageDetail| d@)
    }

    /// Appends an index (upsert) mutation for a document, which must carry
    /// an id to upsert by.
    pub fn index_doc(&mut self, doc: Document)
        requires
            doc_id_of(doc@) is Some,
        ensures
            final(self).details() == old(self).details().push(DetailModel::IndexSingleDoc(doc@)),
            final(self).id() == old(self).id(),
    {
        let ghost prev = self.ops@;
        let ghost dm = doc@;
        self.ops.push(WriterMessageDetail::IndexSingleDoc { document: doc });
        proof {
            assert(self.details() =~= prev.map_values(|d: WriterMessageDetail| d@).push(
                DetailModel::IndexSingleDoc(dm),
            ));
        }
    }

    /// Appends a delete mutation for a document id.
    pub fn delete_doc(&mut self, doc_id: &str)
        ensures
            final(self).details() == old(self).details().push(
                DetailModel::DeleteSingleDoc(doc_id@),
            ),
            final(self).id() == old(self).id(),
    {
        let ghost prev = self.ops@;
        self.ops.push(WriterMessageDetail::DeleteSingleDoc { doc_id: doc_id.to_owned() });
        proof {
            assert(self.details() =~= prev.map_values(|d: WriterMessageDetail| d@).push(
                DetailModel::DeleteSingleDoc(doc_id@),
            ));
        }
    }
}

/// A fresh, empty batch scoped to one index.
pub fn batch(index_id: &str) -> (r: WriteBatch)
    ensures
        r.id() == index_id@,
        r.details() == Seq::<DetailModel>::empty(),
{
    let r = WriteBatch { index_id: index_id.to_owned(), ops: Vec::new() };
    proof {
        assert(r.details() =~= Seq::<DetailModel>::empty());
    }
    r
}

/// Turns a batch into its ordered queue messages, one per mutation, each
/// carrying the batch's index id as its ordering group key. Enqueueing
/// them acknowledges the write only: the batch is applied asynchronously,
/// by the worker, when the messages are delivered.
pub fn write_batch(batch: WriteBatch) -> (r: Vec<WriterMessage>)
    ensures
        msg_models(r@) == batch_messages(batch.details(), batch.id()),
{
    let ghost dm = batch.details();
    let ghost bid = batch.id();
    let WriteBatch { index_id, mut ops } = batch;
    let mut msgs: Vec<WriterMessage> = Vec::new();
    proof {
        assert(msg_models(msgs@) =~= batch_messages(dm.take(0), bid));
    }
    while ops.len() > 0
        invariant
            msgs.len() + ops.len() == dm.len(),
            index_id@ == bid,
            ops@.map_values(|d: WriterMessageDetail| d@) == dm.skip(msgs.len() as int),
            msg_models(msgs@) == batch_messages(dm.take(msgs.len() as int), bid),
        decreases ops.len(),
    {
        let ghost n = msgs.len() as int;
        let d = ops.remove(0);
        proof {
            assert(ops@.map_values(|d: WriterMessageDetail| d@) =~= dm.skip(n).remove(0));
            assert(dm.skip(n).remove(0) =~= dm.skip(n + 1));
            assert(dm.skip(n)[0] == dm[n]);
            assert(d@ == dm[n]);
        }
        let ghost prevm = msgs@;
        msgs.push(WriterMessage { index_id: index_id.clone(), detail: d });
        proof {
            lemma_take_step(dm, n);
            assert(msg_models(msgs@) =~= msg_models(prevm).push(
                MessageModel { index_id: bid, detail: dm[n] },
            ));
            assert(batch_messages(dm.take(n + 1), bid) =~= batch_messages(dm.take(n), bid).push(
                MessageModel { index_id: bid, detail: dm[n] },
            ));
        }
    }
    proof {
        lemma_take_full(dm);
    }
    msgs
}

/// What one batch contributes to the worker: its mutations reach exactly
/// its own index, in submission order, and no other index is touched.
/// Together with the worker's contract, a committed batch leaves its index
/// holding its prior documents with the batch's mutations applied in
/// order.
pub proof fn lemma_batch_targets_one_index(
    details: Seq<DetailModel>,
    bid: Seq<char>,
    other: Seq<char>,
)
    ensures
        ops_for_index(batch_messages(details, bid), bid) == details_ops(details),
        other != bid ==> ops_for_index(batch_messages(details, bid), other) == Seq::<
            OpModel,
        >::empty(),
    decreases details.len(),
{
    let msgs = batch_messages(details, bid);
    if details.len() == 0 {
    } else {
        lemma_batch_targets_one_index(details.drop_last(), bid, other);
        assert(msgs.drop_last() =~= batch_messages(details.drop_last(), bid));
        assert(msgs.last() == MessageModel { index_id: bid, detail: details.last() });
    }
}

/// Whether every polled message body decoded to a mutation record.
pub open spec fn all_decoded(s: Seq<Option<WriterMessage>>) -> bool {
    forall|i: int| 0 <= i < s.len() ==> (#[trigger] s[i]) is Some
}

/// The abstract forms of the decoded message bodies, in arrival order.
pub open spec fn decoded_models(s: Seq<Option<WriterMessage>>) -> Seq<MessageModel> {
    s.map_values(|b: Option<WriterMessage>| b.unwrap()@)
}

} // verus!
