//! The write boundary of the index service: validating a decoded write
//! payload, settling its document id, and mapping rejections to the
//! boundary's error replies. Decoding the HTTP body and checking fields
//! against the index schema happen where the payload is decoded, outside
//! this crate's scope; this module owns what comes after.

use vstd::prelude::*;

use crate::document::doc_id_of;
use crate::document::id_field_name;
use crate::document::Document;
use crate::index::DocModel;
use crate::seqs::lemma_take_full;
use crate::seqs::lemma_take_step;
use crate::worker::batch;
use crate::worker::DetailModel;
use crate::worker::WriteBatch;

verus! {

/// Path parameters of the index routes: which index the request addresses.
pub struct PathParams {
    pub index_id: String,
}

/// Reply to an accepted write: the document's id (the one supplied, or the
/// one generated for it) and the timestamp of the update.
pub struct PostIndexResponse {
    pub doc_id: String,
    pub updated_at: String,
}

/// Body of a query request.
pub struct QueryRequest {
    pub query: String,
}

/// Why a write payload was rejected before reaching the writer pipeline.
#[derive(Debug, PartialEq, Eq)]
pub enum IndexDocError {
    /// The payload was not a JSON object.
    NotJsonObject,
    /// The payload mapped to a document with no field at all.
    EmptyDoc,
    /// A field could not be parsed against the index schema.
    DocParsingError { message: String },
}

/// An error reply of the write boundary: status code and message.
pub struct ErrorResponse {
    pub status: u16,
    pub message: String,
}

/// The message each rejection carries in its reply.
pub open spec fn index_doc_error_message(e: IndexDocError) -> Seq<char> {
    match e {
        IndexDocError::NotJsonObject => "Expected JSON object"@,
        IndexDocError::EmptyDoc => "Request JSON object is empty"@,
        IndexDocError::DocParsingError { message } => message@,
    }
}

/// Turns a rejection into the boundary's reply: every write rejection is a
/// validation error, status 400, with the matching message.
pub fn error_response(err: IndexDocError) -> (r: ErrorResponse)
    ensures
        r.status == 400,
        r.message@ == index_doc_error_message(err),
{
    match err {
        IndexDocError::NotJsonObject => ErrorResponse {
            status: 400,
            message: "Expected JSON object".to_owned(),
        },
        IndexDocError::EmptyDoc => ErrorResponse {
            status: 400,
            message: "Request JSON object is empty".to_owned(),
        },
        IndexDocError::DocParsingError { message } => ErrorResponse { status: 400, message },
    }
}

/// Validates a decoded write payload and settles its id: an empty document
/// is rejected; a document already carrying `__id` keeps it; one without
/// gets `generated_id` appended as its `__id` field. Returns the settled
/// id together with the document to index.
pub fn prepare_document(document: Document, generated_id: &str) -> (r: Result<
    (String, Document),
    IndexDocError,
>)
    ensures
        r is Err <==> document@.len() == 0,
        r is Err ==> r == Err::<(String, Document), IndexDocError>(IndexDocError::EmptyDoc),
        r matches Ok(p) ==> match doc_id_of(document@) {
            Some(id) => p.0@ == id && p.1@ == document@,
            None => p.0@ == generated_id@ && p.1@ == document@.push(
                (id_field_name(), generated_id@),
            ),
        },
        r matches Ok(p) ==> doc_id_of(p.1@) is Some && p.0@ == doc_id_of(p.1@).unwrap(),
{
    if document.fields.len() == 0 {
        return Err(IndexDocError::EmptyDoc);
    }
    let existing = match document.get_id() {
        Some(s) => Some(s.clone()),
        None => None,
    };
    match existing {
        Some(id) => Ok((id, document)),
        None => {
            let mut doc = document;
            let ghost dm = doc@;
            doc.add_text("__id", generated_id);
            proof {
                lemma_id_of_appended(dm, generated_id@);
            }
            Ok((generated_id.to_owned(), doc))
        },
    }
}

/// A document as it enters the batch once its id is settled: one that
/// carries `__id` is kept as it is; one without gets the generated id
/// appended.
pub open spec fn prepared_doc(d: DocModel, generated: Seq<char>) -> DocModel {
    if doc_id_of(d) is Some {
        d
    } else {
        d.push((id_field_name(), generated))
    }
}

/// The batch contents a batch write request stands for: each document in
/// order, its id settled against the generated id of the same position.
pub open spec fn prepared_details(docs: Seq<DocModel>, generated: Seq<Seq<char>>) -> Seq<
    DetailModel,
>
    decreases docs.len(),
{
    if docs.len() == 0 {
        Seq::empty()
    } else {
        prepared_details(docs.drop_last(), generated).push(
            DetailModel::IndexSingleDoc(prepared_doc(docs.last(), generated[docs.len() - 1])),
        )
    }
}

/// Builds the write batch for a batch write request: every document is
/// validated and has its id settled, in request order, with the generated
/// id of the same position standing ready for a document without one. The
/// first empty document rejects the whole request; no partial batch is
/// built.
pub fn batch_index_docs(index_id: &str, docs: &Vec<Document>, generated_ids: &Vec<String>) -> (r:
    Result<WriteBatch, IndexDocError>)
    requires
        docs@.len() <= generated_ids@.len(),
    ensures
        r is Ok <==> forall|i: int| 0 <= i < docs@.len() ==> (#[trigger] docs@[i]@).len() > 0,
        r is Err ==> r == Err::<WriteBatch, IndexDocError>(IndexDocError::EmptyDoc),
        r matches Ok(b) ==> b.id() == index_id@ && b.details() == prepared_details(
            docs@.map_values(|d: Document| d@),
            generated_ids@.map_values(|s: String| s@),
        ),
{
    let ghost dm = docs@.map_values(|d: Document| d@);
    let ghost gm = generated_ids@.map_values(|s: String| s@);
    let mut b = batch(index_id);
    let mut i: usize = 0;
    proof {
        assert(prepared_details(dm.take(0), gm) =~= Seq::<DetailModel>::empty());
    }
    while i < docs.len()
        invariant
            i <= docs.len(),
            docs@.len() <= generated_ids@.len(),
            dm == docs@.map_values(|d: Document| d@),
            gm == generated_ids@.map_values(|s: String| s@),
            b.id() == index_id@,
            b.details() == prepared_details(dm.take(i as int), gm),
            forall|j: int| 0 <= j < i ==> (#[trigger] docs@[j]@).len() > 0,
        decreases docs.len() - i,
    {
        proof {
            lemma_take_step(dm, i as int);
        }
        match prepare_document(docs[i].duplicate(), generated_ids[i].as_str()) {
            Ok(p) => {
                let (_doc_id, prepared) = p;
                b.index_doc(prepared);
            },
            Err(e) => {
                proof {
                    assert(docs@[i as int]@.len() == 0);
                }
                return Err(e);
            },
        }
        i = i + 1;
    }
    proof {
        lemma_take_full(dm);
    }
    Ok(b)
}

/// Appending an `__id` field to a document that has none makes that the
/// document's id.
proof fn lemma_id_of_appended(fields: Seq<(Seq<char>, Seq<char>)>, id: Seq<char>)
    requires
        doc_id_of(fields) is None,
    ensures
        doc_id_of(fields.push((id_field_name(), id))) == Some(id),
    decreases fields.len(),
{
    let pushed = fields.push((id_field_name(), id));
    if fields.len() == 0 {
        assert(pushed[0].0 == id_field_name());
    } else {
        lemma_id_of_appended(fields.drop_first(), id);
        assert(pushed[0] == fields[0]);
        assert(pushed.drop_first() =~= fields.drop_first().push((id_field_name(), id)));
    }
}

} // verus!
