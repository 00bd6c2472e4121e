use pathery::document::Document;
use pathery::index::IndexLoader;
use pathery::index::IndexProvider;
use pathery::service::batch_index_docs;
use pathery::service::error_response;
use pathery::service::prepare_document;
use pathery::service::IndexDocError;
use pathery::service::PathParams;
use pathery::service::PostIndexResponse;
use pathery::service::QueryRequest;
use pathery::worker::handle_batch;
use pathery::worker::write_batch;

fn doc_with_id(id: &str) -> Document {
    let mut d = Document::new();
    d.add_text("__id", id);
    d.add_text("title", "Zen and the Art of Motorcycle Maintenance");
    d
}

#[test]
fn document_with_id_keeps_it() {
    let d = doc_with_id("given-id");

    let (doc_id, prepared) = prepare_document(d, "generated-id").unwrap();

    assert_eq!("given-id", doc_id);
    assert_eq!(2, prepared.fields.len());
}

#[test]
fn document_without_id_gets_generated_one() {
    let mut d = Document::new();
    d.add_text("title", "Zen and the Art of Motorcycle Maintenance");
    d.add_text("author", "Robert Pirsig");

    let (doc_id, prepared) = prepare_document(d, "generated-id").unwrap();

    assert_eq!("generated-id", doc_id);
    assert_eq!(3, prepared.fields.len());
    let id_field = prepared.fields.last().unwrap();
    assert_eq!("__id", id_field.name);
    assert_eq!("generated-id", id_field.value);
    assert_eq!("generated-id", prepared.get_id().unwrap().as_str());
}

#[test]
fn empty_document_is_rejected() {
    let d = Document::new();

    let result = prepare_document(d, "generated-id");

    assert_eq!(Err(IndexDocError::EmptyDoc), result);
}

#[test]
fn rejections_map_to_bad_request_replies() {
    let r = error_response(IndexDocError::NotJsonObject);
    assert_eq!(400, r.status);
    assert_eq!("Expected JSON object", r.message);

    let r = error_response(IndexDocError::EmptyDoc);
    assert_eq!(400, r.status);
    assert_eq!("Request JSON object is empty", r.message);

    let r = error_response(IndexDocError::DocParsingError {
        message: "The field 'title' could not be parsed".to_owned(),
    });
    assert_eq!(400, r.status);
    assert_eq!("The field 'title' could not be parsed", r.message);
}

#[test]
fn first_id_field_wins() {
    let mut d = Document::new();
    d.add_text("__id", "first");
    d.add_text("__id", "second");

    assert_eq!("first", d.get_id().unwrap().as_str());
}

#[test]
fn boundary_shapes_carry_their_fields() {
    let params = PathParams { index_id: "books".to_owned() };
    assert_eq!("books", params.index_id);

    let request = QueryRequest { query: "hello".to_owned() };
    assert_eq!("hello", request.query);

    let response = PostIndexResponse {
        doc_id: "1".to_owned(),
        updated_at: "2023-01-01T00:00:00Z".to_owned(),
    };
    assert_eq!("1", response.doc_id);
    assert_eq!("2023-01-01T00:00:00Z", response.updated_at);
}

#[test]
fn batch_write_settles_ids_and_applies_in_order() {
    let mut titled = Document::new();
    titled.add_text("title", "no id yet");
    let docs = vec![doc_with_id("given"), titled];
    let generated = vec!["gen-0".to_owned(), "gen-1".to_owned()];

    let batch = batch_index_docs("books", &docs, &generated).unwrap();
    let messages = write_batch(batch);

    assert_eq!(2, messages.len());
    assert!(messages.iter().all(|m| m.index_id == "books"));

    let mut provider = IndexProvider::lambda();
    handle_batch(&mut provider, &messages).unwrap();
    let reader = provider.load_index("books").reader();
    assert_eq!(2, reader.num_docs());
    assert_eq!(1, reader.count_docs_with_id("given"));
    // the document without an id got the generated id of its position
    assert_eq!(1, reader.count_docs_with_id("gen-1"));
    assert_eq!(0, reader.count_docs_with_id("gen-0"));
}

#[test]
fn batch_with_empty_document_is_rejected() {
    let docs = vec![doc_with_id("given"), Document::new()];
    let generated = vec!["gen-0".to_owned(), "gen-1".to_owned()];

    let result = batch_index_docs("books", &docs, &generated);

    match result {
        Err(e) => assert_eq!(IndexDocError::EmptyDoc, e),
        Ok(_) => panic!("an empty document must reject the batch"),
    }
}
