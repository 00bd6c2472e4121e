use pathery::document::Document;
use pathery::index::IndexLoader;
use pathery::index::IndexProvider;
use pathery::index::SearchIndex;
use pathery::worker::batch;
use pathery::worker::handle_batch;
use pathery::worker::handle_event;
use pathery::worker::index_doc;
use pathery::worker::write_batch;
use pathery::worker::WorkerError;
use pathery::worker::WriterMessage;
use pathery::worker::WriterMessageDetail;

fn doc(id: &str, title: &str) -> Document {
    let mut d = Document::new();
    d.add_text("__id", id);
    d.add_text("title", title);
    d
}

fn field_value(d: &Document, name: &str) -> Option<String> {
    for f in d.fields.iter() {
        if f.name == name {
            return Some(f.value.clone());
        }
    }
    None
}

fn index_msg(index_id: &str, document: Document) -> WriterMessage {
    WriterMessage {
        index_id: index_id.to_owned(),
        detail: WriterMessageDetail::IndexSingleDoc { document },
    }
}

fn delete_msg(index_id: &str, doc_id: &str) -> WriterMessage {
    WriterMessage {
        index_id: index_id.to_owned(),
        detail: WriterMessageDetail::DeleteSingleDoc { doc_id: doc_id.to_owned() },
    }
}

#[test]
fn upsert_same_id_keeps_last_write() {
    let mut provider = IndexProvider::lambda();
    let messages = vec![
        index_msg("books", doc("1", "A")),
        index_msg("books", doc("1", "B")),
    ];

    handle_batch(&mut provider, &messages).unwrap();

    let reader = provider.load_index("books").reader();
    assert_eq!(1, reader.num_docs());
    assert_eq!(1, reader.count_docs_with_id("1"));
    let found = reader.find_doc_by_id("1").unwrap();
    assert_eq!(Some("B".to_owned()), field_value(found, "title"));
}

#[test]
fn delete_after_index_leaves_no_document() {
    let mut provider = IndexProvider::lambda();
    let messages = vec![
        index_msg("books", doc("1", "A")),
        delete_msg("books", "1"),
    ];

    handle_batch(&mut provider, &messages).unwrap();

    let reader = provider.load_index("books").reader();
    assert_eq!(0, reader.num_docs());
    assert_eq!(0, reader.count_docs_with_id("1"));
    assert!(reader.find_doc_by_id("1").is_none());
}

#[test]
fn delete_of_absent_id_is_no_error() {
    let mut provider = IndexProvider::lambda();
    let messages = vec![delete_msg("books", "missing")];

    handle_batch(&mut provider, &messages).unwrap();

    let reader = provider.load_index("books").reader();
    assert_eq!(0, reader.num_docs());
}

#[test]
fn messages_are_grouped_by_index_id() {
    let mut provider = IndexProvider::lambda();
    let messages = vec![
        index_msg("alpha", doc("x", "one")),
        index_msg("beta", doc("y", "two")),
        delete_msg("alpha", "x"),
        index_msg("beta", doc("z", "three")),
    ];

    handle_batch(&mut provider, &messages).unwrap();

    assert_eq!(0, provider.load_index("alpha").reader().num_docs());
    assert_eq!(2, provider.load_index("beta").reader().num_docs());
    // an index never touched resolves to a fresh, empty location
    assert_eq!(0, provider.load_index("gamma").reader().num_docs());
}

#[test]
fn batches_accumulate_across_invocations() {
    let mut provider = IndexProvider::lambda();

    handle_batch(&mut provider, &vec![index_msg("books", doc("1", "A"))]).unwrap();
    handle_batch(&mut provider, &vec![index_msg("books", doc("2", "B"))]).unwrap();

    let reader = provider.load_index("books").reader();
    assert_eq!(2, reader.num_docs());
    assert_eq!(1, reader.count_docs_with_id("1"));
    assert_eq!(1, reader.count_docs_with_id("2"));
}

#[test]
fn document_without_id_fails_whole_invocation() {
    let mut provider = IndexProvider::lambda();
    let mut no_id = Document::new();
    no_id.add_text("title", "stray");
    let messages = vec![
        index_msg("books", doc("1", "A")),
        index_msg("books", no_id),
    ];

    let result = handle_batch(&mut provider, &messages);

    assert_eq!(Err(WorkerError::ValidationError), result);
    // nothing was committed: the durable state is untouched
    assert_eq!(0, provider.load_index("books").reader().num_docs());
}

#[test]
fn undecodable_body_fails_whole_invocation() {
    let mut provider = IndexProvider::lambda();
    let bodies = vec![Some(index_msg("books", doc("1", "A"))), None];

    let result = handle_event(&mut provider, &bodies);

    assert_eq!(Err(WorkerError::MessageDecodeError), result);
    assert_eq!(0, provider.load_index("books").reader().num_docs());
}

#[test]
fn decoded_event_is_applied() {
    let mut provider = IndexProvider::lambda();
    let bodies = vec![
        Some(index_msg("books", doc("1", "A"))),
        Some(index_msg("books", doc("1", "B"))),
    ];

    handle_event(&mut provider, &bodies).unwrap();

    let reader = provider.load_index("books").reader();
    assert_eq!(1, reader.num_docs());
    let found = reader.find_doc_by_id("1").unwrap();
    assert_eq!(Some("B".to_owned()), field_value(found, "title"));
}

#[test]
fn reader_observes_only_committed_generations() {
    let index = SearchIndex::create("books");
    let mut writer = index.default_writer();

    index_doc(&mut writer, doc("1", "A"));

    // a reader opened before the commit observes no staged document
    let before = index.reader();
    assert_eq!(0, before.num_docs());
    assert_eq!(0, before.count_docs_with_id("1"));

    writer.commit();
    writer.wait_merging_threads();
    let committed = writer.into_index();

    // a reader opened after commit-and-merge-wait observes it
    let after = committed.reader();
    assert_eq!(1, after.num_docs());
    assert_eq!(1, after.count_docs_with_id("1"));
}

#[test]
fn write_batch_yields_one_message_per_mutation_in_order() {
    let mut b = batch("books");
    b.index_doc(doc("1", "A"));
    b.delete_doc("1");

    let messages = write_batch(b);

    assert_eq!(2, messages.len());
    assert!(messages.iter().all(|m| m.index_id == "books"));
    assert!(matches!(
        messages[0].detail,
        WriterMessageDetail::IndexSingleDoc { .. }
    ));
    assert!(matches!(
        messages[1].detail,
        WriterMessageDetail::DeleteSingleDoc { .. }
    ));

    // delivering the batch in order applies index-then-delete: no document
    let mut provider = IndexProvider::lambda();
    handle_batch(&mut provider, &messages).unwrap();
    assert_eq!(0, provider.load_index("books").reader().num_docs());
}
