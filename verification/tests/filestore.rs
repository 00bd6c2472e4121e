use pathery::directory::PatheryDirectory;
use pathery::filestore::format_file_content_pk;
use pathery::filestore::format_file_header_pk;
use pathery::filestore::format_file_header_sk;
use pathery::filestore::FileStore;
use pathery::filestore::KvFileStore;
use pathery::filestore::MAX_CONTENT_LEN;

#[test]
fn write_and_read_file() {
    let mut store = KvFileStore::create("table", "store-1");

    assert_eq!(false, store.file_exists("hello.txt"));

    let content = "hello world!".as_bytes().to_vec();

    store.write_file("hello.txt", &content).unwrap();

    assert_eq!(true, store.file_exists("hello.txt"));

    let files = store.list_files();

    assert_eq!(vec!["hello.txt"], files);

    let read_content = store.get_content(files.get(0).unwrap());

    assert_eq!(content, read_content);

    store.delete("hello.txt");

    assert_eq!(false, store.file_exists("hello.txt"));
}

#[test]
fn file_round_trip() {
    let mut store = KvFileStore::create("table", "store-2");

    store.write_file("a.txt", b"hi").unwrap();

    assert_eq!(true, store.file_exists("a.txt"));
    assert_eq!(vec!["a.txt"], store.list_files());
    assert_eq!(b"hi".to_vec(), store.get_content("a.txt"));

    store.delete("a.txt");

    assert_eq!(false, store.file_exists("a.txt"));
}

#[test]
fn missing_content_reads_as_empty() {
    let store = KvFileStore::create("table", "store-3");

    let content = store.get_content("never-written.txt");

    assert_eq!(Vec::<u8>::new(), content);
}

#[test]
fn delete_leaves_content_as_orphan() {
    let mut store = KvFileStore::create("table", "store-4");

    store.write_file("seg.dat", b"payload").unwrap();
    store.delete("seg.dat");

    // the header record is gone, so the file neither exists nor is listed
    assert_eq!(false, store.file_exists("seg.dat"));
    assert_eq!(Vec::<String>::new(), store.list_files());
    // but the content record deliberately lingers
    assert_eq!(b"payload".to_vec(), store.get_content("seg.dat"));
}

#[test]
fn listing_tracks_writes_and_deletes() {
    let mut store = KvFileStore::create("table", "store-5");

    store.write_file("a", b"1").unwrap();
    store.write_file("b", b"2").unwrap();
    store.delete("a");
    store.write_file("c", b"3").unwrap();
    store.write_file("b", b"2-new").unwrap();

    assert_eq!(vec!["b", "c"], store.list_files());
    assert_eq!(b"2-new".to_vec(), store.get_content("b"));
}

#[test]
fn rejected_transaction_leaves_no_record() {
    let mut store = KvFileStore::create("table", "store-6");

    let oversized = vec![0u8; MAX_CONTENT_LEN + 1];
    let result = store.write_file("big.dat", &oversized);

    assert!(result.is_err());
    // neither header nor content record was persisted
    assert_eq!(false, store.file_exists("big.dat"));
    assert_eq!(Vec::<String>::new(), store.list_files());
    assert_eq!(Vec::<u8>::new(), store.get_content("big.dat"));
}

#[test]
fn largest_accepted_payload_round_trips() {
    let mut store = KvFileStore::create("table", "store-7");

    let payload = vec![7u8; MAX_CONTENT_LEN];
    store.write_file("max.dat", &payload).unwrap();

    assert_eq!(payload, store.get_content("max.dat"));
}

#[test]
fn directory_round_trips_through_the_backend() {
    let store = KvFileStore::create("table", "store-8");
    let mut dir = PatheryDirectory::open_or_create(store);

    assert_eq!(false, dir.file_exists("meta.json"));
    dir.write_atomic("meta.json", b"{}").unwrap();
    assert_eq!(true, dir.file_exists("meta.json"));
    assert_eq!(vec!["meta.json"], dir.list());
    assert_eq!(b"{}".to_vec(), dir.read("meta.json"));

    dir.delete("meta.json");
    assert_eq!(false, dir.file_exists("meta.json"));
    assert_eq!(Vec::<String>::new(), dir.list());
}

#[test]
fn record_keys_have_the_documented_shape() {
    assert_eq!("store|s-1|file_header", format_file_header_pk("s-1"));
    assert_eq!("file_header|a.txt", format_file_header_sk("a.txt"));
    assert_eq!(
        "store|s-1|file_content|a.txt",
        format_file_content_pk("s-1", "a.txt")
    );
}
