//! The durable file store: transactional key-value operations (write,
//! exists, list, get, delete) over files identified by a store id and a
//! path.
//!
//! Each file is represented by two records: a header record (existence and
//! listing metadata only) and a content record (the payload bytes). A write
//! persists both in one all-or-nothing transaction; a delete removes the
//! header record only, so a content record may linger as an orphan, and the
//! header records are the sole source of truth for existence and listing.

use vstd::prelude::*;

use vstd::string::StringExecFns;

use crate::seqs::lemma_contains_split;
use crate::seqs::lemma_push_parts;
use crate::seqs::lemma_take_full;
use crate::seqs::lemma_take_step;

verus! {

/// Largest content payload, in bytes, that the transactional write accepts;
/// a larger payload has the whole transaction rejected.
pub const MAX_CONTENT_LEN: usize = 400_000;

/// The transactional write of the durable store was rejected; neither the
/// header record nor the content record was persisted.
#[derive(Debug)]
pub struct StorageTransactionError;

/// The partition key under which all of a store's header records live,
/// so that existence checks and listing never touch content records.
pub fn format_file_header_pk(store_id: &str) -> (r: String)
    ensures
        r@ == "store|"@ + store_id@ + "|file_header"@,
{
    let mut r = String::from_str("store|");
    r.append(store_id);
    r.append("|file_header");
    r
}

/// The sort key of one header record within its store's partition.
pub fn format_file_header_sk(path: &str) -> (r: String)
    ensures
        r@ == "file_header|"@ + path@,
{
    let mut r = String::from_str("file_header|");
    r.append(path);
    r
}

/// The key of one content record; content records are addressed point-wise,
/// partition key and sort key alike.
pub fn format_file_content_pk(store_id: &str, path: &str) -> (r: String)
    ensures
        r@ == "store|"@ + store_id@ + "|file_content|"@ + path@,
{
    let mut r = String::from_str("store|");
    r.append(store_id);
    r.append("|file_content|");
    r.append(path);
    r
}

/// The abstract state of one store: the paths that currently have a header
/// record, in listing order, and the content records, keyed by path.
pub struct StoreModel {
    pub headers: Seq<Seq<char>>,
    pub contents: Map<Seq<char>, Seq<u8>>,
}

/// The store holding no records at all.
pub open spec fn empty_store() -> StoreModel {
    StoreModel { headers: Seq::empty(), contents: Map::empty() }
}

/// Whether the transactional write accepts a payload of this size.
pub open spec fn write_accepted(content: Seq<u8>) -> bool {
    content.len() <= MAX_CONTENT_LEN
}

/// The effect of an accepted write: the header record appears (once) and
/// the content record is replaced, both in the same transaction.
pub open spec fn store_write(m: StoreModel, path: Seq<char>, content: Seq<u8>) -> StoreModel {
    StoreModel {
        headers: if m.headers.contains(path) {
            m.headers
        } else {
            m.headers.push(path)
        },
        contents: m.contents.insert(path, content),
    }
}

/// The listing with every header record for `path` removed.
pub open spec fn remove_path(headers: Seq<Seq<char>>, path: Seq<char>) -> Seq<Seq<char>>
    decreases headers.len(),
{
    if headers.len() == 0 {
        Seq::empty()
    } else if headers.last() == path {
        remove_path(headers.drop_last(), path)
    } else {
        remove_path(headers.drop_last(), path).push(headers.last())
    }
}

/// The effect of a delete: the header record goes away; the content record
/// deliberately stays behind as an orphan.
pub open spec fn store_delete(m: StoreModel, path: Seq<char>) -> StoreModel {
    StoreModel { headers: remove_path(m.headers, path), contents: m.contents }
}

/// The file-system contract the embedded search engine requires, satisfied
/// by a remote transactional key-value backend instead of local disk. Every
/// backend variant must meet the same contract, stated over `model`.
pub trait FileStore: Sized {
    /// The abstract store state this backend currently holds.
    spec fn model(&self) -> StoreModel;

    /// Whether this backend would accept a write of `content` at `path`.
    spec fn accepts(&self, path: Seq<char>, content: Seq<u8>) -> bool;

    /// Atomically persists the header record and the content record in a
    /// single transaction: either both exist afterwards, or the state is
    /// exactly what it was.
    fn write_file(&mut self, path: &str, content: &[u8]) -> (r: Result<
        (),
        StorageTransactionError,
    >)
        ensures
            r is Ok <==> old(self).accepts(path@, content@),
            r is Ok ==> final(self).model() == store_write(old(self).model(), path@, content@),
            r is Err ==> final(self).model() == old(self).model(),
    ;

    /// Strongly-consistent read of the header record only.
    fn file_exists(&self, path: &str) -> (r: bool)
        ensures
            r == self.model().headers.contains(path@),
    ;

    /// Enumerates exactly the paths that currently have a header record.
    fn list_files(&self) -> (r: Vec<String>)
        ensures
            r@.map_values(|s: String| s@) == self.model().headers,
    ;

    /// Point read of the content record; a path with no content record
    /// reads as an empty byte sequence, never as an error.
    fn get_content(&self, path: &str) -> (r: Vec<u8>)
        ensures
            r@ == if self.model().contents.contains_key(path@) {
                self.model().contents[path@]
            } else {
                Seq::<u8>::empty()
            },
    ;

    /// Removes the header record; the content record is left in place.
    fn delete(&mut self, path: &str)
        ensures
            final(self).model() == store_delete(old(self).model(), path@),
    ;
}

/// One content record: the payload bytes stored for a path. The record
/// written last for a path is the authoritative one.
struct ContentRecord {
    path: String,
    content: Vec<u8>,
}

impl View for ContentRecord {
    type V = (Seq<char>, Seq<u8>);

    closed spec fn view(&self) -> (Seq<char>, Seq<u8>) {
        (self.path@, self.content@)
    }
}

/// The map that a sequence of content records denotes: later records for a
/// path supersede earlier ones.
pub open spec fn content_entries(s: Seq<(Seq<char>, Seq<u8>)>) -> Map<Seq<char>, Seq<u8>>
    decreases s.len(),
{
    if s.len() == 0 {
        Map::empty()
    } else {
        content_entries(s.drop_last()).insert(s.last().0, s.last().1)
    }
}

/// The transactional key-value backend of the file store, keyed by
/// `(store_id, path)`: header records and content records are held in
/// lockstep by all-or-nothing writes.
pub struct KvFileStore {
    table_name: String,
    store_id: String,
    headers: Vec<String>,
    contents: Vec<ContentRecord>,
}

impl KvFileStore {
    /// A fresh store for the namespace `(table_name, store_id)`, holding no
    /// records.
    pub fn create(table_name: &str, store_id: &str) -> (r: KvFileStore)
        ensures
            r.model() == empty_store(),
            forall|p: Seq<char>, c: Seq<u8>| #[trigger] r.accepts(p, c) == write_accepted(c),
    {
        let r = KvFileStore {
            table_name: table_name.to_owned(),
            store_id: store_id.to_owned(),
            headers: Vec::new(),
            contents: Vec::new(),
        };
        proof {
            assert(r.model().headers =~= empty_store().headers);
            assert(r.model().contents =~= empty_store().contents);
        }
        r
    }
}

impl FileStore for KvFileStore {
    closed spec fn model(&self) -> StoreModel {
        StoreModel {
            headers: self.headers@.map_values(|s: String| s@),
            contents: content_entries(self.contents@.map_values(|c: ContentRecord| c@)),
        }
    }

    open spec fn accepts(&self, path: Seq<char>, content: Seq<u8>) -> bool {
        write_accepted(content)
    }

    fn write_file(&mut self, path: &str, content: &[u8]) -> (r: Result<
        (),
        StorageTransactionError,
    >) {
        if content.len() > MAX_CONTENT_LEN {
            return Err(StorageTransactionError);
        }
        let ghost pre = self.model();
        if !self.file_exists(path) {
            self.headers.push(path.to_owned());
            proof {
                assert(self.model().headers =~= pre.headers.push(path@));
                assert(self.model().contents =~= pre.contents);
            }
        }
        let ghost mid = self.model();
        let record = ContentRecord { path: path.to_owned(), content: vstd::slice::slice_to_vec(content) };
        let ghost cm = self.contents@.map_values(|c: ContentRecord| c@);
        self.contents.push(record);
        proof {
            assert(self.contents@.map_values(|c: ContentRecord| c@) =~= cm.push((path@, content@)));
            lemma_push_parts(cm, (path@, content@));
            assert(self.model().headers =~= mid.headers);
            assert(self.model() == store_write(pre, path@, content@));
        }
        Ok(())
    }

    fn file_exists(&self, path: &str) -> (r: bool) {
        let p = path.to_owned();
        let mut i: usize = 0;
        while i < self.headers.len()
            invariant
                i <= self.headers.len(),
                p@ == path@,
                forall|j: int| 0 <= j < i ==> self.headers@[j]@ != path@,
            decreases self.headers.len() - i,
        {
            if self.headers[i] == p {
                proof {
                    assert(self.model().headers[i as int] == path@);
                }
                return true;
            }
            i = i + 1;
        }
        false
    }

    fn list_files(&self) -> (r: Vec<String>) {
        let mut r: Vec<String> = Vec::new();
        let mut i: usize = 0;
        while i < self.headers.len()
            invariant
                i <= self.headers.len(),
                r@.map_values(|s: String| s@) =~= self.model().headers.take(i as int),
            decreases self.headers.len() - i,
        {
            let ghost prev = r@;
            r.push(self.headers[i].clone());
            proof {
                assert(r@.map_values(|s: String| s@) =~= prev.map_values(|s: String| s@).push(
                    self.model().headers[i as int],
                ));
                lemma_take_step(self.model().headers, i as int);
            }
            i = i + 1;
        }
        proof {
            lemma_take_full(self.model().headers);
        }
        r
    }

    fn get_content(&self, path: &str) -> (r: Vec<u8>) {
        let p = path.to_owned();
        let ghost cm = self.contents@.map_values(|c: ContentRecord| c@);
        let mut r: Vec<u8> = Vec::new();
        let mut i: usize = 0;
        proof {
            assert(r@ =~= Seq::<u8>::empty());
        }
        while i < self.contents.len()
            invariant
                i <= self.contents.len(),
                p@ == path@,
                cm == self.contents@.map_values(|c: ContentRecord| c@),
                r@ == if content_entries(cm.take(i as int)).contains_key(path@) {
                    content_entries(cm.take(i as int))[path@]
                } else {
                    Seq::<u8>::empty()
                },
            decreases self.contents.len() - i,
        {
            proof {
                lemma_take_step(cm, i as int);
            }
            if self.contents[i].path == p {
                r = vstd::slice::slice_to_vec(self.contents[i].content.as_slice());
            }
            i = i + 1;
        }
        proof {
            lemma_take_full(cm);
        }
        r
    }

    fn delete(&mut self, path: &str) {
        let p = path.to_owned();
        let ghost hm = self.headers@.map_values(|s: String| s@);
        let mut kept: Vec<String> = Vec::new();
        let mut i: usize = 0;
        while i < self.headers.len()
            invariant
                i <= self.headers.len(),
                p@ == path@,
                hm == self.headers@.map_values(|s: String| s@),
                kept@.map_values(|s: String| s@) =~= remove_path(hm.take(i as int), path@),
            decreases self.headers.len() - i,
        {
            proof {
                lemma_take_step(hm, i as int);
            }
            if !(self.headers[i] == p) {
                let ghost prev = kept@;
                kept.push(self.headers[i].clone());
                proof {
                    assert(kept@.map_values(|s: String| s@) =~= prev.map_values(
                        |s: String| s@,
                    ).push(hm[i as int]));
                }
            }
            i = i + 1;
        }
        proof {
            lemma_take_full(hm);
        }
        let ghost cpre = self.model().contents;
        self.headers = kept;
        proof {
            assert(self.model().contents =~= cpre);
        }
    }
}

/// One mutation of the store, as the listing-completeness law speaks of it.
pub enum FileOp {
    Write { path: Seq<char>, content: Seq<u8> },
    Delete { path: Seq<char> },
}

/// The effect of one mutation: a write over the size limit is rejected
/// whole, leaving the state unchanged.
pub open spec fn apply_file_op(m: StoreModel, op: FileOp) -> StoreModel {
    match op {
        FileOp::Write { path, content } => if write_accepted(content) {
            store_write(m, path, content)
        } else {
            m
        },
        FileOp::Delete { path } => store_delete(m, path),
    }
}

/// The effect of a sequence of mutations, applied in order.
pub open spec fn apply_file_ops(m: StoreModel, ops: Seq<FileOp>) -> StoreModel
    decreases ops.len(),
{
    if ops.len() == 0 {
        m
    } else {
        apply_file_op(apply_file_ops(m, ops.drop_last()), ops.last())
    }
}

/// Whether the mutations leave `path` with a header record: the last
/// mutation touching `path` is an accepted write.
pub open spec fn header_live(ops: Seq<FileOp>, path: Seq<char>) -> bool
    decreases ops.len(),
{
    if ops.len() == 0 {
        false
    } else {
        match ops.last() {
            FileOp::Write { path: p, content: c } => if p == path {
                if write_accepted(c) {
                    true
                } else {
                    header_live(ops.drop_last(), path)
                }
            } else {
                header_live(ops.drop_last(), path)
            },
            FileOp::Delete { path: p } => if p == path {
                false
            } else {
                header_live(ops.drop_last(), path)
            },
        }
    }
}

/// Removing a path removes exactly its header records and no others.
pub proof fn lemma_remove_path_contains(headers: Seq<Seq<char>>, path: Seq<char>, q: Seq<char>)
    ensures
        remove_path(headers, path).contains(q) <==> (q != path && headers.contains(q)),
    decreases headers.len(),
{
    if headers.len() == 0 {
    } else {
        lemma_remove_path_contains(headers.drop_last(), path, q);
        lemma_contains_split(headers, q);
        if headers.last() == path {
        } else {
            lemma_contains_split(remove_path(headers.drop_last(), path).push(headers.last()), q);
            lemma_push_parts(remove_path(headers.drop_last(), path), headers.last());
        }
    }
}

/// File round-trip: after a write the path exists, is listed, and reads
/// back the bytes written; after a subsequent delete it no longer exists,
/// while the written bytes linger as an orphaned content record.
pub proof fn lemma_file_round_trip(m: StoreModel, path: Seq<char>, content: Seq<u8>)
    ensures
        store_write(m, path, content).headers.contains(path),
        store_write(m, path, content).contents.contains_key(path),
        store_write(m, path, content).contents[path] == content,
        !store_delete(store_write(m, path, content), path).headers.contains(path),
        store_delete(store_write(m, path, content), path).contents[path] == content,
{
    let w = store_write(m, path, content);
    if m.headers.contains(path) {
    } else {
        assert(w.headers[w.headers.len() - 1] == path);
    }
    lemma_remove_path_contains(w.headers, path, path);
}

/// Transaction atomicity: a rejected write leaves the store exactly as it
/// was, with neither a header record nor a content record for the path.
pub proof fn lemma_write_rejected_atomic(m: StoreModel, path: Seq<char>, content: Seq<u8>)
    requires
        !write_accepted(content),
    ensures
        apply_file_op(m, FileOp::Write { path, content }) == m,
{
}

/// Listing completeness: for any sequence of writes and deletes against an
/// initially empty store, a path has a header record (and so appears in the
/// listing) exactly when the mutations leave it live.
pub proof fn lemma_listing_completeness(ops: Seq<FileOp>, path: Seq<char>)
    ensures
        apply_file_ops(empty_store(), ops).headers.contains(path) <==> header_live(ops, path),
    decreases ops.len(),
{
    if ops.len() == 0 {
    } else {
        lemma_listing_completeness(ops.drop_last(), path);
        let pre = apply_file_ops(empty_store(), ops.drop_last());
        match ops.last() {
            FileOp::Write { path: p, content: c } => {
                if write_accepted(c) {
                    if pre.headers.contains(p) {
                    } else {
                        lemma_contains_split(pre.headers.push(p), path);
                        lemma_push_parts(pre.headers, p);
                    }
                }
            },
            FileOp::Delete { path: p } => {
                lemma_remove_path_contains(pre.headers, p, path);
            },
        }
    }
}

} // verus!
