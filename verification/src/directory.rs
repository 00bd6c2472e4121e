//! The durable directory: adapts a file store backend to the file-system
//! contract the embedded search engine requires (read, atomic write,
//! delete, listing, existence). It is generic over the backend, so the
//! transactional key-value store and any alternative backend are
//! interchangeable behind the same contract, and it treats the header
//! records as the sole source of truth: orphaned content records are never
//! surfaced by listing or existence checks.

use vstd::prelude::*;

use crate::filestore::store_delete;
use crate::filestore::store_write;
use crate::filestore::FileStore;
use crate::filestore::StorageTransactionError;
use crate::filestore::StoreModel;

verus! {

/// A directory for one index location, backed by a file store.
pub struct PatheryDirectory<S: FileStore> {
    store: S,
}

impl<S: FileStore> PatheryDirectory<S> {
    /// The store state behind the directory.
    pub closed spec fn model(&self) -> StoreModel {
        self.store.model()
    }

    /// Whether the backend would accept a write of `content` at `path`.
    pub closed spec fn accepts(&self, path: Seq<char>, content: Seq<u8>) -> bool {
        self.store.accepts(path, content)
    }

    /// Opens the location held by `store`, creating nothing: a location
    /// with no records is a freshly initialized, empty index location.
    pub fn open_or_create(store: S) -> (r: Self)
        ensures
            r.model() == store.model(),
            forall|p: Seq<char>, c: Seq<u8>| #[trigger]
                r.accepts(p, c) == store.accepts(p, c),
    {
        PatheryDirectory { store }
    }

    /// Reads a file's bytes; a path with no content record reads as empty.
    pub fn read(&self, path: &str) -> (r: Vec<u8>)
        ensures
            r@ == if self.model().contents.contains_key(path@) {
                self.model().contents[path@]
            } else {
                Seq::<u8>::empty()
            },
    {
        self.store.get_content(path)
    }

    /// Writes a file atomically: afterwards the path exists with exactly
    /// these bytes, or the write was rejected and nothing changed.
    pub fn write_atomic(&mut self, path: &str, content: &[u8]) -> (r: Result<
        (),
        StorageTransactionError,
    >)
        ensures
            r is Ok <==> old(self).accepts(path@, content@),
            r is Ok ==> final(self).model() == store_write(old(self).model(), path@, content@),
            r is Err ==> final(self).model() == old(self).model(),
    {
        self.store.write_file(path, content)
    }

    /// Deletes a file: its header record goes away, so it stops existing
    /// and being listed, whatever content record may linger behind.
    pub fn delete(&mut self, path: &str)
        ensures
            final(self).model() == store_delete(old(self).model(), path@),
    {
        self.store.delete(path)
    }

    /// Lists exactly the paths that currently exist.
    pub fn list(&self) -> (r: Vec<String>)
        ensures
            r@.map_values(|s: String| s@) == self.model().headers,
    {
        self.store.list_files()
    }

    /// Whether the path currently has a header record.
    pub fn file_exists(&self, path: &str) -> (r: bool)
        ensures
            r == self.model().headers.contains(path@),
    {
        self.store.file_exists(path)
    }
}

} // verus!
