use vstd::prelude::*;

pub mod bytes;
pub mod request;
pub mod item;
pub mod filter;
pub mod event;
pub mod watchers;
pub mod engine;
pub mod channel;
pub mod transaction;
pub mod db;
pub mod laws;

verus! {

/// What can go wrong in this library.
#[derive(Debug)]
pub enum DbError {
    /// The storage file at `path` could not be created or opened.
    InitDbBackendError { path: String, source: redb::Error },
    /// Every watcher id has been handed out.
    MaxWatcherReached,
    /// A table was used that `define` never registered.
    TableDefinitionNotFound { table: String },
    /// A table name, of the primary table or of a secondary index, is empty.
    InvalidTableName,
    /// The storage engine failed.
    RedbError(redb::Error),
}

} // verus!
