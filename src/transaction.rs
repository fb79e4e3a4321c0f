use vstd::prelude::*;

use crate::bytes::{bytes_eq, copy_bytes};
use crate::engine::{
    commit as engine_commit, entry, read_contents, read_table_get, read_table_len, table_get,
    table_insert, table_keys, table_len, table_remove, write_contents,
};
use crate::event::{Batch, Delete, Event, Insert, Pending, Update};
use crate::item::{key_pairs, SDBItem};
use crate::request::WatcherRequest;
use crate::channel::SendLog;
use crate::event::same_event;
use crate::watchers::{matching_ids, Watcher, Watchers};
use crate::DbError;
use std::sync::mpsc::Sender;
use vstd::string::StringSliceAdditionalSpecFns;

verus! {

/// What a transaction sees: values keyed by (table name, key).
pub type Contents = Map<(Seq<u8>, Seq<u8>), Seq<u8>>;

/// A table named `name` is registered in `reg`.
pub open spec fn defines(reg: Seq<&'static str>, name: Seq<u8>) -> bool {
    exists|i: int| 0 <= i < reg.len() && reg[i].spec_bytes() == name
}

/// Each (index table, secondary key) of `keys` maps to the primary key `pk`.
pub open spec fn put_keys(c: Contents, keys: Seq<(Seq<u8>, Seq<u8>)>, pk: Seq<u8>) -> Contents
    decreases keys.len(),
{
    if keys.len() == 0 {
        c
    } else {
        put_keys(c, keys.drop_last(), pk).insert(keys.last(), pk)
    }
}

/// Each (index table, secondary key) of `keys` that still leads to the
/// primary key `pk` maps to nothing; an entry that another item now owns
/// stays, and keys with an empty table name, which can never have been
/// written, are passed over.
pub open spec fn drop_keys(c: Contents, keys: Seq<(Seq<u8>, Seq<u8>)>, pk: Seq<u8>) -> Contents
    decreases keys.len(),
{
    if keys.len() == 0 {
        c
    } else {
        let c0 = drop_keys(c, keys.drop_last(), pk);
        if keys.last().0.len() > 0 && entry(c0, keys.last().0, keys.last().1) == Some(pk) {
            c0.remove(keys.last())
        } else {
            c0
        }
    }
}

/// `c` after writing `item`: its payload under its primary key, and its
/// primary key under each of its secondary keys.
pub open spec fn inserted<T: SDBItem>(c: Contents, item: T) -> Contents {
    put_keys(
        c.insert((T::spec_table_name(), item.spec_primary_key()), item.spec_encoded()),
        item.spec_keys(),
        item.spec_primary_key(),
    )
}

/// `c` after writing `item` over whatever its primary key held: the
/// secondary entries of the item it replaces go first.
pub open spec fn upserted<T: SDBItem>(c: Contents, item: T) -> Contents {
    match entry(c, T::spec_table_name(), item.spec_primary_key()) {
        Some(b) => inserted(drop_keys(c, T::spec_decoded(b).spec_keys(), item.spec_primary_key()), item),
        None => inserted(c, item),
    }
}

/// `c` after removing `item`: its primary entry and its secondary entries.
pub open spec fn removed<T: SDBItem>(c: Contents, item: T) -> Contents {
    drop_keys(c.remove((T::spec_table_name(), item.spec_primary_key())), item.spec_keys(), item.spec_primary_key())
}

/// `p` describes `item` in table `T`.
pub open spec fn describes<T: SDBItem>(req: WatcherRequest, item: T) -> bool {
    &&& req.spec_table() == T::spec_table_name()
    &&& req.spec_primary_key() == item.spec_primary_key()
    &&& key_pairs(req.secondary_keys_value@) == item.spec_keys()
}

/// Every index table name of `keys` is non-empty.
pub open spec fn names_ok(keys: Seq<(Seq<u8>, Seq<u8>)>) -> bool {
    forall|i: int| 0 <= i < keys.len() ==> keys[i].0.len() > 0
}

/// The primary table of `T` has a non-empty name.
pub open spec fn table_ok<T: SDBItem>() -> bool {
    T::spec_table_name().len() > 0
}

/// Whether a table of this name is registered.
pub fn is_defined(reg: &Vec<&'static str>, name: &str) -> (r: bool)
    ensures
        r == defines(reg@, name.spec_bytes()),
{
    let mut i: usize = 0;
    while i < reg.len()
        invariant
            i <= reg@.len(),
            forall|j: int| 0 <= j < i ==> reg@[j].spec_bytes() != name.spec_bytes(),
        decreases reg@.len() - i,
    {
        if bytes_eq(reg[i].as_bytes(), name.as_bytes()) {
            return true;
        }
        i = i + 1;
    }
    false
}

/// Whether every index table name of `keys` is non-empty.
fn keys_named(keys: &Vec<(&'static str, Vec<u8>)>) -> (r: bool)
    ensures
        r == names_ok(key_pairs(keys@)),
{
    let mut i: usize = 0;
    while i < keys.len()
        invariant
            i <= keys@.len(),
            forall|j: int| 0 <= j < i ==> key_pairs(keys@)[j].0.len() > 0,
        decreases keys@.len() - i,
    {
        if keys[i].0.as_bytes().len() == 0 {
            assert(key_pairs(keys@)[i as int].0.len() == 0);
            return false;
        }
        i = i + 1;
    }
    true
}

/// Writes `pk` under each secondary key of `keys`.
fn write_index(txn: &mut redb::WriteTransaction, keys: &Vec<(&'static str, Vec<u8>)>, pk: &[u8]) -> (r: Result<(), DbError>)
    requires
        names_ok(key_pairs(keys@)),
    ensures
        r is Ok || (r matches Err(DbError::RedbError(_))),
        r is Ok ==> write_contents(*final(txn)) == put_keys(write_contents(*old(txn)), key_pairs(keys@), pk@),
{
    let mut i: usize = 0;
    while i < keys.len()
        invariant
            names_ok(key_pairs(keys@)),
            i <= keys@.len(),
            write_contents(*txn) == put_keys(write_contents(*old(txn)), key_pairs(keys@).subrange(0, i as int), pk@),
        decreases keys@.len() - i,
    {
        assert(key_pairs(keys@).subrange(0, i + 1).drop_last() =~= key_pairs(keys@).subrange(0, i as int));
        assert(key_pairs(keys@)[i as int].0.len() > 0);
        match table_insert(txn, keys[i].0, keys[i].1.as_slice(), pk) {
            Ok(()) => {},
            Err(e) => {
                return Err(DbError::RedbError(e));
            },
        }
        i = i + 1;
    }
    assert(key_pairs(keys@).subrange(0, keys@.len() as int) =~= key_pairs(keys@));
    Ok(())
}

/// Removes each secondary key of `keys` that still leads to `pk`.
fn erase_index(txn: &mut redb::WriteTransaction, keys: &Vec<(&'static str, Vec<u8>)>, pk: &[u8]) -> (r: Result<
    (),
    DbError,
>)
    ensures
        r is Ok || (r matches Err(DbError::RedbError(_))),
        r is Ok ==> write_contents(*final(txn)) == drop_keys(write_contents(*old(txn)), key_pairs(keys@), pk@),
{
    let mut i: usize = 0;
    while i < keys.len()
        invariant
            i <= keys@.len(),
            write_contents(*txn) == drop_keys(write_contents(*old(txn)), key_pairs(keys@).subrange(0, i as int), pk@),
        decreases keys@.len() - i,
    {
        assert(key_pairs(keys@).subrange(0, i + 1).drop_last() =~= key_pairs(keys@).subrange(0, i as int));
        if keys[i].0.as_bytes().len() > 0 {
            let owner = match table_get(txn, keys[i].0, keys[i].1.as_slice()) {
                Ok(v) => v,
                Err(e) => {
                    return Err(DbError::RedbError(e));
                },
            };
            let still_ours = match &owner {
                Some(v) => bytes_eq(v.as_slice(), pk),
                None => false,
            };
            if still_ours {
                match table_remove(txn, keys[i].0, keys[i].1.as_slice()) {
                    Ok(()) => {},
                    Err(e) => {
                        return Err(DbError::RedbError(e));
                    },
                }
            }
        }
        i = i + 1;
    }
    assert(key_pairs(keys@).subrange(0, keys@.len() as int) =~= key_pairs(keys@));
    Ok(())
}

/// Writes `item` (already split into its key, payload and secondary keys)
/// over whatever its primary key held, first erasing the secondary entries
/// of the item it replaces.
fn upsert_item<T: SDBItem>(
    txn: &mut redb::WriteTransaction,
    table: &'static str,
    item: &T,
    pk: &Vec<u8>,
    value: &Vec<u8>,
    keys: &Vec<(&'static str, Vec<u8>)>,
) -> (r: Result<(), DbError>)
    requires
        table.spec_bytes() == T::spec_table_name(),
        table_ok::<T>(),
        pk@ == item.spec_primary_key(),
        value@ == item.spec_encoded(),
        key_pairs(keys@) == item.spec_keys(),
        names_ok(item.spec_keys()),
    ensures
        r is Ok || (r matches Err(DbError::RedbError(_))),
        r is Ok ==> write_contents(*final(txn)) == upserted(write_contents(*old(txn)), *item),
{
    match table_get(txn, table, pk.as_slice()) {
        Ok(Some(b)) => {
            let replaced = T::struct_db_bincode_decode_from_slice(b.as_slice());
            let old_keys = replaced.struct_db_keys();
            erase_index(txn, &old_keys, pk.as_slice())?;
        },
        Ok(None) => {},
        Err(e) => {
            return Err(DbError::RedbError(e));
        },
    }
    match table_insert(txn, table, pk.as_slice(), value.as_slice()) {
        Ok(()) => {},
        Err(e) => {
            return Err(DbError::RedbError(e));
        },
    }
    write_index(txn, keys, pk.as_slice())
}

/// A read-write transaction. Its changes become visible to others, and its
/// events reach watchers, only when `commit` succeeds; dropped, it leaves
/// no trace.
pub struct Transaction<'db> {
    pub table_definitions: &'db Vec<&'static str>,
    pub txn: redb::WriteTransaction,
    pub watchers: &'db Watchers<Sender<Event>>,
    pub batch: Batch,
}

impl<'db> Transaction<'db> {
    pub open spec fn contents(&self) -> Contents {
        write_contents(self.txn)
    }

    /// Writes `item`, replacing what its primary key held (together with
    /// the secondary entries of the replaced item), indexes it, and queues
    /// an `Insert` event. Each secondary key leads to one primary key: the
    /// item written last under it.
    pub fn insert<T: SDBItem>(&mut self, item: T) -> (r: Result<(), DbError>)
        ensures
            final(self).table_definitions == old(self).table_definitions,
            final(self).watchers == old(self).watchers,
            r is Err ==> final(self).batch.pending@ == old(self).batch.pending@,
            !defines(old(self).table_definitions@, T::spec_table_name()) ==> ((r matches Err(
                DbError::TableDefinitionNotFound { .. })) && final(self).contents() == old(self).contents()),
            defines(old(self).table_definitions@, T::spec_table_name()) && !(table_ok::<T>() && names_ok(
                item.spec_keys(),
            )) ==> ((r matches Err(DbError::InvalidTableName)) && final(self).contents() == old(self).contents()),
            defines(old(self).table_definitions@, T::spec_table_name()) && table_ok::<T>() && names_ok(
                item.spec_keys(),
            ) ==> (r is Ok || (r matches Err(DbError::RedbError(_)))),
            r is Ok ==> final(self).contents() == upserted(old(self).contents(), item),
            r is Ok ==> final(self).batch.pending@.len() == old(self).batch.pending@.len() + 1,
            r is Ok ==> final(self).batch.pending@.drop_last() == old(self).batch.pending@,
            r is Ok ==> ({
                let p = final(self).batch.pending@.last();
                &&& describes(p.request, item)
                &&& p.old_request is None
                &&& p.event matches Event::Insert(e) && e.primary_key@ == item.spec_primary_key()
                    && e.value@ == item.spec_encoded()
            }),
    {
        let schema = T::struct_db_schema();
        if !is_defined(self.table_definitions, schema.table_name) {
            return Err(DbError::TableDefinitionNotFound { table: schema.table_name.to_string() });
        }
        let pk = item.struct_db_primary_key();
        let value = item.struct_db_bincode_encode_to_vec();
        let keys = item.struct_db_keys();
        if schema.table_name.as_bytes().len() == 0 || !keys_named(&keys) {
            return Err(DbError::InvalidTableName);
        }
        upsert_item(&mut self.txn, schema.table_name, &item, &pk, &value, &keys)?;
        let event = Event::Insert(Insert { primary_key: copy_bytes(pk.as_slice()), value });
        let request = WatcherRequest::new(schema.table_name, pk, keys);
        self.batch.add(Pending { request, old_request: None, event });
        Ok(())
    }

    /// Removes `item`: its primary entry and its secondary entries, and
    /// queues a `Delete` event.
    pub fn remove<T: SDBItem>(&mut self, item: T) -> (r: Result<(), DbError>)
        ensures
            final(self).table_definitions == old(self).table_definitions,
            final(self).watchers == old(self).watchers,
            r is Err ==> final(self).batch.pending@ == old(self).batch.pending@,
            !defines(old(self).table_definitions@, T::spec_table_name()) ==> ((r matches Err(
                DbError::TableDefinitionNotFound { .. })) && final(self).contents() == old(self).contents()),
            defines(old(self).table_definitions@, T::spec_table_name()) && !table_ok::<T>() ==> ((r matches Err(
                DbError::InvalidTableName)) && final(self).contents() == old(self).contents()),
            defines(old(self).table_definitions@, T::spec_table_name()) && table_ok::<T>() ==> (r is Ok || (
            r matches Err(DbError::RedbError(_)))),
            r is Ok ==> final(self).contents() == removed(old(self).contents(), item),
            r is Ok ==> final(self).batch.pending@.len() == old(self).batch.pending@.len() + 1,
            r is Ok ==> final(self).batch.pending@.drop_last() == old(self).batch.pending@,
            r is Ok ==> ({
                let p = final(self).batch.pending@.last();
                &&& describes(p.request, item)
                &&& p.old_request is None
                &&& p.event matches Event::Delete(e) && e.primary_key@ == item.spec_primary_key()
                    && e.value@ == item.spec_encoded()
            }),
    {
        let schema = T::struct_db_schema();
        if !is_defined(self.table_definitions, schema.table_name) {
            return Err(DbError::TableDefinitionNotFound { table: schema.table_name.to_string() });
        }
        if schema.table_name.as_bytes().len() == 0 {
            return Err(DbError::InvalidTableName);
        }
        let pk = item.struct_db_primary_key();
        let value = item.struct_db_bincode_encode_to_vec();
        let keys = item.struct_db_keys();
        match table_remove(&mut self.txn, schema.table_name, pk.as_slice()) {
            Ok(()) => {},
            Err(e) => {
                return Err(DbError::RedbError(e));
            },
        }
        erase_index(&mut self.txn, &keys, pk.as_slice())?;
        let event = Event::Delete(Delete { primary_key: copy_bytes(pk.as_slice()), value });
        let request = WatcherRequest::new(schema.table_name, pk, keys);
        self.batch.add(Pending { request, old_request: None, event });
        Ok(())
    }

    /// Replaces `old_item` by `new_item`, whose primary key may differ:
    /// the old entries go, the new ones are written (over whatever the new
    /// primary key held), and an `Update` event carrying both is queued.
    pub fn update<T: SDBItem>(&mut self, old_item: T, new_item: T) -> (r: Result<(), DbError>)
        ensures
            final(self).table_definitions == old(self).table_definitions,
            final(self).watchers == old(self).watchers,
            r is Err ==> final(self).batch.pending@ == old(self).batch.pending@,
            !defines(old(self).table_definitions@, T::spec_table_name()) ==> ((r matches Err(
                DbError::TableDefinitionNotFound { .. })) && final(self).contents() == old(self).contents()),
            defines(old(self).table_definitions@, T::spec_table_name()) && !(table_ok::<T>() && names_ok(
                new_item.spec_keys(),
            )) ==> ((r matches Err(DbError::InvalidTableName)) && final(self).contents() == old(self).contents()),
            defines(old(self).table_definitions@, T::spec_table_name()) && table_ok::<T>() && names_ok(
                new_item.spec_keys(),
            ) ==> (r is Ok || (r matches Err(DbError::RedbError(_)))),
            r is Ok ==> final(self).contents() == upserted(removed(old(self).contents(), old_item), new_item),
            r is Ok ==> final(self).batch.pending@.len() == old(self).batch.pending@.len() + 1,
            r is Ok ==> final(self).batch.pending@.drop_last() == old(self).batch.pending@,
            r is Ok ==> ({
                let p = final(self).batch.pending@.last();
                &&& describes(p.request, new_item)
                &&& p.old_request matches Some(o) && describes(o, old_item)
                &&& p.event matches Event::Update(e) && e.old_primary_key@ == old_item.spec_primary_key()
                    && e.old_value@ == old_item.spec_encoded() && e.new_primary_key@
                    == new_item.spec_primary_key() && e.new_value@ == new_item.spec_encoded()
            }),
    {
        let schema = T::struct_db_schema();
        if !is_defined(self.table_definitions, schema.table_name) {
            return Err(DbError::TableDefinitionNotFound { table: schema.table_name.to_string() });
        }
        let old_pk = old_item.struct_db_primary_key();
        let old_value = old_item.struct_db_bincode_encode_to_vec();
        let old_keys = old_item.struct_db_keys();
        let new_pk = new_item.struct_db_primary_key();
        let new_value = new_item.struct_db_bincode_encode_to_vec();
        let new_keys = new_item.struct_db_keys();
        if schema.table_name.as_bytes().len() == 0 || !keys_named(&new_keys) {
            return Err(DbError::InvalidTableName);
        }
        match table_remove(&mut self.txn, schema.table_name, old_pk.as_slice()) {
            Ok(()) => {},
            Err(e) => {
                return Err(DbError::RedbError(e));
            },
        }
        erase_index(&mut self.txn, &old_keys, old_pk.as_slice())?;
        upsert_item(&mut self.txn, schema.table_name, &new_item, &new_pk, &new_value, &new_keys)?;
        let event = Event::Update(
            Update {
                old_primary_key: copy_bytes(old_pk.as_slice()),
                old_value,
                new_primary_key: copy_bytes(new_pk.as_slice()),
                new_value,
            },
        );
        let request = WatcherRequest::new(schema.table_name, new_pk, new_keys);
        let old_request = WatcherRequest::new(schema.table_name, old_pk, old_keys);
        self.batch.add(Pending { request, old_request: Some(old_request), event });
        Ok(())
    }

    /// The item stored under primary key `key` in `T`'s table, if any.
    pub fn primary_get<T: SDBItem>(&self, key: &[u8]) -> (r: Result<Option<T>, DbError>)
        ensures
            !defines(self.table_definitions@, T::spec_table_name()) ==> (r matches Err(
                DbError::TableDefinitionNotFound { .. })),
            defines(self.table_definitions@, T::spec_table_name()) && !table_ok::<T>() ==> (r matches Err(
                DbError::InvalidTableName)),
            defines(self.table_definitions@, T::spec_table_name()) && table_ok::<T>() ==> (r is Ok || (
            r matches Err(DbError::RedbError(_)))),
            r matches Ok(v) ==> match entry(self.contents(), T::spec_table_name(), key@) {
                Some(b) => v == Some(T::spec_decoded(b)),
                None => v is None,
            },
    {
        let schema = T::struct_db_schema();
        if !is_defined(self.table_definitions, schema.table_name) {
            return Err(DbError::TableDefinitionNotFound { table: schema.table_name.to_string() });
        }
        if schema.table_name.as_bytes().len() == 0 {
            return Err(DbError::InvalidTableName);
        }
        match table_get(&self.txn, schema.table_name, key) {
            Ok(Some(b)) => Ok(Some(T::struct_db_bincode_decode_from_slice(b.as_slice()))),
            Ok(None) => Ok(None),
            Err(e) => Err(DbError::RedbError(e)),
        }
    }

    /// The number of items in `T`'s table.
    pub fn len<T: SDBItem>(&self) -> (r: Result<u64, DbError>)
        ensures
            !defines(self.table_definitions@, T::spec_table_name()) ==> (r matches Err(
                DbError::TableDefinitionNotFound { .. })),
            defines(self.table_definitions@, T::spec_table_name()) && !table_ok::<T>() ==> (r matches Err(
                DbError::InvalidTableName)),
            defines(self.table_definitions@, T::spec_table_name()) && table_ok::<T>() ==> (r is Ok || (
            r matches Err(DbError::RedbError(_)))),
            r matches Ok(n) ==> self.contents().dom().finite() && n == table_keys(
                self.contents(),
                T::spec_table_name(),
            ).len(),
    {
        let schema = T::struct_db_schema();
        if !is_defined(self.table_definitions, schema.table_name) {
            return Err(DbError::TableDefinitionNotFound { table: schema.table_name.to_string() });
        }
        if schema.table_name.as_bytes().len() == 0 {
            return Err(DbError::InvalidTableName);
        }
        match table_len(&self.txn, schema.table_name) {
            Ok(n) => Ok(n),
            Err(e) => Err(DbError::RedbError(e)),
        }
    }

    /// Makes the changes durable; only then are the queued events sent, in
    /// the order they were queued, each to the watchers told of it, and the
    /// sends recorded in `log`. On failure nothing is sent.
    pub fn commit(self, log: &mut SendLog) -> (r: Result<(), DbError>)
        ensures
            r is Ok || (r matches Err(DbError::RedbError(_))),
            r is Ok ==> batch_sent(old(log)@, final(log)@, self.watchers.records@, self.batch.pending@),
            r is Err ==> final(log)@ == old(log)@,
    {
        let Transaction { table_definitions: _, txn, watchers, batch } = self;
        let res = engine_commit(txn);
        finish_commit(res, watchers, &batch, log)
    }
}

/// The sends that the events of `pending` owe, in order: for each event,
/// one per watcher told of it, as (watcher id, index of the event).
pub open spec fn batch_sends<S>(records: Seq<Watcher<S>>, pending: Seq<Pending>) -> Seq<(u64, int)>
    decreases pending.len(),
{
    if pending.len() == 0 {
        Seq::empty()
    } else {
        batch_sends(records, pending.drop_last()) + matching_ids(records, pending.last()).map_values(
            |id: u64| (id, pending.len() - 1),
        )
    }
}

/// `after` is `before` followed by exactly the sends that `pending` owes,
/// in order, each of a copy of its event.
pub open spec fn batch_sent<S>(
    before: Seq<(u64, Event)>,
    after: Seq<(u64, Event)>,
    records: Seq<Watcher<S>>,
    pending: Seq<Pending>,
) -> bool {
    let owed = batch_sends(records, pending);
    &&& after.len() == before.len() + owed.len()
    &&& after.subrange(0, before.len() as int) == before
    &&& forall|j: int|
        0 <= j < owed.len() ==> (#[trigger] after[before.len() + j]).0 == owed[j].0 && same_event(
            after[before.len() + j].1,
            pending[owed[j].1].event,
        )
}

proof fn lemma_batch_sends_index<S>(records: Seq<Watcher<S>>, pending: Seq<Pending>)
    ensures
        forall|j: int|
            0 <= j < batch_sends(records, pending).len() ==> 0 <= #[trigger] batch_sends(records, pending)[j].1
                < pending.len(),
    decreases pending.len(),
{
    if pending.len() > 0 {
        let init = pending.drop_last();
        lemma_batch_sends_index(records, init);
        let owed = batch_sends(records, init);
        let ids = matching_ids(records, pending.last());
        let added = ids.map_values(|id: u64| (id, pending.len() - 1));
        assert forall|j: int| 0 <= j < batch_sends(records, pending).len() implies 0
            <= #[trigger] batch_sends(records, pending)[j].1 < pending.len() by {
            if j < owed.len() {
                assert(batch_sends(records, pending)[j] == owed[j]);
            } else {
                assert(batch_sends(records, pending)[j] == added[j - owed.len()]);
            }
        };
    }
}

/// What follows the engine's commit, given its result `res`: on success
/// every event of `batch` is sent, in order, to the watchers told of it; on
/// failure the error is passed on and nothing is sent.
pub fn finish_commit(
    res: Result<(), redb::Error>,
    watchers: &Watchers<Sender<Event>>,
    batch: &Batch,
    log: &mut SendLog,
) -> (r: Result<(), DbError>)
    ensures
        res is Ok ==> r is Ok && batch_sent(old(log)@, final(log)@, watchers.records@, batch.pending@),
        res is Err ==> (r matches Err(DbError::RedbError(_))) && final(log)@ == old(log)@,
{
    match res {
        Ok(()) => {
            dispatch_batch(watchers, batch, log);
            Ok(())
        },
        Err(e) => Err(DbError::RedbError(e)),
    }
}

/// Sends each event of `batch`, in order, to the watchers told of it.
pub fn dispatch_batch(watchers: &Watchers<Sender<Event>>, batch: &Batch, log: &mut SendLog)
    ensures
        batch_sent(old(log)@, final(log)@, watchers.records@, batch.pending@),
{
    let ghost start = log@;
    let ghost records = watchers.records@;
    let ghost pending = batch.pending@;
    let mut i: usize = 0;
    assert(log@.subrange(0, start.len() as int) =~= start);
    while i < batch.pending.len()
        invariant
            i <= pending.len(),
            pending == batch.pending@,
            records == watchers.records@,
            batch_sent(start, log@, records, pending.subrange(0, i as int)),
        decreases pending.len() - i,
    {
        let ghost prefix = pending.subrange(0, i as int);
        let ghost next = pending.subrange(0, i + 1);
        assert(next.drop_last() =~= prefix);
        assert(next.last() == pending[i as int]);
        let ghost mid = log@;
        let ghost owed = batch_sends(records, prefix);
        let ghost ids = matching_ids(records, pending[i as int]);
        proof {
            lemma_batch_sends_index(records, prefix);
        }
        watchers.dispatch(&batch.pending[i], log);
        let ghost owed2 = batch_sends(records, next);
        assert(owed2 == owed + ids.map_values(|id: u64| (id, i as int)));
        assert(log@.subrange(0, mid.len() as int) == mid);
        assert(log@.subrange(0, start.len() as int) =~= mid.subrange(0, start.len() as int));
        assert forall|j: int| 0 <= j < owed2.len() implies (#[trigger] log@[start.len() + j]).0 == owed2[j].0
            && same_event(log@[start.len() + j].1, next[owed2[j].1].event) by {
            if j < owed.len() {
                assert(log@[start.len() + j] == log@.subrange(0, mid.len() as int)[start.len() + j]);
                assert(mid[start.len() + j] == log@[start.len() + j]);
                assert(next[owed[j].1] == prefix[owed[j].1]);
            } else {
                let k = j - owed.len();
                assert(log@[mid.len() + k].0 == ids[k]);
                assert(mid.len() + k == start.len() + j);
            }
        };
        i = i + 1;
    }
    assert(pending.subrange(0, pending.len() as int) =~= pending);
}

/// A read-only transaction: a fixed snapshot of the database.
pub struct ReadOnlyTransaction<'db> {
    pub table_definitions: &'db Vec<&'static str>,
    pub txn: redb::ReadTransaction,
}

impl<'db> ReadOnlyTransaction<'db> {
    pub open spec fn contents(&self) -> Contents {
        read_contents(self.txn)
    }

    /// The item stored under primary key `key` in `T`'s table, if any.
    pub fn primary_get<T: SDBItem>(&self, key: &[u8]) -> (r: Result<Option<T>, DbError>)
        ensures
            !defines(self.table_definitions@, T::spec_table_name()) ==> (r matches Err(
                DbError::TableDefinitionNotFound { .. })),
            defines(self.table_definitions@, T::spec_table_name()) && !table_ok::<T>() ==> (r matches Err(
                DbError::InvalidTableName)),
            defines(self.table_definitions@, T::spec_table_name()) && table_ok::<T>() ==> (r is Ok || (
            r matches Err(DbError::RedbError(_)))),
            r matches Ok(v) ==> match entry(self.contents(), T::spec_table_name(), key@) {
                Some(b) => v == Some(T::spec_decoded(b)),
                None => v is None,
            },
    {
        let schema = T::struct_db_schema();
        if !is_defined(self.table_definitions, schema.table_name) {
            return Err(DbError::TableDefinitionNotFound { table: schema.table_name.to_string() });
        }
        if schema.table_name.as_bytes().len() == 0 {
            return Err(DbError::InvalidTableName);
        }
        match read_table_get(&self.txn, schema.table_name, key) {
            Ok(Some(b)) => Ok(Some(T::struct_db_bincode_decode_from_slice(b.as_slice()))),
            Ok(None) => Ok(None),
            Err(e) => Err(DbError::RedbError(e)),
        }
    }

    /// The number of items in `T`'s table.
    pub fn len<T: SDBItem>(&self) -> (r: Result<u64, DbError>)
        ensures
            !defines(self.table_definitions@, T::spec_table_name()) ==> (r matches Err(
                DbError::TableDefinitionNotFound { .. })),
            defines(self.table_definitions@, T::spec_table_name()) && !table_ok::<T>() ==> (r matches Err(
                DbError::InvalidTableName)),
            defines(self.table_definitions@, T::spec_table_name()) && table_ok::<T>() ==> (r is Ok || (
            r matches Err(DbError::RedbError(_)))),
            r matches Ok(n) ==> self.contents().dom().finite() && n == table_keys(
                self.contents(),
                T::spec_table_name(),
            ).len(),
    {
        let schema = T::struct_db_schema();
        if !is_defined(self.table_definitions, schema.table_name) {
            return Err(DbError::TableDefinitionNotFound { table: schema.table_name.to_string() });
        }
        if schema.table_name.as_bytes().len() == 0 {
            return Err(DbError::InvalidTableName);
        }
        match read_table_len(&self.txn, schema.table_name) {
            Ok(n) => Ok(n),
            Err(e) => Err(DbError::RedbError(e)),
        }
    }
}

} // verus!
