use vstd::prelude::*;

use crate::bytes::bytes_eq;
use crate::channel::event_channel;
use crate::engine::{begin_read, begin_write};
use crate::event::{Batch, Event};
use crate::filter::{KeyFilter, TableFilter};
use crate::item::{name_bytes, KeyDefinition, SDBItem};
use crate::transaction::{defines, ReadOnlyTransaction, Transaction};
use crate::watchers::{removal, Watchers};
use crate::DbError;
use std::sync::mpsc::{Receiver, Sender};
use vstd::string::StringSliceAdditionalSpecFns;

verus! {

/// A database: the storage engine, the registered tables, and the watchers
/// with the counter that gives them ids.
pub struct Db {
    pub instance: redb::Database,
    pub table_definitions: Vec<&'static str>,
    pub watchers: Watchers<Sender<Event>>,
}

/// One of the first `i` names of `names` is `n`.
pub open spec fn among(names: Seq<&'static str>, i: int, n: Seq<u8>) -> bool {
    exists|j: int| 0 <= j < i && names[j].spec_bytes() == n
}

/// Registers the table `name` unless it is registered already.
fn register_table(reg: &mut Vec<&'static str>, name: &'static str)
    ensures
        forall|n: Seq<u8>| #[trigger] defines(final(reg)@, n) <==> (defines(old(reg)@, n) || n == name.spec_bytes()),
{
    let mut i: usize = 0;
    while i < reg.len()
        invariant
            *reg == *old(reg),
            i <= reg@.len(),
            forall|j: int| 0 <= j < i ==> reg@[j].spec_bytes() != name.spec_bytes(),
        decreases reg@.len() - i,
    {
        if bytes_eq(reg[i].as_bytes(), name.as_bytes()) {
            assert(defines(reg@, name.spec_bytes()));
            return;
        }
        i = i + 1;
    }
    let ghost before = reg@;
    reg.push(name);
    assert forall|n: Seq<u8>| #[trigger] defines(reg@, n) <==> (defines(before, n) || n == name.spec_bytes()) by {
        if defines(reg@, n) {
            let k = choose|k: int| 0 <= k < reg@.len() && reg@[k].spec_bytes() == n;
            if k < before.len() {
                assert(before[k] == reg@[k]);
            } else {
                assert(reg@[k] == name);
            }
        }
        if defines(before, n) {
            let k = choose|k: int| 0 <= k < before.len() && before[k].spec_bytes() == n;
            assert(reg@[k] == before[k]);
        }
        if n == name.spec_bytes() {
            assert(reg@[before.len() as int] == name);
        }
    };
}

impl Db {
    /// The registry of watchers is well formed.
    pub open spec fn wf(&self) -> bool {
        self.watchers.wf()
    }

    /// A database over the storage engine `instance`, with no table
    /// registered and no watcher.
    pub fn new(instance: redb::Database) -> (r: Self)
        ensures
            r.wf(),
            r.table_definitions@.len() == 0,
            r.watchers.records@.len() == 0,
            r.watchers.next_id == 0,
    {
        Db { instance, table_definitions: Vec::new(), watchers: Watchers::new() }
    }

    /// Registers the primary table of `T` and the tables of its secondary
    /// indexes; registering again changes nothing.
    pub fn define<T: SDBItem>(&mut self)
        ensures
            final(self).watchers == old(self).watchers,
            final(self).instance == old(self).instance,
            forall|n: Seq<u8>|
                #[trigger] defines(final(self).table_definitions@, n) <==> (defines(old(self).table_definitions@, n)
                    || n == T::spec_table_name() || T::spec_secondary_tables().contains(n)),
    {
        let schema = T::struct_db_schema();
        register_table(&mut self.table_definitions, schema.table_name);
        let names = &schema.secondary_tables_name;
        let ghost start = self.table_definitions@;
        let mut i: usize = 0;
        while i < names.len()
            invariant
                i <= names@.len(),
                name_bytes(names@) == T::spec_secondary_tables(),
                forall|n: Seq<u8>|
                    #[trigger] defines(self.table_definitions@, n) <==> (defines(start, n) || among(names@, i as int, n)),
                self.watchers == old(self).watchers,
                self.instance == old(self).instance,
                forall|n: Seq<u8>|
                    #[trigger] defines(start, n) <==> (defines(old(self).table_definitions@, n) || n == T::spec_table_name()),
            decreases names@.len() - i,
        {
            let ghost prev = self.table_definitions@;
            register_table(&mut self.table_definitions, names[i]);
            assert forall|n: Seq<u8>| #[trigger] among(names@, i + 1, n) <==> (among(names@, i as int, n)
                || n == names@[i as int].spec_bytes()) by {
                if among(names@, i + 1, n) {
                    let j = choose|j: int| 0 <= j < i + 1 && names@[j].spec_bytes() == n;
                    if j < i {
                        assert(among(names@, i as int, n));
                    }
                }
                if among(names@, i as int, n) {
                    let j = choose|j: int| 0 <= j < i && names@[j].spec_bytes() == n;
                    assert(0 <= j < i + 1 && names@[j].spec_bytes() == n);
                }
                if n == names@[i as int].spec_bytes() {
                    assert(0 <= i < i + 1 && names@[i as int].spec_bytes() == n);
                }
            };
            assert forall|n: Seq<u8>|
                defines(self.table_definitions@, n) <==> (defines(start, n) || among(names@, i + 1, n)) by {
                assert(defines(self.table_definitions@, n) <==> (defines(prev, n) || n == names@[i as int].spec_bytes()));
                assert(defines(prev, n) <==> (defines(start, n) || among(names@, i as int, n)));
                assert(among(names@, i + 1, n) <==> (among(names@, i as int, n) || n == names@[i as int].spec_bytes()));
            };
            i = i + 1;
        }
        assert forall|n: Seq<u8>|
            T::spec_secondary_tables().contains(n) <==> #[trigger] among(names@, names@.len() as int, n) by {
            if T::spec_secondary_tables().contains(n) {
                let j = choose|j: int| 0 <= j < T::spec_secondary_tables().len() && T::spec_secondary_tables()[j] == n;
                assert(names@[j].spec_bytes() == n);
            }
            if among(names@, names@.len() as int, n) {
                let j = choose|j: int| 0 <= j < names@.len() && names@[j].spec_bytes() == n;
                assert(T::spec_secondary_tables()[j] == n);
            }
        };
    }

    /// Begins a read-write transaction. Write transactions are taken one at
    /// a time: this waits while another is open, so a thread must commit or
    /// drop its transaction before asking for the next.
    pub fn transaction(&self) -> (r: Result<Transaction<'_>, DbError>)
        ensures
            r is Ok || (r matches Err(DbError::RedbError(_))),
            r matches Ok(t) ==> t.table_definitions == &self.table_definitions && t.watchers
                == &self.watchers && t.batch.pending@.len() == 0,
    {
        let txn = match begin_write(&self.instance) {
            Ok(t) => t,
            Err(e) => {
                return Err(DbError::RedbError(e));
            },
        };
        Ok(Transaction {
            table_definitions: &self.table_definitions,
            txn,
            watchers: &self.watchers,
            batch: Batch::new(),
        })
    }

    /// Begins a read-only transaction.
    pub fn read_transaction(&self) -> (r: Result<ReadOnlyTransaction<'_>, DbError>)
        ensures
            r is Ok || (r matches Err(DbError::RedbError(_))),
            r matches Ok(t) ==> t.table_definitions == &self.table_definitions,
    {
        let txn = match begin_read(&self.instance) {
            Ok(t) => t,
            Err(e) => {
                return Err(DbError::RedbError(e));
            },
        };
        Ok(ReadOnlyTransaction { table_definitions: &self.table_definitions, txn })
    }

    /// Registers a watcher with `table_filter` under a fresh id; returns
    /// the receiving end of its events and its id.
    fn watch_generic(&mut self, table_filter: TableFilter) -> (r: Result<(Receiver<Event>, u64), DbError>)
        requires
            old(self).wf(),
        ensures
            watch_outcome(*old(self), *final(self), r),
            r is Ok ==> final(self).watchers.records@.last().filter == table_filter,
    {
        let (sender, receiver) = event_channel();
        match self.watchers.add_sender(table_filter, sender) {
            Ok(id) => {
                assert(self.watchers.records@.drop_last() =~= old(self).watchers.records@);
                Ok((receiver, id))
            },
            Err(e) => Err(e),
        }
    }

    /// Watches `T`'s table: every change when `key` is `None`, else the
    /// changes to the item with that primary key.
    pub fn primary_watch<T: SDBItem>(&mut self, key: Option<&[u8]>) -> (r: Result<(Receiver<Event>, u64), DbError>)
        requires
            old(self).wf(),
        ensures
            watch_outcome(*old(self), *final(self), r),
            r is Ok ==> ({
                let f = final(self).watchers.records@.last().filter;
                &&& f.table_name@ == T::spec_table_name()
                &&& key is None ==> f.key_filter == KeyFilter::Primary(None)
                &&& key matches Some(k) ==> f.key_filter matches KeyFilter::Primary(Some(v)) && v@ == k@
            }),
    {
        let schema = T::struct_db_schema();
        let table_filter = TableFilter::new_primary(schema.table_name.as_bytes(), key);
        self.watch_generic(table_filter)
    }

    /// Watches the items of `T`'s table whose primary key starts with
    /// `key_prefix`.
    pub fn primary_watch_start_with<T: SDBItem>(&mut self, key_prefix: &[u8]) -> (r: Result<
        (Receiver<Event>, u64),
        DbError,
    >)
        requires
            old(self).wf(),
        ensures
            watch_outcome(*old(self), *final(self), r),
            r is Ok ==> ({
                let f = final(self).watchers.records@.last().filter;
                &&& f.table_name@ == T::spec_table_name()
                &&& f.key_filter matches KeyFilter::PrimaryStartWith(p) && p@ == key_prefix@
            }),
    {
        let schema = T::struct_db_schema();
        let table_filter = TableFilter::new_primary_start_with(schema.table_name.as_bytes(), key_prefix);
        self.watch_generic(table_filter)
    }

    /// Watches `T`'s table through the secondary index `key_def`: every
    /// change when `key` is `None`, else the changes to items with that key.
    pub fn secondary_watch<T: SDBItem, K: KeyDefinition>(&mut self, key_def: K, key: Option<&[u8]>) -> (r:
        Result<(Receiver<Event>, u64), DbError>)
        requires
            old(self).wf(),
        ensures
            watch_outcome(*old(self), *final(self), r),
            r is Ok ==> ({
                let f = final(self).watchers.records@.last().filter;
                &&& f.table_name@ == T::spec_table_name()
                &&& f.key_filter matches KeyFilter::Secondary(n, v) && n@ == key_def.spec_table_name()
                    && (v is None <==> key is None) && (key matches Some(k) ==> v matches Some(vv) && vv@ == k@)
            }),
    {
        let schema = T::struct_db_schema();
        let table_filter = TableFilter::new_secondary(schema.table_name.as_bytes(), key_def, key);
        self.watch_generic(table_filter)
    }

    /// Watches the items of `T`'s table whose key under the secondary index
    /// `key_def` starts with `key_prefix`.
    pub fn secondary_watch_start_with<T: SDBItem, K: KeyDefinition>(
        &mut self,
        key_def: K,
        key_prefix: &[u8],
    ) -> (r: Result<(Receiver<Event>, u64), DbError>)
        requires
            old(self).wf(),
        ensures
            watch_outcome(*old(self), *final(self), r),
            r is Ok ==> ({
                let f = final(self).watchers.records@.last().filter;
                &&& f.table_name@ == T::spec_table_name()
                &&& f.key_filter matches KeyFilter::SecondaryStartWith(n, p) && n@ == key_def.spec_table_name()
                    && p@ == key_prefix@
            }),
    {
        let schema = T::struct_db_schema();
        let table_filter = TableFilter::new_secondary_start_with(
            schema.table_name.as_bytes(),
            key_def,
            key_prefix,
        );
        self.watch_generic(table_filter)
    }

    /// Removes the watcher with id `id`, if there is one; an unknown id is
    /// no error. No event reaches it afterwards.
    pub fn unwatch(&mut self, id: u64) -> (r: Result<(), DbError>)
        requires
            old(self).wf(),
        ensures
            r is Ok,
            final(self).table_definitions == old(self).table_definitions,
            removal(old(self).watchers, final(self).watchers, id),
    {
        self.watchers.remove_sender(id);
        Ok(())
    }
}

/// What registering a watcher did to the database `before`, giving `after`
/// and `r`: with the ids used up it failed and changed nothing; else the
/// watcher got the next id and was appended.
pub open spec fn watch_outcome(before: Db, after: Db, r: Result<(Receiver<Event>, u64), DbError>) -> bool {
    &&& after.wf()
    &&& after.table_definitions == before.table_definitions
    &&& before.watchers.next_id == u64::MAX ==> (r matches Err(DbError::MaxWatcherReached))
        && after.watchers.records@ == before.watchers.records@
        && after.watchers.next_id == before.watchers.next_id
    &&& before.watchers.next_id < u64::MAX ==> (r matches Ok((_, id)) && id == before.watchers.next_id)
        && after.watchers.next_id == before.watchers.next_id + 1
        && after.watchers.records@.len() == before.watchers.records@.len() + 1
        && after.watchers.records@.drop_last() == before.watchers.records@
        && after.watchers.records@.last().id == before.watchers.next_id
}

} // verus!
