use vstd::prelude::*;

use crate::db::{watch_outcome, Db};
use crate::engine::{entry, table_keys};
use crate::event::{pending_matches, same_event, Event, Pending};
use crate::filter::KeyFilter;
use crate::item::SDBItem;
use crate::transaction::{describes, drop_keys, inserted, put_keys, removed, upserted, Contents};
use crate::watchers::{matching_ids, removal, Watcher, Watchers};
use crate::DbError;
use std::sync::mpsc::Receiver;

verus! {

/// The entries of table `t` in `c`.
pub open spec fn table_of(c: Contents, t: Seq<u8>) -> Map<Seq<u8>, Seq<u8>> {
    Map::new(|k: Seq<u8>| c.contains_key((t, k)), |k: Seq<u8>| c[(t, k)])
}

/// No secondary key of `keys` lives in table `t`.
pub open spec fn index_apart(keys: Seq<(Seq<u8>, Seq<u8>)>, t: Seq<u8>) -> bool {
    forall|i: int| 0 <= i < keys.len() ==> keys[i].0 != t
}

proof fn lemma_put_keys_apart(c: Contents, keys: Seq<(Seq<u8>, Seq<u8>)>, pk: Seq<u8>, t: Seq<u8>)
    requires
        index_apart(keys, t),
    ensures
        table_of(put_keys(c, keys, pk), t) == table_of(c, t),
    decreases keys.len(),
{
    if keys.len() > 0 {
        lemma_put_keys_apart(c, keys.drop_last(), pk, t);
        assert(table_of(put_keys(c, keys, pk), t) =~= table_of(put_keys(c, keys.drop_last(), pk), t));
    }
}

proof fn lemma_drop_keys_apart(c: Contents, keys: Seq<(Seq<u8>, Seq<u8>)>, pk: Seq<u8>, t: Seq<u8>)
    requires
        index_apart(keys, t),
    ensures
        table_of(drop_keys(c, keys, pk), t) == table_of(c, t),
    decreases keys.len(),
{
    if keys.len() > 0 {
        lemma_drop_keys_apart(c, keys.drop_last(), pk, t);
        assert(table_of(drop_keys(c, keys, pk), t) =~= table_of(drop_keys(c, keys.drop_last(), pk), t));
    }
}

/// No item of `T` has a secondary index in `T`'s primary table.
pub open spec fn indexes_apart<T: SDBItem>() -> bool {
    forall|x: T| #[trigger] index_apart(x.spec_keys(), T::spec_table_name())
}

proof fn lemma_inserted_primary<T: SDBItem>(c: Contents, item: T)
    requires
        index_apart(item.spec_keys(), T::spec_table_name()),
    ensures
        table_of(inserted(c, item), T::spec_table_name()) == table_of(c, T::spec_table_name()).insert(
            item.spec_primary_key(),
            item.spec_encoded(),
        ),
{
    let t = T::spec_table_name();
    let c1 = c.insert((t, item.spec_primary_key()), item.spec_encoded());
    lemma_put_keys_apart(c1, item.spec_keys(), item.spec_primary_key(), t);
    assert(table_of(c1, t) =~= table_of(c, t).insert(item.spec_primary_key(), item.spec_encoded()));
}

proof fn lemma_entry_of_table(c: Contents, t: Seq<u8>, k: Seq<u8>)
    ensures
        entry(c, t, k) == if table_of(c, t).contains_key(k) {
            Some(table_of(c, t)[k])
        } else {
            None
        },
{
}

/// After writing `item` (as `insert` does, over whatever its key held), its
/// primary table holds its payload under its primary key, and every other
/// key of that table is as it was: the indexes live in other tables.
pub proof fn lemma_insert_primary<T: SDBItem>(c: Contents, item: T)
    requires
        indexes_apart::<T>(),
    ensures
        table_of(upserted(c, item), T::spec_table_name()) == table_of(c, T::spec_table_name()).insert(
            item.spec_primary_key(),
            item.spec_encoded(),
        ),
        entry(upserted(c, item), T::spec_table_name(), item.spec_primary_key()) == Some(item.spec_encoded()),
{
    let t = T::spec_table_name();
    assert(index_apart(item.spec_keys(), t));
    match entry(c, t, item.spec_primary_key()) {
        Some(b) => {
            let replaced = T::spec_decoded(b);
            assert(index_apart(replaced.spec_keys(), t));
            lemma_drop_keys_apart(c, replaced.spec_keys(), item.spec_primary_key(), t);
            lemma_inserted_primary(drop_keys(c, replaced.spec_keys(), item.spec_primary_key()), item);
        },
        None => {
            lemma_inserted_primary(c, item);
        },
    }
    lemma_entry_of_table(upserted(c, item), t, item.spec_primary_key());
}

/// After removing `item`, its primary key is absent from its primary table,
/// and every other key of that table is as it was.
pub proof fn lemma_remove_primary<T: SDBItem>(c: Contents, item: T)
    requires
        index_apart(item.spec_keys(), T::spec_table_name()),
    ensures
        table_of(removed(c, item), T::spec_table_name()) == table_of(c, T::spec_table_name()).remove(
            item.spec_primary_key(),
        ),
        entry(removed(c, item), T::spec_table_name(), item.spec_primary_key()) is None,
{
    let t = T::spec_table_name();
    let c1 = c.remove((t, item.spec_primary_key()));
    lemma_drop_keys_apart(c1, item.spec_keys(), item.spec_primary_key(), t);
    assert(table_of(c1, t) =~= table_of(c, t).remove(item.spec_primary_key()));
    assert(!table_of(removed(c, item), t).contains_key(item.spec_primary_key()));
}

/// After replacing `old_item` by `new_item`, the primary table holds the
/// new payload under the new primary key; the old key, when it differs, is
/// gone; every other key is as it was.
pub proof fn lemma_update_primary<T: SDBItem>(c: Contents, old_item: T, new_item: T)
    requires
        indexes_apart::<T>(),
    ensures
        table_of(upserted(removed(c, old_item), new_item), T::spec_table_name()) == table_of(
            c,
            T::spec_table_name(),
        ).remove(old_item.spec_primary_key()).insert(new_item.spec_primary_key(), new_item.spec_encoded()),
        entry(upserted(removed(c, old_item), new_item), T::spec_table_name(), new_item.spec_primary_key())
            == Some(new_item.spec_encoded()),
        old_item.spec_primary_key() != new_item.spec_primary_key() ==> entry(
            upserted(removed(c, old_item), new_item),
            T::spec_table_name(),
            old_item.spec_primary_key(),
        ) is None,
{
    let t = T::spec_table_name();
    assert(index_apart(old_item.spec_keys(), t));
    lemma_remove_primary(c, old_item);
    lemma_insert_primary(removed(c, old_item), new_item);
    let after = upserted(removed(c, old_item), new_item);
    lemma_entry_of_table(after, t, old_item.spec_primary_key());
}

/// Writing an item adds one key to its primary table, or none when its
/// primary key was there already.
pub proof fn lemma_insert_len<T: SDBItem>(c: Contents, item: T)
    requires
        c.dom().finite(),
        indexes_apart::<T>(),
    ensures
        table_keys(upserted(c, item), T::spec_table_name()).len() == table_keys(c, T::spec_table_name()).len()
            + if c.contains_key((T::spec_table_name(), item.spec_primary_key())) {
            0int
        } else {
            1int
        },
{
    let t = T::spec_table_name();
    let pk = item.spec_primary_key();
    lemma_insert_primary(c, item);
    lemma_table_keys_finite(c, t);
    let after = upserted(c, item);
    assert(table_keys(after, t) =~= table_of(after, t).dom());
    assert(table_keys(c, t) =~= table_of(c, t).dom());
    assert(table_of(after, t).dom() =~= table_of(c, t).dom().insert(pk));
}

proof fn lemma_table_keys_finite(c: Contents, t: Seq<u8>)
    requires
        c.dom().finite(),
    ensures
        table_keys(c, t).finite(),
{
    let f = |p: (Seq<u8>, Seq<u8>)| p.1;
    let img = c.dom().map(f);
    c.dom().lemma_map_finite(f);
    assert forall|k: Seq<u8>| table_keys(c, t).contains(k) implies img.contains(k) by {
        assert(c.dom().contains((t, k)));
        assert(f((t, k)) == k);
    };
    vstd::set_lib::lemma_len_subset(table_keys(c, t), img);
}

/// The ids that `matching_ids` gives are those of the watchers told of
/// `p`, each once.
pub proof fn lemma_matching_ids<S>(records: Seq<Watcher<S>>, p: Pending)
    requires
        forall|i: int, j: int| 0 <= i < j < records.len() ==> records[i].id < records[j].id,
    ensures
        matching_ids(records, p).no_duplicates(),
        forall|id: u64|
            matching_ids(records, p).contains(id) <==> exists|i: int|
                0 <= i < records.len() && records[i].id == id && pending_matches(records[i].filter, p),
    decreases records.len(),
{
    if records.len() > 0 {
        let init = records.drop_last();
        lemma_matching_ids(init, p);
        let rest = matching_ids(init, p);
        assert forall|id: u64|
            matching_ids(records, p).contains(id) <==> exists|i: int|
                0 <= i < records.len() && records[i].id == id && pending_matches(records[i].filter, p) by {
            if matching_ids(records, p).contains(id) {
                if rest.contains(id) {
                    let i = choose|i: int|
                        0 <= i < init.len() && init[i].id == id && pending_matches(init[i].filter, p);
                    assert(records[i] == init[i]);
                } else {
                    assert(records[records.len() - 1] == records.last());
                }
            }
            if exists|i: int|
                0 <= i < records.len() && records[i].id == id && pending_matches(records[i].filter, p) {
                let i = choose|i: int|
                    0 <= i < records.len() && records[i].id == id && pending_matches(records[i].filter, p);
                if i < records.len() - 1 {
                    assert(init[i] == records[i]);
                    assert(rest.contains(id));
                    if pending_matches(records.last().filter, p) {
                        assert(matching_ids(records, p) == rest.push(records.last().id));
                        assert(matching_ids(records, p)[rest.len() as int] == records.last().id);
                        let k = choose|k: int| 0 <= k < rest.len() && rest[k] == id;
                        assert(matching_ids(records, p)[k] == id);
                    }
                } else {
                    assert(matching_ids(records, p) == rest.push(records.last().id));
                    assert(matching_ids(records, p)[rest.len() as int] == id);
                }
            }
        };
        if pending_matches(records.last().filter, p) {
            let last = records.last().id;
            assert(!rest.contains(last)) by {
                if rest.contains(last) {
                    let i = choose|i: int|
                        0 <= i < init.len() && init[i].id == last && pending_matches(init[i].filter, p);
                    assert(records[i].id < records[records.len() - 1].id);
                }
            };
            assert forall|a: int, b: int|
                0 <= a < rest.len() + 1 && 0 <= b < rest.len() + 1 && a != b implies rest.push(last)[a]
                != rest.push(last)[b] by {
                if a < rest.len() && b < rest.len() {
                } else if a < rest.len() {
                    assert(rest.contains(rest[a]));
                } else {
                    assert(rest.contains(rest[b]));
                }
            };
        }
    }
}

/// A watcher on the primary key of the item that an update replaced is
/// told of the update exactly once, whatever the new primary key is.
pub proof fn lemma_update_reaches_old_key<S, T: SDBItem>(w: Watchers<S>, p: Pending, old_item: T, i: int)
    requires
        w.wf(),
        0 <= i < w.records@.len(),
        w.records@[i].filter.table_name@ == T::spec_table_name(),
        w.records@[i].filter.key_filter matches KeyFilter::Primary(Some(k)) && k@ == old_item.spec_primary_key(),
        p.old_request matches Some(o) && describes(o, old_item),
        p.event is Update,
    ensures
        matching_ids(w.records@, p).contains(w.records@[i].id),
        matching_ids(w.records@, p).no_duplicates(),
{
    lemma_matching_ids(w.records@, p);
}

/// Removing a watcher twice is the same as once, and a removed watcher is
/// told of nothing.
pub proof fn lemma_unwatch_twice<S>(w0: Watchers<S>, w1: Watchers<S>, w2: Watchers<S>, id: u64, p: Pending)
    requires
        removal(w0, w1, id),
        removal(w1, w2, id),
    ensures
        w2.records@ == w1.records@,
        w2.next_id == w0.next_id,
        !matching_ids(w2.records@, p).contains(id),
{
    lemma_matching_ids(w2.records@, p);
    if matching_ids(w2.records@, p).contains(id) {
        let i = choose|i: int|
            0 <= i < w2.records@.len() && w2.records@[i].id == id && pending_matches(w2.records@[i].filter, p);
        assert(w2.has_id(id));
    }
}

/// With the ids used up, registering fails, and the watchers already there
/// are kept and told of exactly what they were told of before.
pub proof fn lemma_exhausted_registration(
    before: Db,
    after: Db,
    r: Result<(Receiver<Event>, u64), DbError>,
    p: Pending,
)
    requires
        watch_outcome(before, after, r),
        before.watchers.next_id == u64::MAX,
    ensures
        r matches Err(DbError::MaxWatcherReached),
        after.watchers.records@ == before.watchers.records@,
        matching_ids(after.watchers.records@, p) == matching_ids(before.watchers.records@, p),
{
}

proof fn lemma_put_keys_present(c: Contents, keys: Seq<(Seq<u8>, Seq<u8>)>, pk: Seq<u8>)
    ensures
        forall|i: int|
            0 <= i < keys.len() ==> put_keys(c, keys, pk).contains_key(keys[i]) && put_keys(c, keys, pk)[keys[i]]
                == pk,
    decreases keys.len(),
{
    if keys.len() > 0 {
        lemma_put_keys_present(c, keys.drop_last(), pk);
        assert forall|i: int| 0 <= i < keys.len() - 1 implies keys.drop_last()[i] == keys[i] by {};
    }
}

proof fn lemma_drop_keys_absent(c: Contents, keys: Seq<(Seq<u8>, Seq<u8>)>, pk: Seq<u8>)
    ensures
        forall|i: int|
            0 <= i < keys.len() && keys[i].0.len() > 0 ==> entry(drop_keys(c, keys, pk), keys[i].0, keys[i].1)
                != Some(pk),
    decreases keys.len(),
{
    if keys.len() > 0 {
        lemma_drop_keys_absent(c, keys.drop_last(), pk);
        assert forall|i: int| 0 <= i < keys.len() - 1 implies keys.drop_last()[i] == keys[i] by {};
    }
}

/// After writing an item (as `insert` does), each of its secondary keys
/// leads to its primary key.
pub proof fn lemma_insert_indexes<T: SDBItem>(c: Contents, item: T)
    ensures
        forall|i: int|
            0 <= i < item.spec_keys().len() ==> entry(
                upserted(c, item),
                item.spec_keys()[i].0,
                item.spec_keys()[i].1,
            ) == Some(item.spec_primary_key()),
{
    let base = match entry(c, T::spec_table_name(), item.spec_primary_key()) {
        Some(b) => drop_keys(c, T::spec_decoded(b).spec_keys(), item.spec_primary_key()),
        None => c,
    };
    let c1 = base.insert((T::spec_table_name(), item.spec_primary_key()), item.spec_encoded());
    lemma_put_keys_present(c1, item.spec_keys(), item.spec_primary_key());
    assert(upserted(c, item) == put_keys(c1, item.spec_keys(), item.spec_primary_key()));
}

/// After removing an item, none of its secondary keys leads to its
/// primary key any more.
pub proof fn lemma_remove_indexes<T: SDBItem>(c: Contents, item: T)
    ensures
        forall|i: int|
            0 <= i < item.spec_keys().len() && item.spec_keys()[i].0.len() > 0 ==> entry(
                removed(c, item),
                item.spec_keys()[i].0,
                item.spec_keys()[i].1,
            ) != Some(item.spec_primary_key()),
{
    let c1 = c.remove((T::spec_table_name(), item.spec_primary_key()));
    lemma_drop_keys_absent(c1, item.spec_keys(), item.spec_primary_key());
}

/// Decoding what an item of `T` encodes to gives the item back.
pub open spec fn round_trips<T: SDBItem>() -> bool {
    forall|x: T| #[trigger] T::spec_decoded(x.spec_encoded()) == x
}

/// When `T` decodes what it encodes, the update event that `update` queues
/// gives back both items through `inner_old` and `inner_new`, and so does
/// any copy of it handed to a watcher.
pub proof fn lemma_update_event_items<T: SDBItem>(e: Event, sent: Event, old_item: T, new_item: T)
    requires
        round_trips::<T>(),
        e matches Event::Update(u) && u.old_value@ == old_item.spec_encoded() && u.new_value@
            == new_item.spec_encoded(),
        same_event(sent, e),
    ensures
        sent matches Event::Update(u) && T::spec_decoded(u.old_value@) == old_item && T::spec_decoded(u.new_value@)
            == new_item,
{
    assert(T::spec_decoded(old_item.spec_encoded()) == old_item);
    assert(T::spec_decoded(new_item.spec_encoded()) == new_item);
}

/// When `T` decodes what it encodes, reading an item's primary key after
/// writing it gives the item back.
pub proof fn lemma_insert_then_get<T: SDBItem>(c: Contents, item: T)
    requires
        round_trips::<T>(),
        indexes_apart::<T>(),
    ensures
        entry(upserted(c, item), T::spec_table_name(), item.spec_primary_key()) matches Some(b)
            && T::spec_decoded(b) == item,
{
    lemma_insert_primary(c, item);
    assert(T::spec_decoded(item.spec_encoded()) == item);
}

} // verus!
