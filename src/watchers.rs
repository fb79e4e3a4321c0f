use vstd::prelude::*;

use crate::event::{pending_matches, same_event, Pending};
use crate::filter::TableFilter;
use crate::channel::{send_event, SendLog};
use crate::event::Event;
use crate::DbError;
use std::sync::mpsc::Sender;

verus! {

/// A registered watcher: its id, what it follows, and where its events go.
pub struct Watcher<S> {
    pub id: u64,
    pub filter: TableFilter,
    pub sender: S,
}

/// The watchers of a database, in the order they were registered, and the
/// next id to hand out.
pub struct Watchers<S> {
    pub records: Vec<Watcher<S>>,
    pub next_id: u64,
}

/// The ids of the watchers in `records` told of `p`, in order.
pub open spec fn matching_ids<S>(records: Seq<Watcher<S>>, p: Pending) -> Seq<u64>
    decreases records.len(),
{
    if records.len() == 0 {
        Seq::empty()
    } else {
        let rest = matching_ids(records.drop_last(), p);
        if pending_matches(records.last().filter, p) {
            rest.push(records.last().id)
        } else {
            rest
        }
    }
}

/// `after` is `before` without the watcher `id`: unchanged if there was
/// none, else that one record gone and the rest in order.
pub open spec fn removal<S>(before: Watchers<S>, after: Watchers<S>, id: u64) -> bool {
    &&& after.wf()
    &&& after.next_id == before.next_id
    &&& !after.has_id(id)
    &&& !before.has_id(id) ==> after.records@ == before.records@
    &&& forall|k: int|
        0 <= k < before.records@.len() && #[trigger] before.records@[k].id == id ==> after.records@
            == before.records@.remove(k)
}

impl<S> Watchers<S> {
    /// Ids strictly increase in registration order, and each is below the
    /// next id to hand out; so no two watchers share an id.
    pub open spec fn wf(&self) -> bool {
        &&& forall|i: int, j: int|
            0 <= i < j < self.records@.len() ==> self.records@[i].id < self.records@[j].id
        &&& forall|i: int| 0 <= i < self.records@.len() ==> self.records@[i].id < self.next_id
    }

    /// A watcher with this id is registered.
    pub open spec fn has_id(&self, id: u64) -> bool {
        exists|i: int| 0 <= i < self.records@.len() && self.records@[i].id == id
    }

    pub fn new() -> (r: Self)
        ensures
            r.wf(),
            r.records@.len() == 0,
            r.next_id == 0,
    {
        Watchers { records: Vec::new(), next_id: 0 }
    }

    /// A registry with no watchers whose next id is `next_id`.
    pub fn with_next_id(next_id: u64) -> (r: Self)
        ensures
            r.wf(),
            r.records@.len() == 0,
            r.next_id == next_id,
    {
        Watchers { records: Vec::new(), next_id }
    }

    /// Hands out the next id; fails once the largest `u64` is reached, which
    /// is never handed out. An id is never handed out twice.
    pub fn generate_watcher_id(&mut self) -> (r: Result<u64, DbError>)
        ensures
            old(self).next_id == u64::MAX ==> (r matches Err(DbError::MaxWatcherReached))
                && final(self).next_id == old(self).next_id,
            old(self).next_id < u64::MAX ==> r == Ok::<u64, DbError>(old(self).next_id)
                && final(self).next_id == old(self).next_id + 1,
            final(self).records == old(self).records,
    {
        let value = self.next_id;
        if value == u64::MAX {
            Err(DbError::MaxWatcherReached)
        } else {
            self.next_id = value + 1;
            Ok(value)
        }
    }

    /// Registers a watcher under a fresh id and returns the id; with the ids
    /// used up, fails and leaves the registry as it was.
    pub fn add_sender(&mut self, filter: TableFilter, sender: S) -> (r: Result<u64, DbError>)
        requires
            old(self).wf(),
        ensures
            final(self).wf(),
            old(self).next_id == u64::MAX ==> (r matches Err(DbError::MaxWatcherReached))
                && final(self).records@ == old(self).records@
                && final(self).next_id == old(self).next_id,
            old(self).next_id < u64::MAX ==> r == Ok::<u64, DbError>(old(self).next_id)
                && final(self).next_id == old(self).next_id + 1
                && final(self).records@ == old(self).records@.push(
                    (Watcher { id: old(self).next_id, filter, sender }),
                ),
    {
        let id = match self.generate_watcher_id() {
            Ok(id) => id,
            Err(e) => {
                return Err(e);
            },
        };
        self.records.push(Watcher { id, filter, sender });
        Ok(id)
    }

    /// Removes the watcher with this id, if there is one; nothing else changes.
    pub fn remove_sender(&mut self, id: u64)
        requires
            old(self).wf(),
        ensures
            removal(*old(self), *final(self), id),
    {
        let mut i: usize = 0;
        while i < self.records.len()
            invariant
                self.wf(),
                *self == *old(self),
                i <= self.records@.len(),
                forall|j: int| 0 <= j < i ==> self.records@[j].id != id,
            decreases self.records@.len() - i,
        {
            if self.records[i].id == id {
                let ghost before = self.records@;
                let _removed = self.records.remove(i);
                assert forall|k: int| 0 <= k < before.len() && before[k].id == id implies k == i by {
                    if k < i {
                    } else if k > i {
                        assert(before[i as int].id < before[k].id);
                    }
                };
                assert forall|a: int| 0 <= a < self.records@.len() implies self.records@[a].id != id by {
                    if a < i {
                    } else {
                        assert(before[i as int].id < before[a + 1].id);
                    }
                };
                return;
            }
            i = i + 1;
        }
    }

    /// The ids of the watchers told of `p`, in registration order.
    pub fn matching(&self, p: &Pending) -> (r: Vec<u64>)
        ensures
            r@ == matching_ids(self.records@, *p),
    {
        let mut r: Vec<u64> = Vec::new();
        let mut i: usize = 0;
        while i < self.records.len()
            invariant
                i <= self.records@.len(),
                r@ == matching_ids(self.records@.subrange(0, i as int), *p),
            decreases self.records@.len() - i,
        {
            assert(self.records@.subrange(0, i + 1).drop_last() =~= self.records@.subrange(0, i as int));
            if p.is_selected_by(&self.records[i].filter) {
                r.push(self.records[i].id);
            }
            i = i + 1;
        }
        assert(self.records@.subrange(0, self.records@.len() as int) =~= self.records@);
        r
    }
}

/// `after` is `before` followed by one send per id of `ids`, in order,
/// each to that watcher and of a copy of `e`.
pub open spec fn sent_after(before: Seq<(u64, Event)>, after: Seq<(u64, Event)>, ids: Seq<u64>, e: Event) -> bool {
    &&& after.len() == before.len() + ids.len()
    &&& after.subrange(0, before.len() as int) == before
    &&& forall|j: int|
        0 <= j < ids.len() ==> (#[trigger] after[before.len() + j]).0 == ids[j] && same_event(
            after[before.len() + j].1,
            e,
        )
}

impl Watchers<Sender<Event>> {
    /// Sends a copy of the event of `p` to each watcher told of it, in
    /// registration order, and to no other. A watcher whose receiver is
    /// gone is skipped silently and the others are still sent to.
    pub fn dispatch(&self, p: &Pending, log: &mut SendLog)
        ensures
            sent_after(old(log)@, final(log)@, matching_ids(self.records@, *p), p.event),
    {
        let ghost start = log@;
        let mut i: usize = 0;
        assert(log@.subrange(0, start.len() as int) =~= start);
        assert(matching_ids(self.records@.subrange(0, 0), *p) == Seq::<u64>::empty());
        while i < self.records.len()
            invariant
                i <= self.records@.len(),
                sent_after(start, log@, matching_ids(self.records@.subrange(0, i as int), *p), p.event),
            decreases self.records@.len() - i,
        {
            assert(self.records@.subrange(0, i + 1).drop_last() =~= self.records@.subrange(0, i as int));
            let ghost ids = matching_ids(self.records@.subrange(0, i as int), *p);
            let ghost before = log@;
            if p.is_selected_by(&self.records[i].filter) {
                send_event(&self.records[i], p.event.duplicate(), log);
                assert(log@.subrange(0, start.len() as int) =~= before.subrange(0, start.len() as int));
                assert forall|j: int| 0 <= j < ids.len() + 1 implies (#[trigger] log@[start.len() + j]).0
                    == ids.push(self.records@[i as int].id)[j] && same_event(log@[start.len() + j].1, p.event) by {
                    if j < ids.len() {
                        assert(log@[start.len() + j] == before[start.len() + j]);
                    }
                };
            }
            i = i + 1;
        }
        assert(self.records@.subrange(0, self.records@.len() as int) =~= self.records@);
    }
}

} // verus!
