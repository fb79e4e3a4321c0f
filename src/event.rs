use vstd::prelude::*;

use crate::bytes::copy_bytes;
use crate::filter::{filter_matches, TableFilter};
use crate::item::SDBItem;
use crate::request::WatcherRequest;

verus! {

/// An item was written, whether or not its key held one before.
pub struct Insert {
    pub primary_key: Vec<u8>,
    pub value: Vec<u8>,
}

/// An item was replaced by another.
pub struct Update {
    pub old_primary_key: Vec<u8>,
    pub old_value: Vec<u8>,
    pub new_primary_key: Vec<u8>,
    pub new_value: Vec<u8>,
}

/// An item was removed.
pub struct Delete {
    pub primary_key: Vec<u8>,
    pub value: Vec<u8>,
}

/// A change to a table, as delivered to watchers.
pub enum Event {
    Insert(Insert),
    Update(Update),
    Delete(Delete),
}

impl Insert {
    /// The inserted item.
    pub fn inner<T: SDBItem>(&self) -> (r: T)
        ensures
            r == T::spec_decoded(self.value@),
    {
        T::struct_db_bincode_decode_from_slice(self.value.as_slice())
    }
}

impl Update {
    /// The item as it was before the update.
    pub fn inner_old<T: SDBItem>(&self) -> (r: T)
        ensures
            r == T::spec_decoded(self.old_value@),
    {
        T::struct_db_bincode_decode_from_slice(self.old_value.as_slice())
    }

    /// The item as it is after the update.
    pub fn inner_new<T: SDBItem>(&self) -> (r: T)
        ensures
            r == T::spec_decoded(self.new_value@),
    {
        T::struct_db_bincode_decode_from_slice(self.new_value.as_slice())
    }
}

impl Delete {
    /// The removed item.
    pub fn inner<T: SDBItem>(&self) -> (r: T)
        ensures
            r == T::spec_decoded(self.value@),
    {
        T::struct_db_bincode_decode_from_slice(self.value.as_slice())
    }
}

/// Two events carry the same bytes.
pub open spec fn same_event(a: Event, b: Event) -> bool {
    match (a, b) {
        (Event::Insert(x), Event::Insert(y)) => x.primary_key@ == y.primary_key@ && x.value@ == y.value@,
        (Event::Update(x), Event::Update(y)) => x.old_primary_key@ == y.old_primary_key@
            && x.old_value@ == y.old_value@ && x.new_primary_key@ == y.new_primary_key@
            && x.new_value@ == y.new_value@,
        (Event::Delete(x), Event::Delete(y)) => x.primary_key@ == y.primary_key@ && x.value@ == y.value@,
        _ => false,
    }
}

impl Event {
    /// A copy of this event, for one more watcher.
    pub fn duplicate(&self) -> (r: Event)
        ensures
            same_event(*self, r),
    {
        match self {
            Event::Insert(e) => Event::Insert(
                Insert { primary_key: copy_bytes(e.primary_key.as_slice()), value: copy_bytes(e.value.as_slice()) },
            ),
            Event::Update(e) => Event::Update(
                Update {
                    old_primary_key: copy_bytes(e.old_primary_key.as_slice()),
                    old_value: copy_bytes(e.old_value.as_slice()),
                    new_primary_key: copy_bytes(e.new_primary_key.as_slice()),
                    new_value: copy_bytes(e.new_value.as_slice()),
                },
            ),
            Event::Delete(e) => Event::Delete(
                Delete { primary_key: copy_bytes(e.primary_key.as_slice()), value: copy_bytes(e.value.as_slice()) },
            ),
        }
    }
}

/// An event waiting in a transaction's batch, with the item it concerns and,
/// for an update, the item it replaced.
pub struct Pending {
    pub request: WatcherRequest,
    pub old_request: Option<WatcherRequest>,
    pub event: Event,
}

/// Whether a watcher with filter `f` is told of `p`: the filter selects the
/// item, or, for an update, the item that it replaced.
pub open spec fn pending_matches(f: TableFilter, p: Pending) -> bool {
    filter_matches(f, p.request) || (p.old_request matches Some(o) && filter_matches(f, o))
}

impl Pending {
    pub fn is_selected_by(&self, f: &TableFilter) -> (r: bool)
        ensures
            r == pending_matches(*f, *self),
    {
        if f.matches(&self.request) {
            return true;
        }
        match &self.old_request {
            Some(o) => f.matches(o),
            None => false,
        }
    }
}

/// The events of one write transaction, in the order the changes were made.
pub struct Batch {
    pub pending: Vec<Pending>,
}

impl Batch {
    pub fn new() -> (r: Self)
        ensures
            r.pending@.len() == 0,
    {
        Batch { pending: Vec::new() }
    }

    pub fn add(&mut self, p: Pending)
        ensures
            final(self).pending@ == old(self).pending@.push(p),
    {
        self.pending.push(p);
    }
}

} // verus!
