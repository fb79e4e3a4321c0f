use vstd::prelude::*;

use crate::bytes::{bytes_eq, copy_bytes, is_prefix_of, starts_with};
use crate::item::KeyDefinition;
use crate::request::WatcherRequest;
use vstd::string::StringSliceAdditionalSpecFns;

verus! {

/// Which keys of a table a watcher follows.
pub enum KeyFilter {
    /// Every item of the table when `None`, else the item with this primary key.
    Primary(Option<Vec<u8>>),
    /// Items whose primary key starts with these bytes.
    PrimaryStartWith(Vec<u8>),
    /// Under the named secondary index: every item when `None`, else items with this key.
    Secondary(Vec<u8>, Option<Vec<u8>>),
    /// Under the named secondary index: items whose key starts with these bytes.
    SecondaryStartWith(Vec<u8>, Vec<u8>),
}

/// A table together with the keys of it that a watcher follows.
pub struct TableFilter {
    pub table_name: Vec<u8>,
    pub key_filter: KeyFilter,
}

/// Whether the key filter `f` selects the item described by `req`.
pub open spec fn key_matches(f: KeyFilter, req: WatcherRequest) -> bool {
    match f {
        KeyFilter::Primary(None) => true,
        KeyFilter::Primary(Some(k)) => req.spec_primary_key() == k@,
        KeyFilter::PrimaryStartWith(p) => is_prefix_of(p@, req.spec_primary_key()),
        KeyFilter::Secondary(_, None) => true,
        KeyFilter::Secondary(n, Some(k)) => req.spec_secondary_key(n@) == Some(k@),
        KeyFilter::SecondaryStartWith(n, p) => match req.spec_secondary_key(n@) {
            Some(sk) => is_prefix_of(p@, sk),
            None => false,
        },
    }
}

/// Whether the filter `f` selects the item described by `req`: same table, and
/// the key filter selects its key.
pub open spec fn filter_matches(f: TableFilter, req: WatcherRequest) -> bool {
    req.spec_table() == f.table_name@ && key_matches(f.key_filter, req)
}

fn copy_opt(key: Option<&[u8]>) -> (r: Option<Vec<u8>>)
    ensures
        key is None <==> r is None,
        key matches Some(k) ==> r matches Some(v) && v@ == k@,
{
    match key {
        Some(k) => Some(copy_bytes(k)),
        None => None,
    }
}

impl TableFilter {
    pub fn new_primary(table_name: &[u8], key: Option<&[u8]>) -> (r: Self)
        ensures
            r.table_name@ == table_name@,
            key is None ==> r.key_filter == KeyFilter::Primary(None),
            key matches Some(k) ==> r.key_filter matches KeyFilter::Primary(Some(v)) && v@ == k@,
    {
        TableFilter { table_name: copy_bytes(table_name), key_filter: KeyFilter::Primary(copy_opt(key)) }
    }

    pub fn new_primary_start_with(table_name: &[u8], key_prefix: &[u8]) -> (r: Self)
        ensures
            r.table_name@ == table_name@,
            r.key_filter matches KeyFilter::PrimaryStartWith(p) && p@ == key_prefix@,
    {
        TableFilter {
            table_name: copy_bytes(table_name),
            key_filter: KeyFilter::PrimaryStartWith(copy_bytes(key_prefix)),
        }
    }

    pub fn new_secondary<K: KeyDefinition>(table_name: &[u8], key_def: K, key: Option<&[u8]>) -> (r: Self)
        ensures
            r.table_name@ == table_name@,
            r.key_filter matches KeyFilter::Secondary(n, v) && n@ == key_def.spec_table_name()
                && (v is None <==> key is None)
                && (key matches Some(k) ==> v matches Some(vv) && vv@ == k@),
    {
        let name = key_def.secondary_table_name();
        TableFilter {
            table_name: copy_bytes(table_name),
            key_filter: KeyFilter::Secondary(copy_bytes(name.as_bytes()), copy_opt(key)),
        }
    }

    pub fn new_secondary_start_with<K: KeyDefinition>(
        table_name: &[u8],
        key_def: K,
        key_prefix: &[u8],
    ) -> (r: Self)
        ensures
            r.table_name@ == table_name@,
            r.key_filter matches KeyFilter::SecondaryStartWith(n, p) && n@ == key_def.spec_table_name()
                && p@ == key_prefix@,
    {
        let name = key_def.secondary_table_name();
        TableFilter {
            table_name: copy_bytes(table_name),
            key_filter: KeyFilter::SecondaryStartWith(copy_bytes(name.as_bytes()), copy_bytes(key_prefix)),
        }
    }

    /// Whether this filter selects the item described by `req`.
    pub fn matches(&self, req: &WatcherRequest) -> (r: bool)
        ensures
            r == filter_matches(*self, *req),
    {
        if !bytes_eq(self.table_name.as_slice(), req.table_name()) {
            return false;
        }
        match &self.key_filter {
            KeyFilter::Primary(None) => true,
            KeyFilter::Primary(Some(k)) => bytes_eq(req.primary_key(), k.as_slice()),
            KeyFilter::PrimaryStartWith(p) => starts_with(req.primary_key(), p.as_slice()),
            KeyFilter::Secondary(_, None) => true,
            KeyFilter::Secondary(n, Some(k)) => match req.secondary_key(n.as_slice()) {
                Some(sk) => bytes_eq(sk, k.as_slice()),
                None => false,
            },
            KeyFilter::SecondaryStartWith(n, p) => match req.secondary_key(n.as_slice()) {
                Some(sk) => starts_with(sk, p.as_slice()),
                None => false,
            },
        }
    }
}

} // verus!
