use vstd::prelude::*;

use crate::bytes::bytes_eq;
use vstd::string::StringSliceAdditionalSpecFns;

verus! {

/// What a watcher filter is tested against: the table an item lives in, its
/// primary key, and its secondary keys by index name. The secondary keys
/// stand for a map from index name to key: under a repeated name the first
/// entry counts, and with unique names every entry is found
/// (`lemma_lookup_unique`).

pub struct WatcherRequest {
    pub table_name: Vec<u8>,
    pub primary_key_value: Vec<u8>,
    pub secondary_keys_value: Vec<(&'static str, Vec<u8>)>,
}

/// The key that the first entry named `name` gives, if any.
pub open spec fn lookup_key(entries: Seq<(&'static str, Vec<u8>)>, name: Seq<u8>) -> Option<Seq<u8>>
    decreases entries.len(),
{
    if entries.len() == 0 {
        None
    } else if entries[0].0.spec_bytes() == name {
        Some(entries[0].1@)
    } else {
        lookup_key(entries.drop_first(), name)
    }
}

/// No two entries share an index name, as in a map from names to keys.
pub open spec fn names_unique(entries: Seq<(&'static str, Vec<u8>)>) -> bool {
    forall|i: int, j: int|
        0 <= i < j < entries.len() ==> entries[i].0.spec_bytes() != entries[j].0.spec_bytes()
}

/// With unique names, the lookup of each entry's name finds that entry's
/// key: the entries behave as a map.
pub proof fn lemma_lookup_unique(entries: Seq<(&'static str, Vec<u8>)>, i: int)
    requires
        names_unique(entries),
        0 <= i < entries.len(),
    ensures
        lookup_key(entries, entries[i].0.spec_bytes()) == Some(entries[i].1@),
    decreases entries.len(),
{
    if i > 0 {
        let rest = entries.drop_first();
        assert(entries[0].0.spec_bytes() != entries[i].0.spec_bytes());
        assert(rest[i - 1] == entries[i]);
        assert forall|a: int, b: int| 0 <= a < b < rest.len() implies rest[a].0.spec_bytes()
            != rest[b].0.spec_bytes() by {
            assert(rest[a] == entries[a + 1] && rest[b] == entries[b + 1]);
        };
        lemma_lookup_unique(rest, i - 1);
    }
}

impl WatcherRequest {
    pub open spec fn spec_table(&self) -> Seq<u8> {
        self.table_name@
    }

    pub open spec fn spec_primary_key(&self) -> Seq<u8> {
        self.primary_key_value@
    }

    /// The key of this item under the secondary index `name`.
    pub open spec fn spec_secondary_key(&self, name: Seq<u8>) -> Option<Seq<u8>> {
        lookup_key(self.secondary_keys_value@, name)
    }

    pub fn new(
        table_name: &'static str,
        primary_key_value: Vec<u8>,
        secondary_keys_value: Vec<(&'static str, Vec<u8>)>,
    ) -> (r: Self)
        ensures
            r.spec_table() == table_name.spec_bytes(),
            r.primary_key_value@ == primary_key_value@,
            r.secondary_keys_value@ == secondary_keys_value@,
    {
        let name = table_name.as_bytes();
        Self {
            table_name: crate::bytes::copy_bytes(name),
            primary_key_value,
            secondary_keys_value,
        }
    }

    pub fn table_name(&self) -> (r: &[u8])
        ensures
            r@ == self.spec_table(),
    {
        self.table_name.as_slice()
    }

    pub fn primary_key(&self) -> (r: &[u8])
        ensures
            r@ == self.spec_primary_key(),
    {
        self.primary_key_value.as_slice()
    }

    /// The key of this item under the secondary index `name`, if it has one.
    pub fn secondary_key(&self, name: &[u8]) -> (r: Option<&[u8]>)
        ensures
            r matches Some(k) ==> self.spec_secondary_key(name@) == Some(k@),
            r is None ==> self.spec_secondary_key(name@) is None,
    {
        let ghost entries = self.secondary_keys_value@;
        let mut i: usize = 0;
        assert(entries.subrange(0, entries.len() as int) =~= entries);
        while i < self.secondary_keys_value.len()
            invariant
                entries == self.secondary_keys_value@,
                i <= entries.len(),
                lookup_key(entries, name@) == lookup_key(entries.subrange(i as int, entries.len() as int), name@),
            decreases entries.len() - i,
        {
            let ghost rest = entries.subrange(i as int, entries.len() as int);
            assert(rest.drop_first() =~= entries.subrange(i + 1, entries.len() as int));
            assert(rest[0] == entries[i as int]);
            let entry_name = self.secondary_keys_value[i].0.as_bytes();
            if bytes_eq(entry_name, name) {
                return Some(self.secondary_keys_value[i].1.as_slice());
            }
            i = i + 1;
        }
        None
    }
}

} // verus!
