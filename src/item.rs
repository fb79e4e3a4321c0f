use vstd::prelude::*;

use vstd::string::StringSliceAdditionalSpecFns;

verus! {

/// The tables of a storable type: its primary table and the tables of its
/// secondary indexes.
pub struct Schema {
    pub table_name: &'static str,
    pub primary_key: &'static str,
    pub secondary_tables_name: Vec<&'static str>,
}

/// A secondary index of a storable type, named by its table.
///
/// The spec functions of this trait and of `SDBItem` describe an
/// implementation; their defaults say nothing.
pub trait KeyDefinition {
    closed spec fn spec_table_name(&self) -> Seq<u8> {
        arbitrary()
    }

    fn secondary_table_name(&self) -> (r: &'static str)
        ensures
            r.spec_bytes() == self.spec_table_name(),
    ;
}

/// The (index name, key) pairs of `entries`, as bytes.
pub open spec fn key_pairs(entries: Seq<(&'static str, Vec<u8>)>) -> Seq<(Seq<u8>, Seq<u8>)> {
    entries.map_values(|e: (&'static str, Vec<u8>)| (e.0.spec_bytes(), e.1@))
}

/// The names of `names`, as bytes.
pub open spec fn name_bytes(names: Seq<&'static str>) -> Seq<Seq<u8>> {
    names.map_values(|n: &'static str| n.spec_bytes())
}

/// A type that can be stored: it names its tables, derives its keys and
/// encodes itself.
pub trait SDBItem: Sized {
    /// The name of the primary table.
    closed spec fn spec_table_name() -> Seq<u8> {
        arbitrary()
    }

    /// The names of the secondary index tables.
    closed spec fn spec_secondary_tables() -> Seq<Seq<u8>> {
        arbitrary()
    }

    closed spec fn spec_primary_key(&self) -> Seq<u8> {
        arbitrary()
    }

    /// The (index table name, secondary key) pairs of the item.
    closed spec fn spec_keys(&self) -> Seq<(Seq<u8>, Seq<u8>)> {
        arbitrary()
    }

    closed spec fn spec_encoded(&self) -> Seq<u8> {
        arbitrary()
    }

    closed spec fn spec_decoded(bytes: Seq<u8>) -> Self {
        arbitrary()
    }

    fn struct_db_schema() -> (r: Schema)
        ensures
            r.table_name.spec_bytes() == Self::spec_table_name(),
            name_bytes(r.secondary_tables_name@) == Self::spec_secondary_tables(),
    ;

    fn struct_db_primary_key(&self) -> (r: Vec<u8>)
        ensures
            r@ == self.spec_primary_key(),
    ;

    /// The secondary keys of the item, each with the name of its index table.
    fn struct_db_keys(&self) -> (r: Vec<(&'static str, Vec<u8>)>)
        ensures
            key_pairs(r@) == self.spec_keys(),
    ;

    fn struct_db_bincode_encode_to_vec(&self) -> (r: Vec<u8>)
        ensures
            r@ == self.spec_encoded(),
    ;

    fn struct_db_bincode_decode_from_slice(slice: &[u8]) -> (r: Self)
        ensures
            r == Self::spec_decoded(slice@),
    ;
}

} // verus!
