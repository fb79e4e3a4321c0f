use vstd::prelude::*;

use redb::{ReadableDatabase, ReadableTable, ReadableTableMetadata};
use vstd::string::StringSliceAdditionalSpecFns;

verus! {

#[verifier::external_type_specification]
#[verifier::external_body]
pub struct ExRedbError(redb::Error);

#[verifier::external_type_specification]
#[verifier::external_body]
pub struct ExDatabase(redb::Database);

#[verifier::external_type_specification]
#[verifier::external_body]
pub struct ExWriteTransaction(redb::WriteTransaction);

#[verifier::external_type_specification]
#[verifier::external_body]
pub struct ExReadTransaction(redb::ReadTransaction);

/// The entries that a write transaction sees, keyed by (table name, key).
pub uninterp spec fn write_contents(t: redb::WriteTransaction) -> Map<(Seq<u8>, Seq<u8>), Seq<u8>>;

/// The entries that a read transaction sees, keyed by (table name, key).
pub uninterp spec fn read_contents(t: redb::ReadTransaction) -> Map<(Seq<u8>, Seq<u8>), Seq<u8>>;

/// The keys present in table `t`.
pub open spec fn table_keys(c: Map<(Seq<u8>, Seq<u8>), Seq<u8>>, t: Seq<u8>) -> Set<Seq<u8>> {
    Set::new(|k: Seq<u8>| c.contains_key((t, k)))
}

/// The value under `k` in table `t`, if any.
pub open spec fn entry(c: Map<(Seq<u8>, Seq<u8>), Seq<u8>>, t: Seq<u8>, k: Seq<u8>) -> Option<Seq<u8>> {
    if c.contains_key((t, k)) {
        Some(c[(t, k)])
    } else {
        None
    }
}

/// Relies on redb's `Database::begin_write`: it starts a write transaction or
/// fails. It blocks while another write transaction of the database is
/// open, so a thread that still holds one must not ask for a second.
#[verifier::external_body]
pub(crate) fn begin_write(db: &redb::Database) -> (r: Result<redb::WriteTransaction, redb::Error>) {
    db.begin_write().map_err(redb::Error::from)
}

/// Relies on redb's `Database::begin_read`: it starts a read transaction or fails.
#[verifier::external_body]
pub(crate) fn begin_read(db: &redb::Database) -> (r: Result<redb::ReadTransaction, redb::Error>) {
    db.begin_read().map_err(redb::Error::from)
}

/// Relies on redb's `WriteTransaction::commit`: it makes the changes durable or fails.
#[verifier::external_body]
pub(crate) fn commit(txn: redb::WriteTransaction) -> (r: Result<(), redb::Error>) {
    txn.commit().map_err(redb::Error::from)
}

/// Relies on redb's `TableDefinition::new` (which panics on an empty name),
/// `WriteTransaction::open_table` and `Table::insert`: the
/// table is opened (made if missing) and the key then maps to the value,
/// replacing what it held.
#[verifier::external_body]
pub(crate) fn table_insert(
    txn: &mut redb::WriteTransaction,
    table: &str,
    key: &[u8],
    value: &[u8],
) -> (r: Result<(), redb::Error>)
    requires
        table.spec_bytes().len() > 0,
    ensures
        r is Ok ==> write_contents(*final(txn)) == write_contents(*old(txn)).insert(
            (table.spec_bytes(), key@),
            value@,
        ),
{
    let def: redb::TableDefinition<&[u8], &[u8]> = redb::TableDefinition::new(table);
    let mut t = txn.open_table(def)?;
    t.insert(key, value)?;
    Ok(())
}

/// Relies on redb's `TableDefinition::new` (which panics on an empty name),
/// `WriteTransaction::open_table` and `Table::remove`: the
/// key then maps to nothing.
#[verifier::external_body]
pub(crate) fn table_remove(txn: &mut redb::WriteTransaction, table: &str, key: &[u8]) -> (r: Result<
    (),
    redb::Error,
>)
    requires
        table.spec_bytes().len() > 0,
    ensures
        r is Ok ==> write_contents(*final(txn)) == write_contents(*old(txn)).remove(
            (table.spec_bytes(), key@),
        ),
{
    let def: redb::TableDefinition<&[u8], &[u8]> = redb::TableDefinition::new(table);
    let mut t = txn.open_table(def)?;
    t.remove(key)?;
    Ok(())
}

/// Relies on redb's `TableDefinition::new` (which panics on an empty name),
/// `WriteTransaction::open_table` and `Table::get`: the value
/// under the key, if any.
#[verifier::external_body]
pub(crate) fn table_get(txn: &redb::WriteTransaction, table: &str, key: &[u8]) -> (r: Result<
    Option<Vec<u8>>,
    redb::Error,
>)
    requires
        table.spec_bytes().len() > 0,
    ensures
        r matches Ok(v) ==> (v matches Some(b) ==> entry(write_contents(*txn), table.spec_bytes(), key@)
            == Some(b@)) && (v is None ==> entry(write_contents(*txn), table.spec_bytes(), key@) is None),
{
    let def: redb::TableDefinition<&[u8], &[u8]> = redb::TableDefinition::new(table);
    let t = txn.open_table(def)?;
    let v = t.get(key)?;
    Ok(v.map(|g| g.value().to_vec()))
}

/// Relies on redb's `TableDefinition::new` (which panics on an empty name),
/// `WriteTransaction::open_table` and `Table::len`: the
/// number of keys in the table, of which there are finitely many.
#[verifier::external_body]
pub(crate) fn table_len(txn: &redb::WriteTransaction, table: &str) -> (r: Result<u64, redb::Error>)
    requires
        table.spec_bytes().len() > 0,
    ensures
        r matches Ok(n) ==> write_contents(*txn).dom().finite() && n == table_keys(
            write_contents(*txn),
            table.spec_bytes(),
        ).len(),
{
    let def: redb::TableDefinition<&[u8], &[u8]> = redb::TableDefinition::new(table);
    let t = txn.open_table(def)?;
    Ok(t.len()?)
}

/// Relies on redb's `TableDefinition::new` (which panics on an empty name),
/// `ReadTransaction::open_table` and `ReadOnlyTable::get`:
/// the value under the key, if any; a table never written does not open.
#[verifier::external_body]
pub(crate) fn read_table_get(txn: &redb::ReadTransaction, table: &str, key: &[u8]) -> (r: Result<
    Option<Vec<u8>>,
    redb::Error,
>)
    requires
        table.spec_bytes().len() > 0,
    ensures
        r matches Ok(v) ==> (v matches Some(b) ==> entry(read_contents(*txn), table.spec_bytes(), key@)
            == Some(b@)) && (v is None ==> entry(read_contents(*txn), table.spec_bytes(), key@) is None),
{
    let def: redb::TableDefinition<&[u8], &[u8]> = redb::TableDefinition::new(table);
    let t = txn.open_table(def)?;
    let v = t.get(key)?;
    Ok(v.map(|g| g.value().to_vec()))
}

/// Relies on redb's `TableDefinition::new` (which panics on an empty name),
/// `ReadTransaction::open_table` and `ReadOnlyTable::len`:
/// the number of keys in the table, of which there are finitely many.
#[verifier::external_body]
pub(crate) fn read_table_len(txn: &redb::ReadTransaction, table: &str) -> (r: Result<u64, redb::Error>)
    requires
        table.spec_bytes().len() > 0,
    ensures
        r matches Ok(n) ==> read_contents(*txn).dom().finite() && n == table_keys(
            read_contents(*txn),
            table.spec_bytes(),
        ).len(),
{
    let def: redb::TableDefinition<&[u8], &[u8]> = redb::TableDefinition::new(table);
    let t = txn.open_table(def)?;
    Ok(t.len()?)
}

} // verus!
