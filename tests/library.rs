use redb::ReadableTable;
use struct_db::bytes::{bytes_eq, copy_bytes, starts_with};
use struct_db::db::Db;
use struct_db::event::{Batch, Event, Insert, Pending};
use struct_db::filter::{KeyFilter, TableFilter};
use struct_db::item::{KeyDefinition, SDBItem, Schema};
use struct_db::request::WatcherRequest;
use struct_db::channel::SendLog;
use struct_db::transaction::{dispatch_batch, finish_commit};
use struct_db::watchers::Watchers;
use struct_db::DbError;

#[derive(Debug, Clone, PartialEq, Eq)]
struct Item {
    key: String,
    tag: String,
}

impl Item {
    fn new(key: &str, tag: &str) -> Item {
        Item { key: key.to_string(), tag: tag.to_string() }
    }
}

impl SDBItem for Item {
    fn struct_db_schema() -> Schema {
        Schema { table_name: "item", primary_key: "key", secondary_tables_name: vec!["item_tag"] }
    }

    fn struct_db_primary_key(&self) -> Vec<u8> {
        self.key.as_bytes().to_vec()
    }

    fn struct_db_keys(&self) -> Vec<(&'static str, Vec<u8>)> {
        vec![("item_tag", self.tag.as_bytes().to_vec())]
    }

    fn struct_db_bincode_encode_to_vec(&self) -> Vec<u8> {
        let mut v = self.key.as_bytes().to_vec();
        v.push(0);
        v.extend_from_slice(self.tag.as_bytes());
        v
    }

    fn struct_db_bincode_decode_from_slice(slice: &[u8]) -> Self {
        let pos = slice.iter().position(|b| *b == 0).unwrap();
        Item {
            key: String::from_utf8(slice[..pos].to_vec()).unwrap(),
            tag: String::from_utf8(slice[pos + 1..].to_vec()).unwrap(),
        }
    }
}

struct TagKey;

impl KeyDefinition for TagKey {
    fn secondary_table_name(&self) -> &'static str {
        "item_tag"
    }
}

fn memory_db() -> Db {
    let instance = redb::Database::builder()
        .create_with_backend(redb::backends::InMemoryBackend::new())
        .unwrap();
    let mut db = Db::new(instance);
    db.define::<Item>();
    db
}

fn insert_all(db: &Db, items: &[Item]) {
    let mut txn = db.transaction().unwrap();
    for item in items {
        txn.insert(item.clone()).unwrap();
    }
    txn.commit(&mut SendLog::new()).unwrap();
}

fn request(table: &'static str, key: &str, tag: &str) -> WatcherRequest {
    WatcherRequest::new(table, key.as_bytes().to_vec(), vec![("item_tag", tag.as_bytes().to_vec())])
}

#[test]
fn byte_helpers() {
    assert!(bytes_eq(b"abc", b"abc"));
    assert!(!bytes_eq(b"abc", b"abd"));
    assert!(!bytes_eq(b"ab", b"abc"));
    assert!(starts_with(b"abc", b"ab"));
    assert!(starts_with(b"abc", b""));
    assert!(!starts_with(b"ab", b"abc"));
    assert!(!starts_with(b"ba", b"a"));
    assert_eq!(copy_bytes(b"xyz"), b"xyz".to_vec());
}

#[test]
fn watcher_request_new_and_lookup() {
    let r = WatcherRequest::new("item", vec![1, 2], vec![("a", vec![3]), ("b", vec![4]), ("a", vec![5])]);
    assert_eq!(r.table_name(), b"item");
    assert_eq!(r.primary_key(), &[1u8, 2][..]);
    assert_eq!(r.secondary_key(b"a"), Some(&[3u8][..]));
    assert_eq!(r.secondary_key(b"b"), Some(&[4u8][..]));
    assert_eq!(r.secondary_key(b"c"), None);
}

#[test]
fn filter_matching_rules() {
    let req = request("item", "ab", "red");
    assert!(TableFilter::new_primary(b"item", None).matches(&req));
    assert!(TableFilter::new_primary(b"item", Some(b"ab")).matches(&req));
    assert!(!TableFilter::new_primary(b"item", Some(b"a")).matches(&req));
    assert!(!TableFilter::new_primary(b"other", None).matches(&req));
    assert!(TableFilter::new_primary_start_with(b"item", b"a").matches(&req));
    assert!(!TableFilter::new_primary_start_with(b"item", b"b").matches(&req));
    assert!(TableFilter::new_secondary(b"item", TagKey, None).matches(&req));
    assert!(TableFilter::new_secondary(b"item", TagKey, Some(b"red")).matches(&req));
    assert!(!TableFilter::new_secondary(b"item", TagKey, Some(b"re")).matches(&req));
    assert!(TableFilter::new_secondary_start_with(b"item", TagKey, b"re").matches(&req));
    assert!(!TableFilter::new_secondary_start_with(b"item", TagKey, b"bl").matches(&req));
    let f = TableFilter::new_secondary_start_with(b"item", TagKey, b"re");
    match &f.key_filter {
        KeyFilter::SecondaryStartWith(n, p) => {
            assert_eq!(n, &b"item_tag".to_vec());
            assert_eq!(p, &b"re".to_vec());
        }
        _ => panic!("wrong filter"),
    }
}

#[test]
fn update_matches_old_or_new_key() {
    let f = TableFilter::new_primary(b"item", Some(b"old"));
    let p = Pending {
        request: request("item", "new", "t"),
        old_request: Some(request("item", "old", "t")),
        event: Event::Insert(Insert { primary_key: b"new".to_vec(), value: vec![] }),
    };
    assert!(p.is_selected_by(&f));
    let g = TableFilter::new_primary(b"item", Some(b"other"));
    assert!(!p.is_selected_by(&g));
}

#[test]
fn registry_ids_and_removal() {
    let mut w: Watchers<u8> = Watchers::new();
    assert_eq!(w.add_sender(TableFilter::new_primary(b"item", None), 10).ok(), Some(0));
    assert_eq!(w.add_sender(TableFilter::new_primary_start_with(b"item", b"a"), 11).ok(), Some(1));
    assert_eq!(w.add_sender(TableFilter::new_primary(b"item", Some(b"b")), 12).ok(), Some(2));
    let p = Pending {
        request: request("item", "ab", "t"),
        old_request: None,
        event: Event::Insert(Insert { primary_key: b"ab".to_vec(), value: vec![] }),
    };
    assert_eq!(w.matching(&p), vec![0, 1]);
    w.remove_sender(1);
    assert_eq!(w.matching(&p), vec![0]);
    w.remove_sender(1);
    assert_eq!(w.records.len(), 2);
    assert_eq!(w.add_sender(TableFilter::new_primary(b"item", None), 13).ok(), Some(3));
}

#[test]
fn registry_exhaustion() {
    let mut w: Watchers<u8> = Watchers::with_next_id(u64::MAX - 1);
    assert_eq!(w.add_sender(TableFilter::new_primary(b"item", None), 1).ok(), Some(u64::MAX - 1));
    let r = w.add_sender(TableFilter::new_primary(b"item", None), 2);
    assert!(matches!(r, Err(DbError::MaxWatcherReached)));
    assert!(matches!(w.generate_watcher_id(), Err(DbError::MaxWatcherReached)));
    assert_eq!(w.records.len(), 1);
    let p = Pending {
        request: request("item", "k", "t"),
        old_request: None,
        event: Event::Insert(Insert { primary_key: b"k".to_vec(), value: vec![] }),
    };
    assert_eq!(w.matching(&p), vec![u64::MAX - 1]);
}

#[test]
fn batch_keeps_order() {
    let mut b = Batch::new();
    b.add(Pending {
        request: request("item", "a", "t"),
        old_request: None,
        event: Event::Insert(Insert { primary_key: b"a".to_vec(), value: vec![] }),
    });
    b.add(Pending {
        request: request("item", "b", "t"),
        old_request: None,
        event: Event::Insert(Insert { primary_key: b"b".to_vec(), value: vec![] }),
    });
    assert_eq!(b.pending.len(), 2);
    assert_eq!(b.pending[0].request.primary_key(), b"a");
    assert_eq!(b.pending[1].request.primary_key(), b"b");
}

#[test]
fn insert_commit_then_read() {
    let db = memory_db();
    insert_all(&db, &[Item::new("k1", "red")]);
    let r = db.read_transaction().unwrap();
    assert_eq!(r.len::<Item>().unwrap(), 1);
    assert_eq!(r.primary_get::<Item>(b"k1").unwrap(), Some(Item::new("k1", "red")));
    assert_eq!(r.primary_get::<Item>(b"k2").unwrap(), None);
}

#[test]
fn insert_existing_key_keeps_len() {
    let db = memory_db();
    insert_all(&db, &[Item::new("k1", "red")]);
    insert_all(&db, &[Item::new("k1", "blue"), Item::new("k2", "red")]);
    let r = db.read_transaction().unwrap();
    assert_eq!(r.len::<Item>().unwrap(), 2);
    assert_eq!(r.primary_get::<Item>(b"k1").unwrap(), Some(Item::new("k1", "blue")));
}

#[test]
fn net_result_of_one_transaction() {
    let db = memory_db();
    let mut txn = db.transaction().unwrap();
    txn.insert(Item::new("a", "x")).unwrap();
    txn.insert(Item::new("b", "y")).unwrap();
    txn.update(Item::new("a", "x"), Item::new("c", "z")).unwrap();
    txn.remove(Item::new("b", "y")).unwrap();
    assert_eq!(txn.len::<Item>().unwrap(), 1);
    assert_eq!(txn.primary_get::<Item>(b"c").unwrap(), Some(Item::new("c", "z")));
    txn.commit(&mut SendLog::new()).unwrap();
    let r = db.read_transaction().unwrap();
    assert_eq!(r.len::<Item>().unwrap(), 1);
    assert_eq!(r.primary_get::<Item>(b"a").unwrap(), None);
    assert_eq!(r.primary_get::<Item>(b"b").unwrap(), None);
    assert_eq!(r.primary_get::<Item>(b"c").unwrap(), Some(Item::new("c", "z")));
}

#[test]
fn undefined_table_is_an_error() {
    let instance = redb::Database::builder()
        .create_with_backend(redb::backends::InMemoryBackend::new())
        .unwrap();
    let db = Db::new(instance);
    let mut txn = db.transaction().unwrap();
    let r = txn.insert(Item::new("a", "x"));
    assert!(matches!(r, Err(DbError::TableDefinitionNotFound { .. })));
    assert!(matches!(txn.len::<Item>(), Err(DbError::TableDefinitionNotFound { .. })));
}

#[test]
fn update_reaches_watcher_on_old_key() {
    let mut db = memory_db();
    insert_all(&db, &[Item::new("old", "t")]);
    let (rx, _id) = db.primary_watch::<Item>(Some(b"old")).unwrap();
    let mut txn = db.transaction().unwrap();
    txn.update(Item::new("old", "t"), Item::new("new", "u")).unwrap();
    txn.commit(&mut SendLog::new()).unwrap();
    match rx.try_recv().unwrap() {
        Event::Update(u) => {
            assert_eq!(u.inner_old::<Item>(), Item::new("old", "t"));
            assert_eq!(u.inner_new::<Item>(), Item::new("new", "u"));
        }
        _ => panic!("expected an update"),
    }
    assert!(rx.try_recv().is_err());
    let r = db.read_transaction().unwrap();
    assert_eq!(r.primary_get::<Item>(b"new").unwrap(), Some(Item::new("new", "u")));
}

#[test]
fn aborted_transaction_sends_nothing() {
    let mut db = memory_db();
    let (rx, _id) = db.primary_watch::<Item>(None).unwrap();
    {
        let mut txn = db.transaction().unwrap();
        txn.insert(Item::new("a", "x")).unwrap();
    }
    assert!(rx.recv_timeout(std::time::Duration::from_millis(50)).is_err());
    let r = db.read_transaction().unwrap();
    assert!(r.primary_get::<Item>(b"a").map(|v| v.is_none()).unwrap_or(true));
}

#[test]
fn prefix_watch_is_selective() {
    let mut db = memory_db();
    let (rx, _id) = db.primary_watch_start_with::<Item>(b"a").unwrap();
    insert_all(&db, &[Item::new("ab", "x"), Item::new("ba", "y")]);
    match rx.try_recv().unwrap() {
        Event::Insert(i) => assert_eq!(i.inner::<Item>(), Item::new("ab", "x")),
        _ => panic!("expected an insert"),
    }
    assert!(rx.try_recv().is_err());
}

#[test]
fn secondary_watch_follows_index_key() {
    let mut db = memory_db();
    let (rx, _id) = db.secondary_watch::<Item, TagKey>(TagKey, Some(b"red")).unwrap();
    let (rx2, _id2) = db.secondary_watch_start_with::<Item, TagKey>(TagKey, b"bl").unwrap();
    insert_all(&db, &[Item::new("a", "red"), Item::new("b", "blue")]);
    match rx.try_recv().unwrap() {
        Event::Insert(i) => assert_eq!(i.inner::<Item>(), Item::new("a", "red")),
        _ => panic!("expected an insert"),
    }
    assert!(rx.try_recv().is_err());
    match rx2.try_recv().unwrap() {
        Event::Insert(i) => assert_eq!(i.inner::<Item>(), Item::new("b", "blue")),
        _ => panic!("expected an insert"),
    }
    assert!(rx2.try_recv().is_err());
}

#[test]
fn unwatch_twice_and_no_more_events() {
    let mut db = memory_db();
    let (rx, id) = db.primary_watch::<Item>(None).unwrap();
    assert!(db.unwatch(id).is_ok());
    assert!(db.unwatch(id).is_ok());
    assert!(db.unwatch(12345).is_ok());
    insert_all(&db, &[Item::new("a", "x")]);
    assert!(rx.try_recv().is_err());
}

#[test]
fn remove_sends_delete() {
    let mut db = memory_db();
    insert_all(&db, &[Item::new("a", "x")]);
    let (rx, id) = db.primary_watch::<Item>(None).unwrap();
    assert_eq!(id, 0);
    let mut txn = db.transaction().unwrap();
    txn.remove(Item::new("a", "x")).unwrap();
    txn.commit(&mut SendLog::new()).unwrap();
    match rx.try_recv().unwrap() {
        Event::Delete(d) => assert_eq!(d.inner::<Item>(), Item::new("a", "x")),
        _ => panic!("expected a delete"),
    }
    let r = db.read_transaction().unwrap();
    assert_eq!(r.len::<Item>().unwrap(), 0);
}

#[test]
fn dispatch_reaches_matching_receivers_only() {
    let mut db = memory_db();
    let (rx0, _id0) = db.primary_watch::<Item>(None).unwrap();
    let (rx1, _id1) = db.primary_watch::<Item>(Some(b"zz")).unwrap();
    let (rx2, _id2) = db.primary_watch_start_with::<Item>(b"k").unwrap();
    let mut b = Batch::new();
    b.add(Pending {
        request: request("item", "k1", "t"),
        old_request: None,
        event: Event::Insert(Insert { primary_key: b"k1".to_vec(), value: vec![] }),
    });
    dispatch_batch(&db.watchers, &b, &mut SendLog::new());
    assert!(matches!(rx0.try_recv(), Ok(Event::Insert(_))));
    assert!(rx1.try_recv().is_err());
    assert!(matches!(rx2.try_recv(), Ok(Event::Insert(_))));
    assert!(rx0.try_recv().is_err());
}

#[test]
fn exhausted_ids_keep_existing_watchers() {
    let mut db = memory_db();
    let (rx, _id) = db.primary_watch::<Item>(None).unwrap();
    db.watchers.next_id = u64::MAX;
    assert!(matches!(db.primary_watch::<Item>(None), Err(DbError::MaxWatcherReached)));
    insert_all(&db, &[Item::new("a", "x")]);
    assert!(matches!(rx.try_recv(), Ok(Event::Insert(_))));
}

struct EmptyItem;

impl SDBItem for EmptyItem {
    fn struct_db_schema() -> Schema {
        Schema { table_name: "", primary_key: "key", secondary_tables_name: vec![] }
    }

    fn struct_db_primary_key(&self) -> Vec<u8> {
        vec![1]
    }

    fn struct_db_keys(&self) -> Vec<(&'static str, Vec<u8>)> {
        vec![]
    }

    fn struct_db_bincode_encode_to_vec(&self) -> Vec<u8> {
        vec![]
    }

    fn struct_db_bincode_decode_from_slice(_slice: &[u8]) -> Self {
        EmptyItem
    }
}

#[test]
fn empty_table_name_is_refused() {
    let mut db = memory_db();
    db.define::<EmptyItem>();
    let mut txn = db.transaction().unwrap();
    assert!(matches!(txn.insert(EmptyItem), Err(DbError::InvalidTableName)));
    assert!(matches!(txn.remove(EmptyItem), Err(DbError::InvalidTableName)));
    assert!(matches!(txn.len::<EmptyItem>(), Err(DbError::InvalidTableName)));
    assert!(matches!(txn.primary_get::<EmptyItem>(b"k"), Err(DbError::InvalidTableName)));
    assert_eq!(txn.batch.pending.len(), 0);
}

fn index_entry(db: &Db, tag: &str) -> Option<Vec<u8>> {
    let rt = db.read_transaction().unwrap();
    let table = rt.txn.open_table(redb::TableDefinition::<&[u8], &[u8]>::new("item_tag")).unwrap();
    let v = table.get(tag.as_bytes()).unwrap();
    v.map(|g| g.value().to_vec())
}

#[test]
fn upsert_drops_stale_index_entry() {
    let db = memory_db();
    insert_all(&db, &[Item::new("k1", "red")]);
    assert_eq!(index_entry(&db, "red"), Some(b"k1".to_vec()));
    insert_all(&db, &[Item::new("k1", "blue")]);
    assert_eq!(index_entry(&db, "red"), None);
    assert_eq!(index_entry(&db, "blue"), Some(b"k1".to_vec()));
}

#[test]
fn remove_and_update_maintain_index() {
    let db = memory_db();
    insert_all(&db, &[Item::new("a", "x"), Item::new("b", "y")]);
    let mut txn = db.transaction().unwrap();
    txn.update(Item::new("a", "x"), Item::new("c", "z")).unwrap();
    txn.remove(Item::new("b", "y")).unwrap();
    txn.commit(&mut SendLog::new()).unwrap();
    assert_eq!(index_entry(&db, "x"), None);
    assert_eq!(index_entry(&db, "y"), None);
    assert_eq!(index_entry(&db, "z"), Some(b"c".to_vec()));
}

#[test]
fn commit_delivers_in_queue_order() {
    let mut db = memory_db();
    let (rx0, _id0) = db.primary_watch::<Item>(None).unwrap();
    let (rx1, _id1) = db.primary_watch::<Item>(Some(b"b")).unwrap();
    let mut txn = db.transaction().unwrap();
    txn.insert(Item::new("a", "x")).unwrap();
    txn.insert(Item::new("b", "y")).unwrap();
    txn.commit(&mut SendLog::new()).unwrap();
    match rx0.try_recv().unwrap() {
        Event::Insert(i) => assert_eq!(i.inner::<Item>(), Item::new("a", "x")),
        _ => panic!("expected an insert"),
    }
    match rx0.try_recv().unwrap() {
        Event::Insert(i) => assert_eq!(i.inner::<Item>(), Item::new("b", "y")),
        _ => panic!("expected an insert"),
    }
    assert!(rx0.try_recv().is_err());
    match rx1.try_recv().unwrap() {
        Event::Insert(i) => assert_eq!(i.inner::<Item>(), Item::new("b", "y")),
        _ => panic!("expected an insert"),
    }
    assert!(rx1.try_recv().is_err());
}

#[test]
fn closed_receiver_does_not_stop_others() {
    let mut db = memory_db();
    let (rx0, id0) = db.primary_watch::<Item>(None).unwrap();
    let (rx1, _id1) = db.primary_watch::<Item>(None).unwrap();
    drop(rx0);
    insert_all(&db, &[Item::new("a", "x")]);
    assert!(matches!(rx1.try_recv(), Ok(Event::Insert(_))));
    assert_eq!(db.watchers.records.len(), 2);
    assert!(db.unwatch(id0).is_ok());
    assert_eq!(db.watchers.records.len(), 1);
}

#[test]
fn failed_commit_sends_nothing() {
    let mut db = memory_db();
    let (rx, _id) = db.primary_watch::<Item>(None).unwrap();
    let mut b = Batch::new();
    b.add(Pending {
        request: request("item", "k1", "t"),
        old_request: None,
        event: Event::Insert(Insert { primary_key: b"k1".to_vec(), value: vec![] }),
    });
    let mut log = SendLog::new();
    let r = finish_commit(Err(redb::Error::DatabaseAlreadyOpen), &db.watchers, &b, &mut log);
    assert!(matches!(r, Err(DbError::RedbError(_))));
    assert!(rx.try_recv().is_err());
    let r = finish_commit(Ok(()), &db.watchers, &b, &mut log);
    assert!(r.is_ok());
    assert!(matches!(rx.try_recv(), Ok(Event::Insert(_))));
    assert!(rx.try_recv().is_err());
}

#[test]
fn shared_secondary_key_stays_with_its_owner() {
    let db = memory_db();
    insert_all(&db, &[Item::new("a", "red")]);
    insert_all(&db, &[Item::new("b", "red")]);
    assert_eq!(index_entry(&db, "red"), Some(b"b".to_vec()));
    let mut txn = db.transaction().unwrap();
    txn.remove(Item::new("a", "red")).unwrap();
    txn.commit(&mut SendLog::new()).unwrap();
    assert_eq!(index_entry(&db, "red"), Some(b"b".to_vec()));
}
