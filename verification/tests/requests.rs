use etcd_client::{CompactionOptions, Compare, CompareOp, DeleteOptions, GetOptions, Txn, TxnOp};
use etcd_store::options::EtcdOption;
use etcd_store::store::EtcdStore;
use etcd_store::types::{DataObject, DeleteReply, Error, KeyValue, OpReply, RangeReply, TxnReply};

fn object(bytes: &[u8]) -> DataObject {
    DataObject { obj: bytes.to_vec(), revision: 0 }
}

fn found(revision: i64, kvs: Vec<KeyValue>) -> RangeReply {
    let count = kvs.len() as i64;
    RangeReply { revision: Some(revision), kvs, more: false, count }
}

fn kv(key: &str, value: &[u8], modRevision: i64) -> KeyValue {
    KeyValue { key: key.as_bytes().to_vec(), value: value.to_vec(), modRevision }
}

#[test]
fn empty_option_asks_for_one_key() {
    let option = EtcdOption::default();
    assert_eq!(option.limit, None);
    assert_eq!(option.endKey, None);
    assert_eq!(option.revision, None);
    assert!(!option.prefix);
    assert_eq!(format!("{:?}", option.ToGetOption()), format!("{:?}", GetOptions::new()));
}

#[test]
fn option_carries_each_setting() {
    let mut option = EtcdOption::default();
    option.WithLimit(7);
    assert_eq!(
        format!("{:?}", option.ToGetOption()),
        format!("{:?}", GetOptions::new().with_limit(7))
    );
    option.WithRange("end".to_string());
    assert_eq!(
        format!("{:?}", option.ToGetOption()),
        format!("{:?}", GetOptions::new().with_limit(7).with_range("end"))
    );
    option.WithRevision(11);
    assert_eq!(
        format!("{:?}", option.ToGetOption()),
        format!("{:?}", GetOptions::new().with_limit(7).with_range("end").with_revision(11))
    );
    option.WithPrefix();
    assert_eq!(option.limit, Some(7));
    assert_eq!(option.endKey, Some(b"end".to_vec()));
    assert_eq!(option.revision, Some(11));
    assert!(option.prefix);
    assert_eq!(
        format!("{:?}", option.ToGetOption()),
        format!(
            "{:?}",
            GetOptions::new().with_limit(7).with_range("end").with_revision(11).with_prefix()
        )
    );
}

#[test]
fn get_asks_for_the_prepared_key() {
    let store = EtcdStore::New(true);
    let call = store.Get("/pods/a/b", 3).unwrap();
    assert_eq!(call.key, "/registry/pods/a/b");
    assert_eq!(call.minRevision, 3);
    assert!(store.Get(".", 0).is_err());
}

#[test]
fn get_reads_the_object_at_its_revision() {
    let store = EtcdStore::New(true);
    let call = store.Get("pods/a", 0).unwrap();
    let object = call.Finish(&found(9, vec![kv("/registry/pods/a", b"x", 4)])).unwrap().unwrap();
    assert_eq!(object.obj, b"x".to_vec());
    assert_eq!(object.revision, 4);
}

#[test]
fn get_finds_nothing() {
    let store = EtcdStore::New(true);
    assert!(store.Get("pods/a", 9).unwrap().Finish(&found(9, vec![])).unwrap().is_none());
}

#[test]
fn get_refuses_an_old_answer() {
    let store = EtcdStore::New(true);
    match store.Get("pods/a", 10).unwrap().Finish(&found(9, vec![])) {
        Err(Error::MinRevsionErr { minRevision: 10, actualRevision: 9 }) => (),
        other => panic!("unexpected {:?}", other),
    }
}

#[test]
fn create_sets_an_absent_key() {
    let store = EtcdStore::New(true);
    let mut obj = object(b"value");
    let (txn, call) = store.Create("/pods/a/b", &obj).unwrap();
    let key = "/registry/pods/a/b";
    let expected = Txn::new()
        .when(vec![Compare::mod_revision(key, CompareOp::Equal, 0)])
        .and_then(vec![TxnOp::put(key, b"value".to_vec(), None)]);
    assert_eq!(format!("{:?}", txn), format!("{:?}", expected));
    assert_eq!(call.key, key);

    let reply = TxnReply { succeeded: true, responses: vec![OpReply::Put { revision: Some(12) }] };
    assert!(call.Finish(&reply, &mut obj).is_ok());
    assert_eq!(obj.revision, 12);
    assert_eq!(obj.obj, b"value".to_vec());
}

#[test]
fn create_tells_that_the_key_exists() {
    let store = EtcdStore::New(true);
    let mut obj = object(b"value");
    let (_, call) = store.Create("pods/a", &obj).unwrap();
    let reply = TxnReply { succeeded: false, responses: vec![] };
    match call.Finish(&reply, &mut obj) {
        Err(Error::NewKeyExistsErr { key, rev: 0 }) => assert_eq!(key, "/registry/pods/a"),
        other => panic!("unexpected {:?}", other),
    }
    assert_eq!(obj.revision, 0);
    assert!(store.Create("/", &obj).is_err());
}

#[test]
fn delete_at_a_revision() {
    let store = EtcdStore::New(true);
    let (txn, call) = store.Delete("pods/a", 5).unwrap();
    let key = "/registry/pods/a";
    let expected = Txn::new()
        .when(vec![Compare::mod_revision(key, CompareOp::Equal, 5)])
        .and_then(vec![TxnOp::delete(key, None)])
        .or_else(vec![TxnOp::get(key, None)]);
    assert_eq!(format!("{:?}", txn), format!("{:?}", expected));
    let reply = TxnReply {
        succeeded: false,
        responses: vec![OpReply::Get(found(20, vec![kv(key, b"x", 8)]))],
    };
    match call.Finish(&reply) {
        Err(Error::DeleteRevNotMatchErr { expectRev: 5, actualRev: 8 }) => (),
        other => panic!("unexpected {:?}", other),
    }
}

#[test]
fn delete_at_a_negative_revision_is_guarded() {
    let store = EtcdStore::New(true);
    let (txn, _) = store.Delete("pods/a", -1).unwrap();
    let key = "/registry/pods/a";
    let expected = Txn::new()
        .when(vec![Compare::mod_revision(key, CompareOp::Equal, -1)])
        .and_then(vec![TxnOp::delete(key, None)])
        .or_else(vec![TxnOp::get(key, None)]);
    assert_eq!(format!("{:?}", txn), format!("{:?}", expected));
}

#[test]
fn delete_at_any_revision() {
    let store = EtcdStore::New(true);
    let (txn, call) = store.Delete("pods/a", 0).unwrap();
    let expected = Txn::new().and_then(vec![TxnOp::delete("/registry/pods/a", None)]);
    assert_eq!(format!("{:?}", txn), format!("{:?}", expected));
    let reply = TxnReply { succeeded: true, responses: vec![OpReply::Delete] };
    assert!(call.Finish(&reply).is_ok());
}

#[test]
fn update_at_a_revision() {
    let store = EtcdStore::New(true);
    let mut obj = object(b"new");
    let (txn, call) = store.Update("pods/a", 5, &obj).unwrap();
    let key = "/registry/pods/a";
    let expected = Txn::new()
        .when(vec![Compare::mod_revision(key, CompareOp::Equal, 5)])
        .and_then(vec![TxnOp::put(key, b"new".to_vec(), None)])
        .or_else(vec![TxnOp::get(key, None)]);
    assert_eq!(format!("{:?}", txn), format!("{:?}", expected));
    let reply = TxnReply {
        succeeded: false,
        responses: vec![OpReply::Get(found(20, vec![kv(key, b"x", 8)]))],
    };
    match call.Finish(&reply, &mut obj) {
        Err(Error::UpdateRevNotMatchErr { expectRev: 5, actualRev: 20 }) => (),
        other => panic!("unexpected {:?}", other),
    }
    assert_eq!(obj.revision, 0);
}

#[test]
fn update_at_any_revision() {
    let store = EtcdStore::New(true);
    let mut obj = object(b"new");
    let expected = Txn::new().and_then(vec![TxnOp::put("/registry/pods/a", b"new".to_vec(), None)]);
    let (txn, _) = store.Update("pods/a", -3, &obj).unwrap();
    assert_eq!(format!("{:?}", txn), format!("{:?}", expected));
    let (txn, call) = store.Update("pods/a", 0, &obj).unwrap();
    assert_eq!(format!("{:?}", txn), format!("{:?}", expected));
    let reply = TxnReply { succeeded: true, responses: vec![OpReply::Put { revision: Some(21) }] };
    assert!(call.Finish(&reply, &mut obj).is_ok());
    assert_eq!(obj.revision, 21);
}

#[test]
fn clear_deletes_by_prefix() {
    let store = EtcdStore::New(true);
    let (request, call) = store.Clear("pods").unwrap();
    assert_eq!(request.key, "/registry/pods");
    assert_eq!(
        format!("{:?}", request.options),
        format!("{:?}", DeleteOptions::new().with_prefix())
    );
    assert_eq!(call.Finish(&DeleteReply { revision: Some(40) }), 40);
    assert!(store.Clear("/").is_err());
}

#[test]
fn watch_asks_for_the_prepared_key() {
    let store = EtcdStore::New(true);
    let request = store.Watch("/pods", 17).unwrap();
    assert_eq!(request.key, "/registry/pods");
    assert_eq!(request.revision, 17);
    assert!(store.Watch(".", 17).is_err());
}

#[test]
fn compaction_is_physical() {
    let store = EtcdStore::New(true);
    let request = store.Compaction(33);
    assert_eq!(request.revision, 33);
    assert_eq!(
        format!("{:?}", request.options),
        format!("{:?}", CompactionOptions::new().with_physical())
    );
}

#[test]
fn errors_hold_what_they_were_made_of() {
    match Error::NewNewKeyExistsErr("k".to_string(), 2) {
        Error::NewKeyExistsErr { key, rev: 2 } => assert_eq!(key, "k"),
        other => panic!("unexpected {:?}", other),
    }
    assert!(matches!(
        Error::NewMinRevsionErr(1, 2),
        Error::MinRevsionErr { minRevision: 1, actualRevision: 2 }
    ));
    assert!(matches!(
        Error::NewDeleteRevNotMatchErr(3, 4),
        Error::DeleteRevNotMatchErr { expectRev: 3, actualRev: 4 }
    ));
    assert!(matches!(
        Error::NewUpdateRevNotMatchErr(5, 6),
        Error::UpdateRevNotMatchErr { expectRev: 5, actualRev: 6 }
    ));
}
