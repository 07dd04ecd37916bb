#![allow(non_snake_case)]

use std::collections::BTreeMap;

use etcd_client::{Compare, CompareOp, DeleteOptions, Txn, TxnOp};
use etcd_store::list::{ListPhase, Verdict};
use etcd_store::store::EtcdStore;
use etcd_store::types::{
    DataObject, DeleteReply, Error, KeyValue, ListOption, OpReply, RangeReply, RevisionMatch,
    SelectionPredicate, TxnReply,
};

enum Op {
    Put(&'static str, &'static [u8]),
    Get(&'static str),
    Delete(&'static str),
}

/// A transaction on one key, as the server runs it.
struct Plan {
    expected: Option<(&'static str, i64)>,
    success: Op,
    failure: Option<Op>,
}

fn client_op(op: &Op) -> TxnOp {
    match op {
        Op::Put(key, value) => TxnOp::put(*key, value.to_vec(), None),
        Op::Get(key) => TxnOp::get(*key, None),
        Op::Delete(key) => TxnOp::delete(*key, None),
    }
}

fn client_txn(plan: &Plan) -> Txn {
    let mut txn = Txn::new();
    if let Some((key, revision)) = plan.expected {
        txn = txn.when(vec![Compare::mod_revision(key, CompareOp::Equal, revision)]);
    }
    txn = txn.and_then(vec![client_op(&plan.success)]);
    if let Some(op) = &plan.failure {
        txn = txn.or_else(vec![client_op(op)]);
    }
    txn
}

/// A server in memory.
struct Server {
    revision: i64,
    rows: BTreeMap<Vec<u8>, (Vec<u8>, i64)>,
}

impl Server {
    fn new() -> Server {
        Server { revision: 1, rows: BTreeMap::new() }
    }

    fn read(&self, key: &str) -> RangeReply {
        let mut kvs: Vec<KeyValue> = vec![];
        if let Some((value, modRevision)) = self.rows.get(key.as_bytes()) {
            kvs.push(KeyValue {
                key: key.as_bytes().to_vec(),
                value: value.clone(),
                modRevision: *modRevision,
            });
        }
        let count = kvs.len() as i64;
        RangeReply { revision: Some(self.revision), kvs, more: false, count }
    }

    fn step(&mut self, op: &Op) -> OpReply {
        match op {
            Op::Put(key, value) => {
                self.revision += 1;
                self.rows.insert(key.as_bytes().to_vec(), (value.to_vec(), self.revision));
                OpReply::Put { revision: Some(self.revision) }
            }
            Op::Get(key) => OpReply::Get(self.read(key)),
            Op::Delete(key) => {
                if self.rows.remove(key.as_bytes()).is_some() {
                    self.revision += 1;
                }
                OpReply::Delete
            }
        }
    }

    /// Deletes all keys that start with `prefix`.
    fn delete_prefix(&mut self, prefix: &str) -> DeleteReply {
        let before = self.rows.len();
        self.rows.retain(|key, _| !key.starts_with(prefix.as_bytes()));
        if self.rows.len() < before {
            self.revision += 1;
        }
        DeleteReply { revision: Some(self.revision) }
    }

    /// Runs a transaction that must be the planned one.
    fn txn(&mut self, txn: Txn, plan: Plan) -> TxnReply {
        assert_eq!(format!("{:?}", txn), format!("{:?}", client_txn(&plan)));
        let succeeded = match plan.expected {
            None => true,
            Some((key, revision)) => {
                let actual = self.rows.get(key.as_bytes()).map_or(0, |row| row.1);
                actual == revision
            }
        };
        let responses = if succeeded {
            vec![self.step(&plan.success)]
        } else {
            match &plan.failure {
                Some(op) => vec![self.step(op)],
                None => vec![],
            }
        };
        TxnReply { succeeded, responses }
    }
}

const A: &str = "/registry/pods/a";
const B: &str = "/registry/pods/b";

fn create(
    server: &mut Server,
    name: &str,
    key: &'static str,
    value: &'static [u8],
) -> Result<i64, Error> {
    let store = EtcdStore::New(true);
    let mut obj = DataObject { obj: value.to_vec(), revision: 0 };
    let (txn, call) = store.Create(name, &obj)?;
    let plan = Plan { expected: Some((key, 0)), success: Op::Put(key, value), failure: None };
    let reply = server.txn(txn, plan);
    call.Finish(&reply, &mut obj)?;
    Ok(obj.revision)
}

fn update(
    server: &mut Server,
    name: &str,
    key: &'static str,
    expectedRev: i64,
    value: &'static [u8],
) -> Result<i64, Error> {
    let store = EtcdStore::New(true);
    let mut obj = DataObject { obj: value.to_vec(), revision: 0 };
    let (txn, call) = store.Update(name, expectedRev, &obj)?;
    let plan = if expectedRev > 0 {
        Plan {
            expected: Some((key, expectedRev)),
            success: Op::Put(key, value),
            failure: Some(Op::Get(key)),
        }
    } else {
        Plan { expected: None, success: Op::Put(key, value), failure: None }
    };
    let reply = server.txn(txn, plan);
    call.Finish(&reply, &mut obj)?;
    Ok(obj.revision)
}

fn delete(
    server: &mut Server,
    name: &str,
    key: &'static str,
    expectedRev: i64,
) -> Result<(), Error> {
    let store = EtcdStore::New(true);
    let (txn, call) = store.Delete(name, expectedRev)?;
    let plan = if expectedRev != 0 {
        Plan {
            expected: Some((key, expectedRev)),
            success: Op::Delete(key),
            failure: Some(Op::Get(key)),
        }
    } else {
        Plan { expected: None, success: Op::Delete(key), failure: None }
    };
    let reply = server.txn(txn, plan);
    call.Finish(&reply)
}

fn get(server: &Server, name: &str) -> Option<(Vec<u8>, i64)> {
    let call = EtcdStore::New(true).Get(name, 0).unwrap();
    let reply = server.read(&call.key);
    call.Finish(&reply).unwrap().map(|o| (o.obj, o.revision))
}

#[test]
fn get_gives_back_what_create_wrote() {
    let mut server = Server::new();
    let revision = create(&mut server, "/pods/a", A, b"one").unwrap();
    assert_eq!(revision, 2);
    assert_eq!(get(&server, "pods/a"), Some((b"one".to_vec(), 2)));
    assert_eq!(get(&server, "pods/b"), None);
}

#[test]
fn second_create_changes_nothing() {
    let mut server = Server::new();
    create(&mut server, "pods/a", A, b"one").unwrap();
    match create(&mut server, "/pods/a", A, b"two") {
        Err(Error::NewKeyExistsErr { key, rev: 0 }) => assert_eq!(key, A),
        other => panic!("unexpected {:?}", other),
    }
    assert_eq!(server.revision, 2);
    assert_eq!(get(&server, "pods/a"), Some((b"one".to_vec(), 2)));
}

#[test]
fn update_succeeds_at_the_revision_that_was_read() {
    let mut server = Server::new();
    create(&mut server, "pods/a", A, b"one").unwrap();
    create(&mut server, "pods/b", B, b"other").unwrap();
    let (_, read) = get(&server, "pods/a").unwrap();
    assert_eq!(update(&mut server, "pods/a", A, read, b"two").unwrap(), 4);
    assert_eq!(get(&server, "pods/a"), Some((b"two".to_vec(), 4)));
    assert_eq!(get(&server, "pods/b"), Some((b"other".to_vec(), 3)));

    // What was read is out of date now.
    match update(&mut server, "pods/a", A, read, b"three") {
        Err(Error::UpdateRevNotMatchErr { expectRev: 2, actualRev: 4 }) => (),
        other => panic!("unexpected {:?}", other),
    }
    assert_eq!(get(&server, "pods/a"), Some((b"two".to_vec(), 4)));
}

#[test]
fn update_without_a_revision_writes_any_key() {
    let mut server = Server::new();
    assert_eq!(update(&mut server, "pods/a", A, 0, b"one").unwrap(), 2);
    assert_eq!(update(&mut server, "pods/a", A, -1, b"two").unwrap(), 3);
    assert_eq!(get(&server, "pods/a"), Some((b"two".to_vec(), 3)));
}

#[test]
fn delete_succeeds_at_the_expected_revision_only() {
    let mut server = Server::new();
    create(&mut server, "pods/a", A, b"one").unwrap();
    create(&mut server, "pods/b", B, b"other").unwrap();
    match delete(&mut server, "pods/a", A, 3) {
        Err(Error::DeleteRevNotMatchErr { expectRev: 3, actualRev: 2 }) => (),
        other => panic!("unexpected {:?}", other),
    }
    assert!(get(&server, "pods/a").is_some());
    delete(&mut server, "pods/a", A, 2).unwrap();
    assert_eq!(get(&server, "pods/a"), None);
    assert_eq!(get(&server, "pods/b"), Some((b"other".to_vec(), 3)));
}

#[test]
fn delete_without_a_revision_takes_any_key() {
    let mut server = Server::new();
    create(&mut server, "pods/a", A, b"one").unwrap();
    delete(&mut server, "pods/a", A, 0).unwrap();
    assert_eq!(get(&server, "pods/a"), None);
    delete(&mut server, "pods/a", A, 0).unwrap();
    assert_eq!(server.revision, 3);
}

fn clear(server: &mut Server, prefix: &str) -> i64 {
    let (request, call) = EtcdStore::New(true).Clear(prefix).unwrap();
    assert_eq!(
        format!("{:?}", request.options),
        format!("{:?}", DeleteOptions::new().with_prefix())
    );
    let reply = server.delete_prefix(&request.key);
    call.Finish(&reply)
}

/// All objects under a prefix, in one page.
fn list(server: &Server, prefix: &str) -> Vec<(Vec<u8>, i64)> {
    let opts = ListOption {
        revision: 0,
        revisionMatch: RevisionMatch::Any,
        predicate: SelectionPredicate { limit: 0, hasContinue: false, empty: true },
    };
    let call = EtcdStore::New(true).List(prefix, &opts).unwrap();
    assert!(call.Option().prefix);
    let mut kvs: Vec<KeyValue> = vec![];
    for (key, (value, modRevision)) in server.rows.iter() {
        if key.starts_with(call.Key()) {
            kvs.push(KeyValue { key: key.clone(), value: value.clone(), modRevision: *modRevision });
        }
    }
    let count = kvs.len() as i64;
    let verdicts = vec![Verdict::Match; kvs.len()];
    let reply = RangeReply { revision: Some(server.revision), kvs, more: false, count };
    let call = call.Page(&reply, &verdicts).unwrap();
    assert_eq!(call.Phase(), ListPhase::Done);
    let list = call.Finish::<()>(None);
    list.objs.into_iter().map(|o| (o.obj, o.revision)).collect()
}

#[test]
fn clear_deletes_the_prefix_only() {
    let mut server = Server::new();
    create(&mut server, "pods/a", A, b"one").unwrap();
    create(&mut server, "pods/b", B, b"two").unwrap();
    create(&mut server, "nodes/n", "/registry/nodes/n", b"node").unwrap();
    assert_eq!(clear(&mut server, "pods"), 5);
    assert_eq!(get(&server, "pods/a"), None);
    assert_eq!(get(&server, "pods/b"), None);
    assert_eq!(get(&server, "nodes/n"), Some((b"node".to_vec(), 4)));
    assert!(list(&server, "pods").is_empty());
}

#[test]
fn second_clear_tells_the_same_revision() {
    let mut server = Server::new();
    create(&mut server, "pods/a", A, b"one").unwrap();
    assert_eq!(clear(&mut server, "pods"), 3);
    assert_eq!(clear(&mut server, "pods"), 3);
    assert_eq!(server.revision, 3);
}

#[test]
fn list_tells_what_was_written() {
    let mut server = Server::new();
    create(&mut server, "pods/b", B, b"two").unwrap();
    create(&mut server, "pods/a", A, b"one").unwrap();
    assert_eq!(list(&server, "pods"), vec![(b"one".to_vec(), 3), (b"two".to_vec(), 2)]);
    update(&mut server, "pods/b", B, 2, b"new").unwrap();
    assert_eq!(list(&server, "pods"), vec![(b"one".to_vec(), 3), (b"new".to_vec(), 4)]);
    delete(&mut server, "pods/a", A, 0).unwrap();
    assert_eq!(list(&server, "pods"), vec![(b"new".to_vec(), 4)]);
}

#[test]
fn one_of_several_updates_at_one_revision_succeeds() {
    let mut server = Server::new();
    let read = create(&mut server, "pods/a", A, b"one").unwrap();
    let mut succeeded = 0;
    for value in vec![b"x" as &'static [u8], b"y", b"z"] {
        create(&mut server, "pods/b", B, b"other").unwrap();
        if update(&mut server, "pods/a", A, read, value).is_ok() {
            succeeded += 1;
        }
        delete(&mut server, "pods/b", B, 0).unwrap();
    }
    assert_eq!(succeeded, 1);
    assert_eq!(get(&server, "pods/a").unwrap().0, b"x".to_vec());
    match delete(&mut server, "pods/a", A, read) {
        Err(Error::DeleteRevNotMatchErr { expectRev, actualRev: 4 }) => assert_eq!(expectRev, read),
        other => panic!("unexpected {:?}", other),
    }
}

#[test]
fn creates_after_a_clear_get_growing_revisions() {
    let mut server = Server::new();
    create(&mut server, "pods/a", A, b"old").unwrap();
    let cleared = clear(&mut server, "pods");
    let a = create(&mut server, "pods/a", A, b"one").unwrap();
    let b = create(&mut server, "pods/b", B, b"two").unwrap();
    assert_eq!(vec![cleared, a, b], vec![3, 4, 5]);
}

#[test]
fn delete_counts_only_what_was_there() {
    let mut server = Server::new();
    create(&mut server, "pods/a", A, b"one").unwrap();
    delete(&mut server, "pods/a", A, 2).unwrap();
    assert_eq!(server.revision, 3);
    delete(&mut server, "pods/a", A, 0).unwrap();
    assert_eq!(server.revision, 3);
}
