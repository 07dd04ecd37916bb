#![allow(non_snake_case)]

use std::collections::BTreeMap;

use etcd_store::list::{ListCall, ListFault, ListPhase, Verdict, MAX_LIMIT};
use etcd_store::store::EtcdStore;
use etcd_store::types::{
    DataObjList, DataObject, Error, KeyValue, ListOption, RangeReply, RevisionMatch,
    SelectionPredicate,
};

/// A token: the key and the revision that the next list goes on from.
type Token = (String, i64);

/// A server in memory.
struct Server {
    revision: i64,
    rows: BTreeMap<Vec<u8>, (Vec<u8>, i64)>,
    limits: Vec<Option<i64>>,
    kept: BTreeMap<i64, BTreeMap<Vec<u8>, (Vec<u8>, i64)>>,
}

impl Server {
    fn new() -> Server {
        Server { revision: 1, rows: BTreeMap::new(), limits: vec![], kept: BTreeMap::new() }
    }

    fn put(&mut self, key: &str, value: &str) {
        self.revision += 1;
        self.rows.insert(key.as_bytes().to_vec(), (value.as_bytes().to_vec(), self.revision));
    }

    /// Remembers the rows of this revision.
    fn keep(&mut self) {
        self.kept.insert(self.revision, self.rows.clone());
    }

    fn range(&mut self, call: &ListCall) -> RangeReply {
        let start = call.Key().clone();
        let option = call.Option();
        self.limits.push(option.limit);
        let mut kvs: Vec<KeyValue> = vec![];
        let mut count = 0;
        let limit = option.limit.unwrap_or(0);
        let rows = match option.revision {
            Some(revision) => self.kept.get(&revision).unwrap_or(&self.rows),
            None => &self.rows,
        };
        for (key, (value, modRevision)) in rows.iter() {
            let inside = if option.prefix {
                key.starts_with(&start)
            } else {
                match &option.endKey {
                    None => *key == start,
                    Some(end) => start <= *key && key < end,
                }
            };
            if inside {
                count += 1;
                if limit <= 0 || count <= limit {
                    kvs.push(KeyValue {
                        key: key.clone(),
                        value: value.clone(),
                        modRevision: *modRevision,
                    });
                }
            }
        }
        let more = count > kvs.len() as i64;
        RangeReply { revision: Some(self.revision), kvs, more, count }
    }
}

fn everything(_: &[u8]) -> Verdict {
    Verdict::Match
}

fn run(
    store: &EtcdStore,
    server: &mut Server,
    prefix: &str,
    opts: &ListOption,
    token: Option<Token>,
    judge: fn(&[u8]) -> Verdict,
) -> Result<DataObjList<Token>, ListFault> {
    let mut call = match store.List(prefix, opts) {
        Ok(call) => call,
        Err(e) => return Err(ListFault::Refused(e)),
    };
    loop {
        match call.Phase() {
            ListPhase::Resume => {
                let (key, revision) = token.clone().unwrap();
                call = call.Resume(key, revision);
            }
            ListPhase::Fetch => {
                let reply = server.range(&call);
                let verdicts: Vec<Verdict> = reply.kvs.iter().map(|kv| judge(&kv.value)).collect();
                call = call.Page(&reply, &verdicts)?;
            }
            ListPhase::Encode => {
                let next = (call.NextKey(), call.Revision());
                return Ok(call.Finish(Some(next)));
            }
            ListPhase::Done => return Ok(call.Finish(None)),
        }
    }
}

fn options(limit: usize, hasContinue: bool, empty: bool) -> ListOption {
    ListOption {
        revision: 0,
        revisionMatch: RevisionMatch::Any,
        predicate: SelectionPredicate { limit, hasContinue, empty },
    }
}

fn names(objs: &[DataObject]) -> Vec<String> {
    objs.iter().map(|o| String::from_utf8(o.obj.clone()).unwrap()).collect()
}

/// Keys with a structure of several levels.
fn SeedMultiLevelData(server: &mut Server) {
    server.put("/registry/pods/first/bar", "first-bar");
    server.put("/registry/pods/second/bar", "second-bar");
    server.put("/registry/pods/second/foo", "second-foo");
    server.put("/registry/pods/third/barfoo", "third-barfoo");
    server.put("/registry/pods/third/foo", "third-foo");
    server.put("/registry/podsother", "other");
}

#[test]
fn RunTestListWithoutPaging() {
    let store = EtcdStore::New(true);
    let mut server = Server::new();
    SeedMultiLevelData(&mut server);
    let opts = ListOption {
        revision: 0,
        revisionMatch: RevisionMatch::Exact,
        predicate: SelectionPredicate { limit: 2, hasContinue: false, empty: true },
    };
    let list = run(&store, &mut server, "/pods/second", &opts, None, everything).unwrap();
    assert!(list.continue_.is_none());
    assert_eq!(names(&list.objs), vec!["second-bar", "second-foo"]);
    assert_eq!(list.objs[0].revision, 3);
    assert_eq!(list.objs[1].revision, 4);
    assert_eq!(list.revision, server.revision);
    assert_eq!(list.remainCount, -1);
}

#[test]
fn RunTestListContinuation() {
    let store = EtcdStore::New(true);
    let mut server = Server::new();
    server.put("/registry/pods/first/bar", "first-bar");
    server.put("/registry/pods/second/bar", "second-bar");
    server.put("/registry/pods/second/foo", "second-foo");

    let list = run(&store, &mut server, "/pods", &options(1, false, true), None, everything).unwrap();
    assert_eq!(names(&list.objs), vec!["first-bar"]);
    assert_eq!(list.remainCount, 2);
    let fromSecondItem = list.continue_.unwrap();
    assert_eq!(fromSecondItem, ("/registry/pods/first/bar\0".to_string(), 4));

    let list = run(
        &store,
        &mut server,
        "/pods",
        &options(0, true, true),
        Some(fromSecondItem.clone()),
        everything,
    )
    .unwrap();
    assert!(list.continue_.is_none());
    assert_eq!(names(&list.objs), vec!["second-bar", "second-foo"]);
    assert_eq!(list.revision, 4);

    let list = run(
        &store,
        &mut server,
        "/pods",
        &options(1, true, true),
        Some(fromSecondItem),
        everything,
    )
    .unwrap();
    assert_eq!(names(&list.objs), vec!["second-bar"]);
    let fromThirdItem = list.continue_.unwrap();

    let list = run(
        &store,
        &mut server,
        "/pods",
        &options(1, true, true),
        Some(fromThirdItem),
        everything,
    )
    .unwrap();
    assert!(list.continue_.is_none());
    assert_eq!(names(&list.objs), vec!["second-foo"]);
}

fn only_pod_999(value: &[u8]) -> Verdict {
    if value == b"pod-999" {
        Verdict::Match
    } else {
        Verdict::NoMatch
    }
}

#[test]
fn RunTestListPaginationRareObject() {
    let store = EtcdStore::New(true);
    let mut server = Server::new();
    for i in 0..1000 {
        server.put(&format!("/registry/pods/first/pod-{}", i), &format!("pod-{}", i));
    }
    let opts = options(1, false, false);
    let list = run(&store, &mut server, "/pods", &opts, None, only_pod_999).unwrap();
    assert!(list.continue_.is_none());
    assert_eq!(names(&list.objs), vec!["pod-999"]);
    let expected: Vec<Option<i64>> =
        vec![1, 2, 4, 8, 16, 32, 64, 128, 256, 512].into_iter().map(Some).collect();
    assert_eq!(server.limits, expected);
}

#[test]
fn list_without_paging_asks_by_prefix() {
    let store = EtcdStore::New(false);
    let mut server = Server::new();
    SeedMultiLevelData(&mut server);
    let call = store.List("pods", &options(2, true, true)).unwrap();
    assert_eq!(call.Phase(), ListPhase::Fetch);
    assert_eq!(call.KeyPrefix(), "/registry/pods/");
    assert_eq!(call.Key(), &b"/registry/pods/".to_vec());
    assert_eq!(call.Revision(), 0);
    assert!(call.LastKey().is_empty());
    assert_eq!(call.Option().limit, None);
    assert_eq!(call.Option().endKey, None);
    assert!(call.Option().prefix);
    let list = run(&store, &mut server, "pods", &options(2, true, true), None, everything).unwrap();
    assert_eq!(list.objs.len(), 5);
    assert!(list.continue_.is_none());
}

#[test]
fn list_in_pages_asks_by_range() {
    let store = EtcdStore::New(true);
    let call = store.List("/pods/", &options(3, false, true)).unwrap();
    assert_eq!(call.Key(), &b"/registry/pods/".to_vec());
    assert_eq!(call.Option().limit, Some(3));
    assert_eq!(call.Option().endKey, Some(b"/registry/pods0".to_vec()));
    assert_eq!(call.Option().revision, None);
    assert!(!call.Option().prefix);
}

#[test]
fn list_reads_at_the_exact_revision() {
    let mut opts = options(3, false, true);
    opts.revision = 7;
    let cases = vec![
        (RevisionMatch::Exact, Some(7), 7),
        (RevisionMatch::NotOlderThan, None, 0),
        (RevisionMatch::Any, None, 0),
    ];
    for (revisionMatch, revision, returned) in cases {
        opts.revisionMatch = revisionMatch;
        for paging in vec![true, false] {
            let call = EtcdStore::New(paging).List("pods", &opts).unwrap();
            assert_eq!(call.Option().revision, revision);
            assert_eq!(call.Revision(), returned);
        }
    }
}

#[test]
fn list_goes_on_from_its_token() {
    let store = EtcdStore::New(true);
    let mut opts = options(3, true, true);
    opts.revision = 7;
    opts.revisionMatch = RevisionMatch::Exact;
    let call = store.List("pods", &opts).unwrap();
    assert_eq!(call.Phase(), ListPhase::Resume);
    assert_eq!(call.KeyPrefix(), "/registry/pods/");
    let call = call.Resume("/registry/pods/m".to_string(), 5);
    assert_eq!(call.Phase(), ListPhase::Fetch);
    assert_eq!(call.Key(), &b"/registry/pods/m".to_vec());
    assert_eq!(call.Option().revision, Some(5));
    assert_eq!(call.Option().endKey, Some(b"/registry/pods0".to_vec()));
    assert_eq!(call.Revision(), 5);

    for newest in vec![0, -1] {
        let call = store.List("pods", &opts).unwrap().Resume("/registry/pods/m".to_string(), newest);
        assert_eq!(call.Option().revision, None);
        assert_eq!(call.Revision(), 0);
    }
}

#[test]
fn list_refuses_an_invalid_prefix() {
    let store = EtcdStore::New(true);
    match store.List("/", &options(0, false, true)) {
        Err(Error::CommonError(m)) => assert_eq!(m, "invalid key: /"),
        other => panic!("unexpected {:?}", other),
    }
}

#[test]
fn list_refuses_an_old_answer() {
    let store = EtcdStore::New(true);
    let mut server = Server::new();
    let mut opts = options(0, false, true);
    opts.revision = 2;
    match run(&store, &mut server, "pods", &opts, None, everything) {
        Err(ListFault::Refused(Error::MinRevsionErr { minRevision: 2, actualRevision: 1 })) => (),
        other => panic!("unexpected {:?}", other),
    }
}

#[test]
fn list_refuses_an_empty_page_with_more() {
    let store = EtcdStore::New(true);
    let call = store.List("pods", &options(1, false, true)).unwrap();
    let reply = RangeReply { revision: Some(1), kvs: vec![], more: true, count: 4 };
    match call.Page(&reply, &vec![]) {
        Err(ListFault::Refused(Error::CommonError(m))) => assert_eq!(
            m,
            "no results were found, but etcd indicated there were more values remaining"
        ),
        other => panic!("unexpected {:?}", other),
    }
}

fn broken_bar(value: &[u8]) -> Verdict {
    if value == b"second-bar" {
        Verdict::Fail
    } else {
        Verdict::Match
    }
}

#[test]
fn list_fails_at_an_object_that_cannot_be_judged() {
    let store = EtcdStore::New(true);
    let mut server = Server::new();
    SeedMultiLevelData(&mut server);
    let opts = options(0, false, true);
    match run(&store, &mut server, "pods", &opts, None, broken_bar) {
        Err(ListFault::Object(1)) => (),
        other => panic!("unexpected {:?}", other),
    }
}

#[test]
fn full_list_does_not_judge_further() {
    let store = EtcdStore::New(true);
    let call = store.List("pods", &options(1, false, true)).unwrap();
    let kvs: Vec<KeyValue> = vec!["a", "b"]
        .into_iter()
        .map(|k| KeyValue { key: k.as_bytes().to_vec(), value: vec![], modRevision: 3 })
        .collect();
    let reply = RangeReply { revision: Some(9), kvs, more: false, count: 2 };
    let call = call.Page(&reply, &vec![Verdict::Match, Verdict::Fail]).unwrap();
    assert_eq!(call.Phase(), ListPhase::Encode);
    assert_eq!(call.LastKey(), &b"a".to_vec());
    assert_eq!(call.NextKey(), "a\0");
    let list = call.Finish(Some(()));
    assert_eq!(list.objs.len(), 1);
    assert_eq!(list.revision, 9);
    assert_eq!(list.remainCount, 1);
}

#[test]
fn remaining_count_is_unknown_with_selectors() {
    let store = EtcdStore::New(true);
    let mut server = Server::new();
    SeedMultiLevelData(&mut server);
    let list = run(&store, &mut server, "pods", &options(2, false, false), None, everything).unwrap();
    assert!(list.continue_.is_some());
    assert_eq!(list.remainCount, -1);
    let list = run(&store, &mut server, "pods", &options(2, false, true), None, everything).unwrap();
    assert_eq!(list.remainCount, 3);
}

fn nothing(_: &[u8]) -> Verdict {
    Verdict::NoMatch
}

#[test]
fn page_size_grows_to_the_maximum() {
    let store = EtcdStore::New(true);
    let mut call = store.List("pods", &options(3000, false, false)).unwrap();
    let mut limits: Vec<Option<i64>> = vec![];
    for _ in 0..5 {
        limits.push(call.Option().limit);
        let kvs = vec![KeyValue { key: b"k".to_vec(), value: vec![], modRevision: 1 }];
        let reply = RangeReply { revision: Some(1), kvs, more: true, count: 50000 };
        call = call.Page(&reply, &vec![nothing(b"")]).unwrap();
    }
    let expected: Vec<Option<i64>> =
        vec![3000, 6000, 10000, 10000, 10000].into_iter().map(Some).collect();
    assert_eq!(limits, expected);
    assert_eq!(MAX_LIMIT, 10000);
}

#[test]
fn large_page_size_stays() {
    let store = EtcdStore::New(true);
    let call = store.List("pods", &options(20000, false, false)).unwrap();
    let kvs = vec![KeyValue { key: b"k".to_vec(), value: vec![], modRevision: 1 }];
    let reply = RangeReply { revision: Some(1), kvs, more: true, count: 50000 };
    let call = call.Page(&reply, &vec![Verdict::NoMatch]).unwrap();
    assert_eq!(call.Phase(), ListPhase::Fetch);
    assert_eq!(call.Option().limit, Some(20000));
}

fn foos(value: &[u8]) -> Verdict {
    if value.ends_with(b"-foo") {
        Verdict::Match
    } else {
        Verdict::NoMatch
    }
}

#[test]
fn selectors_pick_matching_objects_in_order() {
    let store = EtcdStore::New(true);
    let mut server = Server::new();
    SeedMultiLevelData(&mut server);
    let list = run(&store, &mut server, "pods", &options(5, false, false), None, foos).unwrap();
    assert_eq!(names(&list.objs), vec!["second-foo", "third-foo"]);
    assert!(list.continue_.is_none());
}

#[test]
fn list_with_selectors_goes_on_after_each_page() {
    // The first page of two holds one match, so a page of four is asked for
    // from the key that follows.
    let store = EtcdStore::New(true);
    let mut server = Server::new();
    server.put("/registry/pods/a", "a-foo");
    server.put("/registry/pods/b", "b-bar");
    server.put("/registry/pods/c", "c-foo");
    let list = run(&store, &mut server, "pods", &options(2, false, false), None, foos).unwrap();
    assert_eq!(server.limits, vec![Some(2), Some(4)]);
    assert_eq!(names(&list.objs), vec!["a-foo", "c-foo"]);
    assert!(list.continue_.is_none());

    server.put("/registry/pods/d", "d-foo");
    let list = run(&store, &mut server, "pods", &options(2, false, false), None, foos).unwrap();
    assert_eq!(names(&list.objs), vec!["a-foo", "c-foo"]);
    assert_eq!(list.continue_, Some(("/registry/pods/c\0".to_string(), 5)));
}

#[test]
fn next_request_starts_after_the_last_key() {
    let store = EtcdStore::New(true);
    let call = store.List("pods", &options(2, false, false)).unwrap();
    let kvs: Vec<KeyValue> = vec![b"a\xff".to_vec(), b"b\xff".to_vec()]
        .into_iter()
        .map(|key| KeyValue { key, value: vec![], modRevision: 3 })
        .collect();
    let reply = RangeReply { revision: Some(9), kvs, more: true, count: 5 };
    let call = call.Page(&reply, &vec![Verdict::Match, Verdict::NoMatch]).unwrap();
    assert_eq!(call.Phase(), ListPhase::Fetch);
    assert_eq!(call.Key(), &b"b\xff\0".to_vec());
    assert_eq!(call.Option().limit, Some(4));
    assert_eq!(call.Option().endKey, Some(b"/registry/pods0".to_vec()));
}

#[test]
fn lists_in_pages_hold_every_object_once() {
    let store = EtcdStore::New(true);
    let mut server = Server::new();
    for i in 0..25 {
        server.put(&format!("/registry/pods/p{}", i), &format!("p{}", i));
    }
    let all = run(&store, &mut server, "pods", &options(0, false, true), None, everything).unwrap();
    assert_eq!(all.objs.len(), 25);
    let mut paged: Vec<String> = vec![];
    let mut token: Option<Token> = None;
    loop {
        let opts = options(4, token.is_some(), true);
        let list = run(&store, &mut server, "pods", &opts, token.clone(), everything).unwrap();
        assert!(list.objs.len() <= 4);
        paged.extend(names(&list.objs));
        token = list.continue_;
        if token.is_none() {
            break;
        }
    }
    assert_eq!(paged, names(&all.objs));
}

#[test]
fn lists_with_selectors_hold_every_match_once() {
    let store = EtcdStore::New(true);
    let mut server = Server::new();
    for i in 0..30 {
        let kind = if i % 7 == 3 { "foo" } else { "bar" };
        server.put(&format!("/registry/pods/p{:02}", i), &format!("p{:02}-{}", i, kind));
    }
    for limit in 1..6 {
        let mut seen: Vec<String> = vec![];
        let mut token: Option<Token> = None;
        loop {
            let opts = options(limit, token.is_some(), false);
            let list = run(&store, &mut server, "pods", &opts, token.clone(), foos).unwrap();
            seen.extend(names(&list.objs));
            token = list.continue_;
            if token.is_none() {
                break;
            }
        }
        assert_eq!(seen, vec!["p03-foo", "p10-foo", "p17-foo", "p24-foo"]);
    }
}

#[test]
fn continuation_skips_no_key() {
    let store = EtcdStore::New(true);
    let mut server = Server::new();
    server.put("/registry/pods/a", "a");
    server.put("/registry/pods/a\0", "a-nul");
    server.put("/registry/pods/a\x000", "a-nul-zero");
    let first = run(&store, &mut server, "pods", &options(1, false, true), None, everything).unwrap();
    assert_eq!(names(&first.objs), vec!["a"]);
    let second =
        run(&store, &mut server, "pods", &options(0, true, true), first.continue_, everything).unwrap();
    assert_eq!(names(&second.objs), vec!["a-nul", "a-nul-zero"]);
}

#[test]
fn list_makes_few_requests() {
    let store = EtcdStore::New(true);
    let mut server = Server::new();
    for i in 0..10000 {
        server.put(&format!("/registry/pods/p{}", i), "p");
    }
    let list = run(&store, &mut server, "pods", &options(1, false, false), None, nothing).unwrap();
    assert!(list.objs.is_empty());
    assert!(list.continue_.is_none());
    assert_eq!(server.limits.len(), 14);
    assert_eq!(server.limits[13], Some(8192));
}

#[test]
fn list_over_more_keys_than_the_largest_page_ends() {
    let store = EtcdStore::New(true);
    let mut server = Server::new();
    for i in 0..20000 {
        server.put(&format!("/registry/pods/p{:05}", i), "p");
    }
    server.put("/registry/pods/q", "q-foo");
    let list = run(&store, &mut server, "pods", &options(1, false, false), None, foos).unwrap();
    assert_eq!(names(&list.objs), vec!["q-foo"]);
    assert!(list.continue_.is_none());
    assert_eq!(server.limits.len(), 15);
    assert_eq!(server.limits[14], Some(10000));
}

#[test]
fn continued_list_reads_at_the_revision_of_the_first() {
    let store = EtcdStore::New(true);
    let mut server = Server::new();
    SeedMultiLevelData(&mut server);
    let first = run(&store, &mut server, "pods", &options(2, false, true), None, everything).unwrap();
    let (key, revision) = first.continue_.unwrap();
    assert_eq!(revision, first.revision);
    let call = store.List("pods", &options(2, true, true)).unwrap().Resume(key, revision);
    assert_eq!(call.Option().revision, Some(first.revision));
    assert_eq!(call.Revision(), first.revision);
}

#[test]
fn lists_amid_writes_hold_one_revision() {
    let store = EtcdStore::New(true);
    let mut server = Server::new();
    for i in 0..9 {
        server.put(&format!("/registry/pods/p{}", i), &format!("p{}-foo", i));
    }
    server.keep();
    let revision = server.revision;
    let mut seen: Vec<String> = vec![];
    let mut token: Option<Token> = None;
    loop {
        let opts = options(2, token.is_some(), false);
        let list = run(&store, &mut server, "pods", &opts, token.clone(), foos).unwrap();
        assert_eq!(list.revision, revision);
        seen.extend(names(&list.objs));
        // What is written now belongs to later revisions.
        server.put("/registry/pods/p4", "new-foo");
        server.put(&format!("/registry/pods/p8{}", seen.len()), "more-foo");
        token = list.continue_;
        if token.is_none() {
            break;
        }
    }
    let mut exact = options(0, false, false);
    exact.revision = revision;
    exact.revisionMatch = RevisionMatch::Exact;
    let whole = run(&store, &mut server, "pods", &exact, None, foos).unwrap();
    assert_eq!(whole.revision, revision);
    assert_eq!(seen.len(), 9);
    assert_eq!(seen, names(&whole.objs));
}

#[test]
fn token_is_left_only_where_rows_remain() {
    let store = EtcdStore::New(true);
    let mut server = Server::new();
    server.put("/registry/pods/a", "a-bar");
    server.put("/registry/pods/b", "b-foo");
    let list = run(&store, &mut server, "pods", &options(1, false, false), None, foos).unwrap();
    assert_eq!(names(&list.objs), vec!["b-foo"]);
    assert!(list.continue_.is_none());

    server.put("/registry/pods/c", "c-bar");
    let list = run(&store, &mut server, "pods", &options(1, false, false), None, foos).unwrap();
    assert_eq!(names(&list.objs), vec!["b-foo"]);
    assert_eq!(list.continue_, Some(("/registry/pods/b\0".to_string(), 4)));
}
