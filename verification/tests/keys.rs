use etcd_store::store::{EtcdStore, PATH_PREFIX};
use etcd_store::types::Error;

fn message(e: Error) -> String {
    match e {
        Error::CommonError(m) => m,
        other => panic!("unexpected {:?}", other),
    }
}

#[test]
fn new_store_is_under_the_path_prefix() {
    let store = EtcdStore::New(true);
    assert_eq!(PATH_PREFIX, "/registry");
    assert_eq!(store.pathPrefix, "/registry");
    assert!(store.pagingEnable);
    assert!(!EtcdStore::New(false).pagingEnable);
}

#[test]
fn copy_is_the_same_store() {
    let store = EtcdStore { pathPrefix: "/other".to_string(), pagingEnable: true };
    let copy = store.Copy();
    assert_eq!(copy.pathPrefix, "/other");
    assert!(copy.pagingEnable);
}

#[test]
fn prepared_keys_have_one_slash_after_the_path() {
    let store = EtcdStore::New(false);
    assert_eq!(store.PrepareKey("pods/a/b").unwrap(), "/registry/pods/a/b");
    assert_eq!(store.PrepareKey("/pods/a/b").unwrap(), "/registry/pods/a/b");
    assert_eq!(store.PrepareKey("//pods").unwrap(), "/registry//pods");
    assert_eq!(store.PrepareKey("").unwrap(), "/registry/");
    assert_eq!(store.PrepareKey("/.").unwrap(), "/registry/.");
    assert_eq!(store.PrepareKey("é").unwrap(), "/registry/é");
    assert_eq!(store.PrepareKey("/日本").unwrap(), "/registry/日本");
}

#[test]
fn invalid_keys_are_refused() {
    let store = EtcdStore::New(false);
    assert_eq!(message(store.PrepareKey(".").unwrap_err()), "invalid key: .");
    assert_eq!(message(store.PrepareKey("/").unwrap_err()), "invalid key: /");
}

#[test]
fn minimum_revision_is_checked() {
    assert!(EtcdStore::ValidateMinimumResourceVersion(0, 5).is_ok());
    assert!(EtcdStore::ValidateMinimumResourceVersion(0, -5).is_ok());
    assert!(EtcdStore::ValidateMinimumResourceVersion(5, 5).is_ok());
    assert!(EtcdStore::ValidateMinimumResourceVersion(4, 5).is_ok());
    assert!(EtcdStore::ValidateMinimumResourceVersion(-1, 0).is_ok());
    match EtcdStore::ValidateMinimumResourceVersion(6, 5) {
        Err(Error::MinRevsionErr { minRevision: 6, actualRevision: 5 }) => (),
        other => panic!("unexpected {:?}", other),
    }
}

#[test]
fn prefix_ends() {
    assert_eq!(EtcdStore::GetPrefix(b"foo1"), b"foo2".to_vec());
    assert_eq!(EtcdStore::GetPrefix(b"foo\xff"), b"fop".to_vec());
    assert_eq!(EtcdStore::GetPrefix(b"a\xff\xff"), b"b".to_vec());
    assert_eq!(EtcdStore::GetPrefix(b"\xff\xff"), vec![0u8]);
    assert_eq!(EtcdStore::GetPrefix(b""), vec![0u8]);
    assert_eq!(EtcdStore::GetPrefix(b"\xfe"), b"\xff".to_vec());
}

#[test]
fn prefix_range_holds_what_starts_with_the_prefix() {
    let prefixes: Vec<Vec<u8>> = vec![b"ab".to_vec(), b"a\xff".to_vec(), b"a".to_vec()];
    let keys: Vec<Vec<u8>> = vec![
        b"".to_vec(),
        b"a".to_vec(),
        b"a\x00".to_vec(),
        b"ab".to_vec(),
        b"abz".to_vec(),
        b"ac".to_vec(),
        b"a\xff".to_vec(),
        b"a\xff\xff\xff".to_vec(),
        b"b".to_vec(),
    ];
    for prefix in prefixes.iter() {
        let end = EtcdStore::GetPrefix(prefix);
        for key in keys.iter() {
            assert_eq!(key.starts_with(prefix), prefix <= key && *key < end);
        }
    }
}

#[test]
fn prefix_range_ends_as_text() {
    assert_eq!(EtcdStore::GetPrefixRangeEnd("/registry/pods/"), "/registry/pods0");
    assert_eq!(EtcdStore::GetPrefixRangeEnd("abc"), "abd");
    assert_eq!(EtcdStore::GetPrefixRangeEnd("é"), "ê");
    assert_eq!(EtcdStore::GetPrefixRangeEnd(""), "\0");
}

#[test]
fn different_keys_are_kept_apart() {
    let store = EtcdStore::New(false);
    let keys = vec!["a", "b", "a/", "a/b", "//a", "ab", ".a", ""];
    for (i, a) in keys.iter().enumerate() {
        for b in keys.iter().skip(i + 1) {
            assert_ne!(store.PrepareKey(a).unwrap(), store.PrepareKey(b).unwrap());
        }
    }
}

#[test]
fn keys_that_differ_in_one_leading_slash_are_the_same() {
    let store = EtcdStore::New(false);
    assert_eq!(store.PrepareKey("/x").unwrap(), store.PrepareKey("x").unwrap());
    assert_eq!(store.PrepareKey("//x").unwrap(), "/registry//x");
    assert_ne!(store.PrepareKey("//x").unwrap(), store.PrepareKey("/x").unwrap());
}

#[test]
fn range_end_of_a_text_is_mostly_a_text() {
    assert_eq!(EtcdStore::GetPrefixRangeEnd("a~"), "a\u{7f}");
    assert_eq!(EtcdStore::GetPrefixRangeEnd("\u{be}"), "\u{bf}");
    assert_eq!(EtcdStore::GetPrefixRangeEnd("\u{d7fe}"), "\u{d7ff}");
    assert_eq!(EtcdStore::GetPrefixRangeEnd("\u{10fffe}"), "\u{10ffff}");
    for text in vec!["", "a", "a\u{7f}", "\u{7e}", "\u{80}", "\u{bf}", "\u{7ff}", "\u{d7ff}", "\u{10ffff}"] {
        let last = text.as_bytes().last();
        let expected = last != Some(&0x7f) && last != Some(&0xbf);
        let end = EtcdStore::GetPrefix(text.as_bytes());
        assert_eq!(String::from_utf8(end).is_ok(), expected);
    }
}
