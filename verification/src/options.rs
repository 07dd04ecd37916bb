//! The options of a request: the store's own record of them, and the
//! `etcd_client` builders that carry them to the server.

use etcd_client::{CompactionOptions, DeleteOptions, GetOptions};
use vstd::prelude::*;
#[allow(unused_imports)]
use vstd::utf8::encode_utf8;

verus! {

/// The keys and the revision that a request of `etcd_client` ranges over.
///
/// `limit` and `revision` are the request's fields of that name. `end` is the
/// end key last given. `prefix` tells whether the range is all keys that start
/// with the request's key, and `wide` whether it is all keys from the request's
/// key on, or all keys; where either holds, `end` counts for nothing.
pub struct RangeView {
    pub limit: i64,
    pub revision: i64,
    pub end: Seq<u8>,
    pub prefix: bool,
    pub wide: bool,
}

/// The range of a request for one key.
pub open spec fn single_key() -> RangeView {
    RangeView { limit: 0, revision: 0, end: Seq::empty(), prefix: false, wide: false }
}

/// The range of a request for all keys that start with the request's key.
pub open spec fn whole_prefix() -> RangeView {
    RangeView { prefix: true, ..single_key() }
}

/// `etcd_client::GetOptions`: the options of a range request.
#[verifier::external_type_specification]
#[verifier::external_body]
pub struct ExGetOptions(etcd_client::GetOptions);

/// What a `GetOptions` holds: the limit, the revision and the range that it was
/// built with.
pub uninterp spec fn get_options_view(options: GetOptions) -> RangeView;

/// `GetOptions::new` asks for one key, with no limit, at the newest revision.
pub assume_specification[ etcd_client::GetOptions::new ]() -> (r: GetOptions)
    ensures
        get_options_view(r) == single_key(),
;

/// `GetOptions::with_limit` sets the limit and leaves the rest.
pub assume_specification[ etcd_client::GetOptions::with_limit ](
    options: GetOptions,
    limit: i64,
) -> (r: GetOptions)
    ensures
        get_options_view(r) == (RangeView { limit, ..get_options_view(options) }),
;

/// `GetOptions::with_revision` sets the revision and leaves the rest.
pub assume_specification[ etcd_client::GetOptions::with_revision ](
    options: GetOptions,
    revision: i64,
) -> (r: GetOptions)
    ensures
        get_options_view(r) == (RangeView { revision, ..get_options_view(options) }),
;

/// `GetOptions::with_prefix` makes the range all keys that start with the
/// request's key; an end key given before stays, without effect.
pub assume_specification[ etcd_client::GetOptions::with_prefix ](options: GetOptions) -> (r:
    GetOptions)
    ensures
        get_options_view(r) == (RangeView { prefix: true, wide: false, ..get_options_view(options) }),
;

/// `GetOptions::with_range` makes the range end before the given key.
#[verifier::external_body]
pub(crate) fn get_options_with_range(options: GetOptions, end: Vec<u8>) -> (r: GetOptions)
    ensures
        get_options_view(r) == (RangeView {
            end: end@,
            prefix: false,
            wide: false,
            ..get_options_view(options)
        }),
{
    options.with_range(end)
}

/// `etcd_client::DeleteOptions`: the options of a delete request.
#[verifier::external_type_specification]
#[verifier::external_body]
pub struct ExDeleteOptions(etcd_client::DeleteOptions);

/// What a `DeleteOptions` holds: the range that it was built with. A delete has
/// no limit and no revision.
pub uninterp spec fn delete_options_view(options: DeleteOptions) -> RangeView;

/// `DeleteOptions::new` deletes one key.
pub assume_specification[ etcd_client::DeleteOptions::new ]() -> (r: DeleteOptions)
    ensures
        delete_options_view(r) == single_key(),
;

/// `DeleteOptions::with_prefix` deletes all keys that start with the request's
/// key.
pub assume_specification[ etcd_client::DeleteOptions::with_prefix ](options: DeleteOptions) -> (r:
    DeleteOptions)
    ensures
        delete_options_view(r) == (RangeView {
            prefix: true,
            wide: false,
            ..delete_options_view(options)
        }),
;

/// `etcd_client::CompactionOptions`: the options of a compaction request.
#[verifier::external_type_specification]
#[verifier::external_body]
pub struct ExCompactionOptions(etcd_client::CompactionOptions);

/// The fields of a compaction request: the revision, which the client fills in
/// when it sends the request, and whether the server answers only once the
/// compacted entries are gone from its disk.
pub struct CompactionView {
    pub revision: i64,
    pub physical: bool,
}

/// What a `CompactionOptions` holds.
pub uninterp spec fn compaction_options_view(options: CompactionOptions) -> CompactionView;

/// `CompactionOptions::new` names no revision and does not wait for the disk.
pub assume_specification[ etcd_client::CompactionOptions::new ]() -> (r: CompactionOptions)
    ensures
        compaction_options_view(r) == (CompactionView { revision: 0, physical: false }),
;

/// `CompactionOptions::with_physical` waits for the disk and leaves the rest.
pub assume_specification[ etcd_client::CompactionOptions::with_physical ](
    options: CompactionOptions,
) -> (r: CompactionOptions)
    ensures
        compaction_options_view(r) == (CompactionView {
            physical: true,
            ..compaction_options_view(options)
        }),
;

/// `Vec::from`, on a text, gives the text's UTF-8 bytes.
pub assume_specification[ <Vec<u8> as From<String>>::from ](string: String) -> (r: Vec<u8>)
    ensures
        r@ == encode_utf8(string@),
;

/// The options of a range request; what is not given is left to the server.
#[derive(Debug)]
pub struct EtcdOption {
    pub limit: Option<i64>,
    pub endKey: Option<Vec<u8>>,
    pub revision: Option<i64>,
    pub prefix: bool,
}

/// An [`EtcdOption`] as plain sequences.
#[verifier::ext_equal]
pub struct OptionView {
    pub limit: Option<i64>,
    pub endKey: Option<Seq<u8>>,
    pub revision: Option<i64>,
    pub prefix: bool,
}

impl View for EtcdOption {
    type V = OptionView;

    open spec fn view(&self) -> OptionView {
        OptionView {
            limit: self.limit,
            endKey: match self.endKey {
                Some(k) => Some(k@),
                None => None,
            },
            revision: self.revision,
            prefix: self.prefix,
        }
    }
}

impl OptionView {
    /// The range that the options ask for: no limit, the newest revision and a
    /// single key where nothing else is given, and all keys with the request's
    /// key as a prefix where that is asked for, whatever the end key.
    pub open spec fn range(self) -> RangeView {
        RangeView {
            limit: match self.limit {
                Some(l) => l,
                None => 0,
            },
            revision: match self.revision {
                Some(r) => r,
                None => 0,
            },
            end: match self.endKey {
                Some(k) => k,
                None => Seq::empty(),
            },
            prefix: self.prefix,
            wide: false,
        }
    }
}

/// A request asks for what its options were given, each for itself: a limit, an
/// end, a revision, and all keys with the request's key as a prefix. What was
/// not given is what a request for one key has.
pub proof fn options_ask_for_what_was_given(option: EtcdOption)
    ensures
        option@.limit == option.limit,
        option@.revision == option.revision,
        option@.prefix == option.prefix,
        option.endKey matches Some(end) ==> option@.endKey == Some(end@),
        option.endKey is None ==> option@.endKey is None,
        option.limit matches Some(limit) ==> option@.range().limit == limit,
        option.limit is None ==> option@.range().limit == 0,
        option.revision matches Some(revision) ==> option@.range().revision == revision,
        option.revision is None ==> option@.range().revision == 0,
        option.endKey matches Some(end) ==> option@.range().end == end@,
        option.endKey is None ==> option@.range().end.len() == 0,
        option@.range().prefix == option.prefix,
        !option@.range().wide,
{
}

impl Default for EtcdOption {
    /// Options that leave everything to the server.
    fn default() -> (option: EtcdOption)
        ensures
            option@ == (OptionView { limit: None, endKey: None, revision: None, prefix: false }),
    {
        EtcdOption { limit: None, endKey: None, revision: None, prefix: false }
    }
}

impl EtcdOption {
    /// Asks for `limit` keys at most.
    pub fn WithLimit(&mut self, limit: i64)
        ensures
            final(self)@ == (OptionView { limit: Some(limit), ..old(self)@ }),
    {
        self.limit = Some(limit);
    }

    /// Asks for the keys before `endKey`, as the bytes that it converts into.
    pub fn WithRange<K: Into<Vec<u8>>>(&mut self, endKey: K)
        ensures
            exists|bytes: Vec<u8>| #[trigger]
                call_ensures(K::into, (endKey,), bytes) && final(self)@ == (OptionView {
                    endKey: Some(bytes@),
                    ..old(self)@
                }),
    {
        let bytes: Vec<u8> = endKey.into();
        self.endKey = Some(bytes);
    }

    /// Asks for the keys as they stood at `revision`.
    pub fn WithRevision(&mut self, revision: i64)
        ensures
            final(self)@ == (OptionView { revision: Some(revision), ..old(self)@ }),
    {
        self.revision = Some(revision);
    }

    /// Asks for all keys that start with the request's key.
    pub fn WithPrefix(&mut self)
        ensures
            final(self)@ == (OptionView { prefix: true, ..old(self)@ }),
    {
        self.prefix = true;
    }

    /// The request options that ask for the same.
    pub fn ToGetOption(&self) -> (r: GetOptions)
        ensures
            get_options_view(r) == self@.range(),
    {
        let mut getOption = GetOptions::new();
        match self.limit {
            None => (),
            Some(l) => {
                getOption = getOption.with_limit(l);
            },
        }

        match &self.endKey {
            None => (),
            Some(k) => {
                getOption = get_options_with_range(getOption, k.clone());
            },
        }

        match self.revision {
            None => (),
            Some(rv) => {
                getOption = getOption.with_revision(rv);
            },
        }

        if self.prefix {
            getOption = getOption.with_prefix();
        }
        getOption
    }
}

} // verus!
