//! The store: the keys under which it keeps objects, and its requests for
//! single objects.

use vstd::prelude::*;

#[allow(unused_imports)]
use crate::options::{compaction_options_view, delete_options_view, whole_prefix, CompactionView};
use crate::txn::{
    compare_mod_revision, one, txn_and_then, txn_op_delete, txn_op_get, txn_op_put, txn_or_else,
    txn_when, RevisionOp,
};
#[allow(unused_imports)]
use crate::txn::{create_txn, delete_txn, txn_view, update_txn};
use crate::types::{DataObject, DeleteReply, Error, OpReply, RangeReply, TxnReply};
#[allow(unused_imports)]
use crate::types::{ErrorView, ObjectView, RangeReplyView, TxnReplyView};
use etcd_client::{CompactionOptions, DeleteOptions, Txn};
use vstd::pervasive::unreached;
#[allow(unused_imports)]
use vstd::utf8::encode_utf8;

verus! {

/// The path under which a store keeps its objects.
pub const PATH_PREFIX: &'static str = "/registry";

/// A store of objects on an etcd server.
///
/// The store says what to ask the server and what its answers mean; the caller
/// holds the connection.
#[derive(Debug)]
pub struct EtcdStore {
    pub pathPrefix: String,
    pub pagingEnable: bool,
}

/// The key under which the store keeps the object that a caller calls `key`:
/// the store's path and the caller's key, with one slash between them. The
/// names `.` and `/` stand for no object.
pub open spec fn prepared_key(pathPrefix: Seq<char>, key: Seq<char>) -> Result<
    Seq<char>,
    ErrorView,
> {
    if key == seq!['.'] || key == seq!['/'] {
        Err(ErrorView::CommonError("invalid key: "@ + key))
    } else if key.len() > 0 && key[0] == '/' {
        Ok(pathPrefix + key)
    } else {
        Ok(pathPrefix.push('/') + key)
    }
}

/// Whether a reply at revision `actual` is too old for a caller that asks for
/// `min` at least. A caller that asks for 0 takes any.
pub open spec fn too_old(min: i64, actual: i64) -> bool {
    min != 0 && min > actual
}

impl EtcdStore {
    /// A store under [`PATH_PREFIX`].
    pub fn New(pagingEnable: bool) -> (store: EtcdStore)
        ensures
            store.pathPrefix@ == PATH_PREFIX@,
            store.pagingEnable == pagingEnable,
    {
        EtcdStore { pathPrefix: PATH_PREFIX.to_string(), pagingEnable }
    }

    /// Another handle on the same store.
    pub fn Copy(&self) -> (store: EtcdStore)
        ensures
            store == *self,
    {
        EtcdStore { pathPrefix: self.pathPrefix.clone(), pagingEnable: self.pagingEnable }
    }

    /// The key under which the store keeps the object called `key`.
    pub fn PrepareKey(&self, key: &str) -> (r: Result<String, Error>)
        ensures
            match prepared_key(self.pathPrefix@, key@) {
                Ok(prepared) => r matches Ok(k) && k@ == prepared,
                Err(error) => r matches Err(e) && e@ == error,
            },
    {
        let n: usize = key.unicode_len();
        if n == 1 && (key.get_char(0) == '.' || key.get_char(0) == '/') {
            assert(key@ =~= seq![key@[0]]);
            let mut message: String = "invalid key: ".to_string();
            message.append(key);
            return Err(Error::CommonError(message));
        }
        assert(key@ != seq!['.'] && key@ != seq!['/']) by {
            assert(seq!['.'][0] == '.' && seq!['/'][0] == '/');
        }

        let mut prepared: String = self.pathPrefix.clone();
        proof {
            reveal_strlit("/");
            assert("/"@ =~= seq!['/']);
        }
        prepared.append("/");
        if n > 0 && key.get_char(0) == '/' {
            prepared.append(key.substring_char(1, n));
            assert(prepared@ =~= self.pathPrefix@ + key@);
        } else {
            prepared.append(key);
            assert(prepared@ =~= self.pathPrefix@.push('/') + key@);
        }
        Ok(prepared)
    }

    /// Refuses an answer that is older than the caller accepts.
    pub fn ValidateMinimumResourceVersion(minRevision: i64, actualRevision: i64) -> (r: Result<
        (),
        Error,
    >)
        ensures
            r is Ok <==> !too_old(minRevision, actualRevision),
            r is Ok <==> minRevision == 0 || minRevision <= actualRevision,
            r matches Err(e) ==> e@ == (ErrorView::MinRevsionErr { minRevision, actualRevision }),
    {
        if minRevision == 0 {
            return Ok(());
        }
        if minRevision > actualRevision {
            return Err(Error::NewMinRevsionErr(minRevision, actualRevision));
        }
        Ok(())
    }
}

/// What a key is prepared to, for every key: one slash stands between the store's
/// path and the key, and one that the key starts with counts as that. Only `.`
/// and `/` are refused, and the message names the key.
pub proof fn keys_are_prepared_under_the_path(pathPrefix: Seq<char>, rest: Seq<char>)
    ensures
        rest.len() > 0 ==> prepared_key(pathPrefix, seq!['/'] + rest) == Ok::<
            Seq<char>,
            ErrorView,
        >(pathPrefix + seq!['/'] + rest),
        (rest.len() == 0 || rest[0] != '/') && rest != seq!['.'] ==> prepared_key(pathPrefix, rest)
            == Ok::<Seq<char>, ErrorView>(pathPrefix + seq!['/'] + rest),
        prepared_key(pathPrefix, seq!['.']) == Err::<Seq<char>, ErrorView>(
            ErrorView::CommonError("invalid key: "@ + seq!['.']),
        ),
        prepared_key(pathPrefix, seq!['/']) == Err::<Seq<char>, ErrorView>(
            ErrorView::CommonError("invalid key: "@ + seq!['/']),
        ),
{
    let slashed = seq!['/'] + rest;
    assert(pathPrefix + slashed =~= pathPrefix + seq!['/'] + rest);
    assert(pathPrefix.push('/') + rest =~= pathPrefix + seq!['/'] + rest);
    assert(slashed[0] == '/');
    assert(seq!['.'][0] == '.' && seq!['/'][0] == '/');
    if rest.len() > 0 {
        assert(slashed.len() > 1);
    }
}

/// A slash before a key that starts with none makes no difference, unless the
/// key is empty or `.`.
pub proof fn leading_slash_is_optional(pathPrefix: Seq<char>, key: Seq<char>)
    requires
        key.len() > 0,
        key[0] != '/',
        key != seq!['.'],
    ensures
        prepared_key(pathPrefix, seq!['/'] + key) == prepared_key(pathPrefix, key),
{
    let slashed = seq!['/'] + key;
    assert(slashed.len() > 1 && slashed[0] == '/');
    assert(key != seq!['/']) by {
        assert(seq!['/'][0] == '/');
    }
    assert(pathPrefix + slashed =~= pathPrefix.push('/') + key);
}

/// Every prepared key lies under the store's path.
pub proof fn prepared_keys_lie_under_the_path(pathPrefix: Seq<char>, key: Seq<char>)
    ensures
        prepared_key(pathPrefix, key) matches Ok(prepared) ==> pathPrefix.push('/').is_prefix_of(
            prepared,
        ),
{
    if key.len() > 0 && key[0] == '/' {
        assert(pathPrefix.push('/') =~= (pathPrefix + key).take(pathPrefix.len() as int + 1));
    }
}

/// A key without the slash that it starts with, if it does.
pub open spec fn without_slash(key: Seq<char>) -> Seq<char> {
    if key.len() > 0 && key[0] == '/' {
        key.drop_first()
    } else {
        key
    }
}

/// Two keys stand for the same object exactly if they are the same without one
/// leading slash.
pub proof fn prepared_keys_are_distinct(pathPrefix: Seq<char>, a: Seq<char>, b: Seq<char>)
    requires
        prepared_key(pathPrefix, a) is Ok,
        prepared_key(pathPrefix, b) is Ok,
    ensures
        prepared_key(pathPrefix, a) == prepared_key(pathPrefix, b) <==> without_slash(a)
            == without_slash(b),
{
    let n = pathPrefix.len() as int;
    let x = prepared_key(pathPrefix, a)->Ok_0;
    let y = prepared_key(pathPrefix, b)->Ok_0;
    assert(x =~= pathPrefix.push('/') + without_slash(a));
    assert(y =~= pathPrefix.push('/') + without_slash(b));
    assert(x.skip(n + 1) =~= without_slash(a));
    assert(y.skip(n + 1) =~= without_slash(b));
}

/// A request for one object, and the oldest revision that the caller accepts.
#[derive(Debug)]
pub struct GetCall {
    pub key: String,
    pub minRevision: i64,
}

/// The creation of an object under `key`, sent and not yet answered.
#[derive(Debug)]
pub struct CreateCall {
    pub key: String,
}

/// The deletion of an object, sent and not yet answered.
#[derive(Debug)]
pub struct DeleteCall {
    pub expectedRev: i64,
}

/// The update of an object, sent and not yet answered.
#[derive(Debug)]
pub struct UpdateCall {
    pub expectedRev: i64,
}

/// A request to delete keys.
#[derive(Debug)]
pub struct ClearRequest {
    pub key: String,
    pub options: DeleteOptions,
}

/// The deletion of all objects under a prefix, sent and not yet answered.
#[derive(Debug)]
pub struct ClearCall {}

/// A request to be told of changes from a revision on.
#[derive(Debug)]
pub struct WatchRequest {
    pub key: String,
    pub revision: i64,
}

/// A request to forget what came before a revision.
#[derive(Debug)]
pub struct CompactRequest {
    pub revision: i64,
    pub options: CompactionOptions,
}

/// The object that an answer to a [`GetCall`] holds: none if there is no such
/// key, and an error if the answer is too old.
pub open spec fn get_outcome(minRevision: i64, reply: RangeReplyView) -> Result<
    Option<ObjectView>,
    ErrorView,
> {
    if too_old(minRevision, reply.revision->0) {
        Err(ErrorView::MinRevsionErr { minRevision, actualRevision: reply.revision->0 })
    } else if reply.kvs.len() == 0 {
        Ok(None)
    } else {
        Ok(Some(reply.kvs[0].object()))
    }
}

/// The answer begins with the store's revision after a key was set.
pub open spec fn answers_put(reply: TxnReplyView) -> bool {
    &&& reply.responses.len() > 0
    &&& reply.responses[0] is Put
    &&& reply.responses[0]->revision is Some
}

/// The answer begins with what a read found.
pub open spec fn answers_get(reply: TxnReplyView) -> bool {
    &&& reply.responses.len() > 0
    &&& reply.responses[0] is Get
}

/// The revision that a created object gets; an error if the key exists.
pub open spec fn create_outcome(key: Seq<char>, reply: TxnReplyView) -> Result<i64, ErrorView> {
    if reply.succeeded {
        Ok(reply.responses[0]->revision->0)
    } else {
        Err(ErrorView::NewKeyExistsErr { key, rev: 0 })
    }
}

/// Whether a delete succeeded; if not, the error tells the revision of the
/// key's last change.
pub open spec fn delete_outcome(expectedRev: i64, reply: TxnReplyView) -> Result<(), ErrorView> {
    if reply.succeeded {
        Ok(())
    } else {
        Err(
            ErrorView::DeleteRevNotMatchErr {
                expectRev: expectedRev,
                actualRev: reply.responses[0]->Get_0.kvs[0].modRevision,
            },
        )
    }
}

/// The revision that a clear tells: the store's, after it.
pub open spec fn clear_outcome(reply: DeleteReply) -> i64 {
    reply.revision->0
}

/// The revision that an updated object gets; if the update was refused, the
/// error tells the store's revision.
pub open spec fn update_outcome(expectedRev: i64, reply: TxnReplyView) -> Result<i64, ErrorView> {
    if reply.succeeded {
        Ok(reply.responses[0]->revision->0)
    } else {
        Err(
            ErrorView::UpdateRevNotMatchErr {
                expectRev: expectedRev,
                actualRev: reply.responses[0]->Get_0.revision->0,
            },
        )
    }
}

impl EtcdStore {
    /// Asks for the object called `key`. An answer older than `minRevision` is
    /// not accepted.
    pub fn Get(&self, key: &str, minRevision: i64) -> (r: Result<GetCall, Error>)
        ensures
            match prepared_key(self.pathPrefix@, key@) {
                Ok(prepared) => r matches Ok(call) && call.key@ == prepared && call.minRevision
                    == minRevision,
                Err(error) => r matches Err(e) && e@ == error,
            },
    {
        match self.PrepareKey(key) {
            Ok(preparedKey) => Ok(GetCall { key: preparedKey, minRevision }),
            Err(error) => Err(error),
        }
    }

    /// Creates the object called `key`.
    pub fn Create(&self, key: &str, obj: &DataObject) -> (r: Result<(Txn, CreateCall), Error>)
        ensures
            match prepared_key(self.pathPrefix@, key@) {
                Ok(prepared) => r matches Ok((txn, call)) && call.key@ == prepared && txn_view(txn)
                    == create_txn(encode_utf8(prepared), obj@.obj),
                Err(error) => r matches Err(e) && e@ == error,
            },
    {
        let preparedKey: String = match self.PrepareKey(key) {
            Ok(preparedKey) => preparedKey,
            Err(error) => {
                return Err(error);
            },
        };
        let keyVec: &str = preparedKey.as_str();
        let txn = txn_when(Txn::new(), one(compare_mod_revision(keyVec, RevisionOp::Equal, 0)));
        let txn = txn_and_then(txn, one(txn_op_put(keyVec, obj.obj.clone())));
        assert(txn_view(txn) =~= create_txn(encode_utf8(preparedKey@), obj@.obj));
        Ok((txn, CreateCall { key: preparedKey }))
    }

    /// Deletes all objects whose keys start with `prefix`.
    pub fn Clear(&self, prefix: &str) -> (r: Result<(ClearRequest, ClearCall), Error>)
        ensures
            match prepared_key(self.pathPrefix@, prefix@) {
                Ok(prepared) => r matches Ok((request, _)) && request.key@ == prepared
                    && delete_options_view(request.options) == whole_prefix(),
                Err(error) => r matches Err(e) && e@ == error,
            },
    {
        match self.PrepareKey(prefix) {
            Ok(preparedKey) => {
                let options = DeleteOptions::new().with_prefix();
                Ok((ClearRequest { key: preparedKey, options }, ClearCall {  }))
            },
            Err(error) => Err(error),
        }
    }

    /// Deletes the object called `key`: at any revision if `expectedRev` is 0,
    /// else only if that is the revision of its last change.
    pub fn Delete(&self, key: &str, expectedRev: i64) -> (r: Result<(Txn, DeleteCall), Error>)
        ensures
            match prepared_key(self.pathPrefix@, key@) {
                Ok(prepared) => r matches Ok((txn, call)) && call.expectedRev == expectedRev
                    && txn_view(txn) == delete_txn(encode_utf8(prepared), expectedRev),
                Err(error) => r matches Err(e) && e@ == error,
            },
    {
        let preparedKey: String = match self.PrepareKey(key) {
            Ok(preparedKey) => preparedKey,
            Err(error) => {
                return Err(error);
            },
        };
        let keyVec: &str = preparedKey.as_str();
        let txn = if expectedRev != 0 {
            let compare = compare_mod_revision(keyVec, RevisionOp::Equal, expectedRev);
            let txn = txn_when(Txn::new(), one(compare));
            let txn = txn_and_then(txn, one(txn_op_delete(keyVec)));
            txn_or_else(txn, one(txn_op_get(keyVec)))
        } else {
            txn_and_then(Txn::new(), one(txn_op_delete(keyVec)))
        };
        assert(txn_view(txn) =~= delete_txn(encode_utf8(preparedKey@), expectedRev));
        Ok((txn, DeleteCall { expectedRev }))
    }

    /// Updates the object called `key`: at any revision if `expectedRev` is not
    /// positive, else only if that is the revision of its last change.
    pub fn Update(&self, key: &str, expectedRev: i64, obj: &DataObject) -> (r: Result<
        (Txn, UpdateCall),
        Error,
    >)
        ensures
            match prepared_key(self.pathPrefix@, key@) {
                Ok(prepared) => r matches Ok((txn, call)) && call.expectedRev == expectedRev
                    && txn_view(txn) == update_txn(encode_utf8(prepared), expectedRev, obj@.obj),
                Err(error) => r matches Err(e) && e@ == error,
            },
    {
        let preparedKey: String = match self.PrepareKey(key) {
            Ok(preparedKey) => preparedKey,
            Err(error) => {
                return Err(error);
            },
        };
        let keyVec: &str = preparedKey.as_str();
        let txn = if expectedRev > 0 {
            let compare = compare_mod_revision(keyVec, RevisionOp::Equal, expectedRev);
            let txn = txn_when(Txn::new(), one(compare));
            let txn = txn_and_then(txn, one(txn_op_put(keyVec, obj.obj.clone())));
            txn_or_else(txn, one(txn_op_get(keyVec)))
        } else {
            txn_and_then(Txn::new(), one(txn_op_put(keyVec, obj.obj.clone())))
        };
        assert(txn_view(txn) =~= update_txn(encode_utf8(preparedKey@), expectedRev, obj@.obj));
        Ok((txn, UpdateCall { expectedRev }))
    }

    /// Asks for the changes to the objects called `key` from `rev` on.
    pub fn Watch(&self, key: &str, rev: i64) -> (r: Result<WatchRequest, Error>)
        ensures
            match prepared_key(self.pathPrefix@, key@) {
                Ok(prepared) => r matches Ok(request) && request.key@ == prepared
                    && request.revision == rev,
                Err(error) => r matches Err(e) && e@ == error,
            },
    {
        match self.PrepareKey(key) {
            Ok(preparedKey) => Ok(WatchRequest { key: preparedKey, revision: rev }),
            Err(error) => Err(error),
        }
    }

    /// Forgets what came before `revision`, and waits until it is gone from the
    /// server's disk.
    pub fn Compaction(&self, revision: i64) -> (request: CompactRequest)
        ensures
            request.revision == revision,
            compaction_options_view(request.options) == (CompactionView {
                revision: 0,
                physical: true,
            }),
    {
        let options = CompactionOptions::new().with_physical();
        CompactRequest { revision, options }
    }
}

impl GetCall {
    /// Reads the answer: the object, at the revision of its last change, if
    /// there is one.
    pub fn Finish(self, reply: &RangeReply) -> (r: Result<Option<DataObject>, Error>)
        requires
            reply.revision is Some,
        ensures
            match get_outcome(self.minRevision, reply@) {
                Ok(Some(object)) => r matches Ok(Some(o)) && o@ == object,
                Ok(None) => r matches Ok(None),
                Err(error) => r matches Err(e) && e@ == error,
            },
    {
        let actualRev: i64 = reply.revision.unwrap();
        match EtcdStore::ValidateMinimumResourceVersion(self.minRevision, actualRev) {
            Ok(_) => (),
            Err(error) => {
                return Err(error);
            },
        }
        if reply.kvs.len() == 0 {
            return Ok(None);
        }
        Ok(Some(reply.kvs[0].Object()))
    }
}

impl CreateCall {
    /// Reads the answer. A created object gets the revision at which it was
    /// written.
    pub fn Finish(self, reply: &TxnReply, obj: &mut DataObject) -> (r: Result<(), Error>)
        requires
            reply.succeeded ==> answers_put(reply@),
        ensures
            match create_outcome(self.key@, reply@) {
                Ok(revision) => r is Ok && final(obj)@ == (ObjectView { revision, ..old(obj)@ }),
                Err(error) => r matches Err(e) && e@ == error && *final(obj) == *old(obj),
            },
    {
        if !reply.succeeded {
            return Err(Error::NewNewKeyExistsErr(self.key, 0));
        }
        assert(reply@.responses[0] == reply.responses@[0]@);
        match &reply.responses[0] {
            OpReply::Put { revision } => {
                obj.SetRevision(revision.unwrap());
                Ok(())
            },
            _ => unreached(),
        }
    }
}

impl ClearCall {
    /// Reads the answer: the store's revision after the deletion.
    pub fn Finish(self, reply: &DeleteReply) -> (revision: i64)
        requires
            reply.revision is Some,
        ensures
            revision == clear_outcome(*reply),
    {
        reply.revision.unwrap()
    }
}

impl DeleteCall {
    /// Reads the answer. A refused delete tells the revision of the key's last
    /// change.
    pub fn Finish(self, reply: &TxnReply) -> (r: Result<(), Error>)
        requires
            !reply.succeeded ==> answers_get(reply@) && reply@.responses[0]->Get_0.kvs.len() > 0,
        ensures
            match delete_outcome(self.expectedRev, reply@) {
                Ok(_) => r is Ok,
                Err(error) => r matches Err(e) && e@ == error,
            },
    {
        if !reply.succeeded {
            assert(reply@.responses[0] == reply.responses@[0]@);
            return match &reply.responses[0] {
                OpReply::Get(found) => {
                    let actualRev: i64 = found.kvs[0].modRevision;
                    Err(Error::NewDeleteRevNotMatchErr(self.expectedRev, actualRev))
                },
                _ => unreached(),
            };
        }
        Ok(())
    }
}

impl UpdateCall {
    /// Reads the answer. An updated object gets the revision at which it was
    /// written; a refused update tells the store's revision.
    pub fn Finish(self, reply: &TxnReply, obj: &mut DataObject) -> (r: Result<(), Error>)
        requires
            reply.succeeded ==> answers_put(reply@),
            !reply.succeeded ==> answers_get(reply@) && reply@.responses[0]->Get_0.revision is Some,
        ensures
            match update_outcome(self.expectedRev, reply@) {
                Ok(revision) => r is Ok && final(obj)@ == (ObjectView { revision, ..old(obj)@ }),
                Err(error) => r matches Err(e) && e@ == error && *final(obj) == *old(obj),
            },
    {
        assert(reply@.responses[0] == reply.responses@[0]@);
        if !reply.succeeded {
            match &reply.responses[0] {
                OpReply::Get(found) => {
                    let actualRev: i64 = found.revision.unwrap();
                    Err(Error::NewUpdateRevNotMatchErr(self.expectedRev, actualRev))
                },
                _ => unreached(),
            }
        } else {
            match &reply.responses[0] {
                OpReply::Put { revision } => {
                    obj.SetRevision(revision.unwrap());
                    Ok(())
                },
                _ => unreached(),
            }
        }
    }
}

} // verus!
