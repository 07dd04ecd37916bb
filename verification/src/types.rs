//! The values that the store works on: objects and their revisions, what a
//! list asks for and gives back, the server's replies, and the store's errors.

use vstd::prelude::*;

verus! {

/// Why the store refuses a request.
#[derive(Debug)]
pub enum Error {
    /// Any failure that its message says all about.
    CommonError(String),
    /// The server's revision is older than the caller accepts.
    MinRevsionErr { minRevision: i64, actualRevision: i64 },
    /// The key to create exists already.
    NewKeyExistsErr { key: String, rev: i64 },
    /// The object to delete is not at the revision that the caller expects.
    DeleteRevNotMatchErr { expectRev: i64, actualRev: i64 },
    /// The object to update is not at the revision that the caller expects.
    UpdateRevNotMatchErr { expectRev: i64, actualRev: i64 },
}

/// An [`Error`] with its texts as character sequences.
pub enum ErrorView {
    CommonError(Seq<char>),
    MinRevsionErr { minRevision: i64, actualRevision: i64 },
    NewKeyExistsErr { key: Seq<char>, rev: i64 },
    DeleteRevNotMatchErr { expectRev: i64, actualRev: i64 },
    UpdateRevNotMatchErr { expectRev: i64, actualRev: i64 },
}

impl View for Error {
    type V = ErrorView;

    open spec fn view(&self) -> ErrorView {
        match self {
            Error::CommonError(message) => ErrorView::CommonError(message@),
            Error::MinRevsionErr { minRevision, actualRevision } => ErrorView::MinRevsionErr {
                minRevision: *minRevision,
                actualRevision: *actualRevision,
            },
            Error::NewKeyExistsErr { key, rev } => ErrorView::NewKeyExistsErr {
                key: key@,
                rev: *rev,
            },
            Error::DeleteRevNotMatchErr { expectRev, actualRev } => ErrorView::DeleteRevNotMatchErr {
                expectRev: *expectRev,
                actualRev: *actualRev,
            },
            Error::UpdateRevNotMatchErr { expectRev, actualRev } => ErrorView::UpdateRevNotMatchErr {
                expectRev: *expectRev,
                actualRev: *actualRev,
            },
        }
    }
}

impl Error {
    pub fn NewMinRevsionErr(minRevision: i64, actualRevision: i64) -> (e: Error)
        ensures
            e@ == (ErrorView::MinRevsionErr { minRevision, actualRevision }),
    {
        Error::MinRevsionErr { minRevision, actualRevision }
    }

    pub fn NewNewKeyExistsErr(key: String, rev: i64) -> (e: Error)
        ensures
            e@ == (ErrorView::NewKeyExistsErr { key: key@, rev }),
    {
        Error::NewKeyExistsErr { key, rev }
    }

    pub fn NewDeleteRevNotMatchErr(expectRev: i64, actualRev: i64) -> (e: Error)
        ensures
            e@ == (ErrorView::DeleteRevNotMatchErr { expectRev, actualRev }),
    {
        Error::DeleteRevNotMatchErr { expectRev, actualRev }
    }

    pub fn NewUpdateRevNotMatchErr(expectRev: i64, actualRev: i64) -> (e: Error)
        ensures
            e@ == (ErrorView::UpdateRevNotMatchErr { expectRev, actualRev }),
    {
        Error::UpdateRevNotMatchErr { expectRev, actualRev }
    }
}

/// A stored object: its encoded form, and the revision of the store at which
/// it was last written.
#[derive(Debug)]
pub struct DataObject {
    pub obj: Vec<u8>,
    pub revision: i64,
}

/// A [`DataObject`] as plain sequences.
pub struct ObjectView {
    pub obj: Seq<u8>,
    pub revision: i64,
}

impl View for DataObject {
    type V = ObjectView;

    open spec fn view(&self) -> ObjectView {
        ObjectView { obj: self.obj@, revision: self.revision }
    }
}

impl DataObject {
    /// Records the revision at which the object was written.
    pub fn SetRevision(&mut self, revision: i64)
        ensures
            final(self)@ == (ObjectView { revision, ..old(self)@ }),
    {
        self.revision = revision;
    }
}

/// A key with its value and the revision of its last change, as the server
/// holds it.
#[derive(Debug)]
pub struct KeyValue {
    pub key: Vec<u8>,
    pub value: Vec<u8>,
    pub modRevision: i64,
}

/// A [`KeyValue`] as plain sequences.
pub struct KeyValueView {
    pub key: Seq<u8>,
    pub value: Seq<u8>,
    pub modRevision: i64,
}

impl View for KeyValue {
    type V = KeyValueView;

    open spec fn view(&self) -> KeyValueView {
        KeyValueView { key: self.key@, value: self.value@, modRevision: self.modRevision }
    }
}

impl KeyValueView {
    /// The object that a stored key holds.
    pub open spec fn object(self) -> ObjectView {
        ObjectView { obj: self.value, revision: self.modRevision }
    }
}

impl KeyValue {
    /// The object that the key holds, at the revision of the key's last change.
    pub fn Object(&self) -> (o: DataObject)
        ensures
            o@ == self@.object(),
    {
        let mut inner = DataObject { obj: self.value.clone(), revision: 0 };
        inner.SetRevision(self.modRevision);
        inner
    }
}

/// What the server answers to a range request: the store's revision, where the
/// answer has a header; the keys, in ascending order; whether the range holds
/// more keys than the limit let through; and how many it holds in all.
#[derive(Debug)]
pub struct RangeReply {
    pub revision: Option<i64>,
    pub kvs: Vec<KeyValue>,
    pub more: bool,
    pub count: i64,
}

/// A [`RangeReply`] as plain sequences.
pub struct RangeReplyView {
    pub revision: Option<i64>,
    pub kvs: Seq<KeyValueView>,
    pub more: bool,
    pub count: i64,
}

impl View for RangeReply {
    type V = RangeReplyView;

    open spec fn view(&self) -> RangeReplyView {
        RangeReplyView {
            revision: self.revision,
            kvs: Seq::new(self.kvs@.len(), |i: int| self.kvs@[i]@),
            more: self.more,
            count: self.count,
        }
    }
}

/// What the server answers to one operation of a transaction. `revision` is the
/// store's revision, where the answer has a header.
#[derive(Debug)]
pub enum OpReply {
    Put { revision: Option<i64> },
    Get(RangeReply),
    Delete,
    Txn,
}

/// An [`OpReply`] as plain sequences.
pub enum OpReplyView {
    Put { revision: Option<i64> },
    Get(RangeReplyView),
    Delete,
    Txn,
}

impl View for OpReply {
    type V = OpReplyView;

    open spec fn view(&self) -> OpReplyView {
        match self {
            OpReply::Put { revision } => OpReplyView::Put { revision: *revision },
            OpReply::Get(reply) => OpReplyView::Get(reply@),
            OpReply::Delete => OpReplyView::Delete,
            OpReply::Txn => OpReplyView::Txn,
        }
    }
}

/// What the server answers to a transaction: whether its comparisons held, and
/// the answer to each operation that it then ran.
#[derive(Debug)]
pub struct TxnReply {
    pub succeeded: bool,
    pub responses: Vec<OpReply>,
}

/// A [`TxnReply`] as plain sequences.
pub struct TxnReplyView {
    pub succeeded: bool,
    pub responses: Seq<OpReplyView>,
}

impl View for TxnReply {
    type V = TxnReplyView;

    open spec fn view(&self) -> TxnReplyView {
        TxnReplyView {
            succeeded: self.succeeded,
            responses: Seq::new(self.responses@.len(), |i: int| self.responses@[i]@),
        }
    }
}

/// What the server answers to a delete request: the store's revision, where the
/// answer has a header.
#[derive(Debug, Clone, Copy)]
pub struct DeleteReply {
    pub revision: Option<i64>,
}

/// How the revision that a list asks for bounds the revision that it reads.
#[derive(Debug, Clone, Copy, PartialEq, Eq, Structural)]
pub enum RevisionMatch {
    Any,
    Exact,
    NotOlderThan,
}

/// What a list selects: at most `limit` objects (0 for no limit), those that
/// its selectors match (`empty` if it has none), and whether it carries the
/// token with which an earlier list left off.
#[derive(Debug, Clone, Copy)]
pub struct SelectionPredicate {
    pub limit: usize,
    pub hasContinue: bool,
    pub empty: bool,
}

impl SelectionPredicate {
    pub fn HasContinue(&self) -> (r: bool)
        ensures
            r == self.hasContinue,
    {
        self.hasContinue
    }

    pub fn Empty(&self) -> (r: bool)
        ensures
            r == self.empty,
    {
        self.empty
    }
}

/// What a list asks for.
#[derive(Debug, Clone, Copy)]
pub struct ListOption {
    pub revision: i64,
    pub revisionMatch: RevisionMatch,
    pub predicate: SelectionPredicate,
}

/// What a list gives back: the objects, the revision that they were read at,
/// the token with which the next list goes on, if there is more to list, and
/// how many objects remain, or -1 if that is not known.
#[derive(Debug)]
pub struct DataObjList<T> {
    pub objs: Vec<DataObject>,
    pub revision: i64,
    pub continue_: Option<T>,
    pub remainCount: i64,
}

impl<T> DataObjList<T> {
    pub fn New(
        objs: Vec<DataObject>,
        revision: i64,
        continue_: Option<T>,
        remainCount: i64,
    ) -> (list: DataObjList<T>)
        ensures
            list.objs == objs,
            list.revision == revision,
            list.continue_ == continue_,
            list.remainCount == remainCount,
    {
        DataObjList { objs, revision, continue_, remainCount }
    }
}

/// The view of an error tells which it is and all that it holds.
pub proof fn error_view_is_faithful(error: Error)
    ensures
        error matches Error::CommonError(message) ==> error@ == ErrorView::CommonError(message@),
        error matches Error::MinRevsionErr { minRevision, actualRevision } ==> error@ == (
        ErrorView::MinRevsionErr { minRevision, actualRevision }),
        error matches Error::NewKeyExistsErr { key, rev } ==> error@ == (
        ErrorView::NewKeyExistsErr { key: key@, rev }),
        error matches Error::DeleteRevNotMatchErr { expectRev, actualRev } ==> error@ == (
        ErrorView::DeleteRevNotMatchErr { expectRev, actualRev }),
        error matches Error::UpdateRevNotMatchErr { expectRev, actualRev } ==> error@ == (
        ErrorView::UpdateRevNotMatchErr { expectRev, actualRev }),
{
}

/// The view of an object, and of objects in a row, tells all that they hold.
pub proof fn object_views_are_faithful(object: DataObject, objs: Seq<DataObject>)
    ensures
        object@ == (ObjectView { obj: object.obj@, revision: object.revision }),
        object_views(objs).len() == objs.len(),
        forall|i: int|
            0 <= i < objs.len() ==> (#[trigger] object_views(objs)[i]) == (ObjectView {
                obj: objs[i].obj@,
                revision: objs[i].revision,
            }),
{
}

/// The view of a key tells all that it holds, and the key's object is its value
/// at the revision of its last change.
pub proof fn key_value_view_is_faithful(kv: KeyValue)
    ensures
        kv@ == (KeyValueView {
            key: kv.key@,
            value: kv.value@,
            modRevision: kv.modRevision,
        }),
        kv@.object() == (ObjectView { obj: kv.value@, revision: kv.modRevision }),
{
}

/// The view of an answer to a range request tells all that it holds.
pub proof fn range_reply_view_is_faithful(reply: RangeReply)
    ensures
        reply@.revision == reply.revision,
        reply@.more == reply.more,
        reply@.count == reply.count,
        reply@.kvs.len() == reply.kvs@.len(),
        forall|i: int|
            0 <= i < reply.kvs@.len() ==> (#[trigger] reply@.kvs[i]) == (KeyValueView {
                key: reply.kvs@[i].key@,
                value: reply.kvs@[i].value@,
                modRevision: reply.kvs@[i].modRevision,
            }),
{
}

/// The view of an answer to a transaction tells all that it holds.
pub proof fn txn_reply_view_is_faithful(reply: TxnReply)
    ensures
        reply@.succeeded == reply.succeeded,
        reply@.responses.len() == reply.responses@.len(),
        forall|i: int|
            0 <= i < reply.responses@.len() ==> match reply.responses@[i] {
                OpReply::Put { revision } => (#[trigger] reply@.responses[i]) == (
                OpReplyView::Put { revision }),
                OpReply::Get(found) => reply@.responses[i] == OpReplyView::Get(found@),
                OpReply::Delete => reply@.responses[i] is Delete,
                OpReply::Txn => reply@.responses[i] is Txn,
            },
{
}

/// A sequence of objects as plain sequences.
pub open spec fn object_views(objs: Seq<DataObject>) -> Seq<ObjectView> {
    Seq::new(objs.len(), |i: int| objs[i]@)
}

} // verus!
