//! What the store's requests come to on the server.
//!
//! A [`Server`] is the part of an etcd server that the store's requests touch:
//! keys with values, each with the revision of its last change, and the
//! revision of the whole. The laws below say what the store's operations do to
//! such a server, and what their callers are told.

use vstd::prelude::*;

#[allow(unused_imports)]
use crate::range::{
    is_last_prefix, key_le, key_lt, lemma_prefix_end_shape, prefix_end, prefix_range_is_exact,
};
#[allow(unused_imports)]
use crate::options::{whole_prefix, RangeView};
#[allow(unused_imports)]
use crate::store::{
    answers_get, answers_put, clear_outcome, create_outcome, delete_outcome, get_outcome, prepared_key, too_old,
    update_outcome,
};
#[allow(unused_imports)]
use crate::text::{encode_utf8_concat, lemma_encode_ascii};
#[allow(unused_imports)]
use crate::txn::{
    create_txn, delete_txn, update_txn, CompareView, OpView, RevisionOp, TxnView,
};
#[allow(unused_imports)]
use crate::types::{
    DeleteReply, ErrorView, KeyValueView, ObjectView, OpReplyView, RangeReplyView, TxnReplyView,
};
#[allow(unused_imports)]
use vstd::utf8::encode_utf8;

verus! {

/// A value and the revision at which it was written.
pub struct Row {
    pub value: Seq<u8>,
    pub modRevision: i64,
}

/// The keys of a server, and the revision of the last change to any of them.
#[verifier::ext_equal]
pub struct Server {
    pub revision: i64,
    pub rows: Map<Seq<u8>, Row>,
}

impl Server {
    /// Revisions are positive, and none is above the server's. The server can
    /// still count one change up.
    pub open spec fn wf(self) -> bool {
        &&& 0 <= self.revision < i64::MAX
        &&& forall|key: Seq<u8>| #[trigger]
            self.rows.contains_key(key) ==> 0 < self.rows[key].modRevision <= self.revision
    }

    /// The revision of a key's last change, or 0 if there is no such key.
    pub open spec fn mod_revision(self, key: Seq<u8>) -> i64 {
        if self.rows.contains_key(key) {
            self.rows[key].modRevision
        } else {
            0
        }
    }

    /// Whether a comparison holds.
    pub open spec fn holds(self, compare: CompareView) -> bool {
        let actual = self.mod_revision(compare.key);
        match compare.op {
            RevisionOp::Equal => actual == compare.revision,
            RevisionOp::Greater => actual > compare.revision,
            RevisionOp::Less => actual < compare.revision,
            RevisionOp::NotEqual => actual != compare.revision,
        }
    }

    /// Whether all comparisons of a transaction hold.
    pub open spec fn passes(self, txn: TxnView) -> bool {
        forall|i: int| 0 <= i < txn.compares.len() ==> self.holds(#[trigger] txn.compares[i])
    }

    /// The operations that the server runs.
    pub open spec fn chosen(self, txn: TxnView) -> Seq<OpView> {
        if self.passes(txn) {
            txn.success
        } else {
            txn.failure
        }
    }

    /// The revision of the next change.
    pub open spec fn next(self) -> i64 {
        (self.revision + 1) as i64
    }

    /// The server after one operation, whose change has revision `next`.
    pub open spec fn stepped(self, op: OpView, next: i64) -> Server {
        match op {
            OpView::Put { key, value } => Server {
                revision: next,
                rows: self.rows.insert(key, Row { value, modRevision: next }),
            },
            OpView::Get { key } => self,
            OpView::Delete { key } => if self.rows.contains_key(key) {
                Server { revision: next, rows: self.rows.remove(key) }
            } else {
                self
            },
        }
    }

    /// The server after the first `n` operations of a transaction, which run in
    /// order. The changes of one transaction have one revision.
    pub open spec fn ran(self, ops: Seq<OpView>, n: int) -> Server
        decreases n,
    {
        if n <= 0 {
            self
        } else {
            self.ran(ops, n - 1).stepped(ops[n - 1], self.next())
        }
    }

    /// The server after a transaction.
    pub open spec fn after(self, txn: TxnView) -> Server {
        self.ran(self.chosen(txn), self.chosen(txn).len() as int)
    }

    /// The keys of the server that a request at `key` ranges over.
    pub open spec fn covered(self, range: RangeView, key: Seq<u8>) -> Set<Seq<u8>> {
        Set::new(|k: Seq<u8>| self.rows.contains_key(k) && covers(range, key, k))
    }

    /// The server after the deletion of a range. If there is nothing to delete,
    /// nothing changes.
    pub open spec fn cleared(self, range: RangeView, key: Seq<u8>) -> Server {
        if self.covered(range, key) == Set::<Seq<u8>>::empty() {
            self
        } else {
            Server {
                revision: (self.revision + 1) as i64,
                rows: self.rows.remove_keys(self.covered(range, key)),
            }
        }
    }

    /// Whether `reply` is what the server answers to the deletion of a range.
    pub open spec fn answers_clear(
        self,
        range: RangeView,
        key: Seq<u8>,
        reply: DeleteReply,
    ) -> bool {
        reply.revision == Some(self.cleared(range, key).revision)
    }

    /// A key of the server as the server tells it.
    pub open spec fn row(self, key: Seq<u8>) -> KeyValueView {
        KeyValueView {
            key,
            value: self.rows[key].value,
            modRevision: self.rows[key].modRevision,
        }
    }

    /// What a read of one key finds.
    pub open spec fn found(self, key: Seq<u8>) -> Seq<KeyValueView> {
        if self.rows.contains_key(key) {
            seq![self.row(key)]
        } else {
            Seq::empty()
        }
    }

    /// Whether `reply` is what the server answers to a read of one key.
    pub open spec fn answers_read(self, key: Seq<u8>, reply: RangeReplyView) -> bool {
        &&& reply.revision == Some(self.revision)
        &&& reply.kvs == self.found(key)
    }

    /// Whether `reply` is what the server answers to one operation, whose change
    /// has revision `next`.
    pub open spec fn answers_op(self, op: OpView, reply: OpReplyView, next: i64) -> bool {
        match op {
            OpView::Put { key, value } => reply == (OpReplyView::Put { revision: Some(next) }),
            OpView::Get { key } => reply matches OpReplyView::Get(found) && self.answers_read(
                key,
                found,
            ),
            OpView::Delete { key } => reply is Delete,
        }
    }

    /// Whether `reply` is what the server answers to a transaction: an answer to
    /// each operation that it runs.
    pub open spec fn answers_txn(self, txn: TxnView, reply: TxnReplyView) -> bool {
        let ops = self.chosen(txn);
        &&& reply.succeeded == self.passes(txn)
        &&& reply.responses.len() == ops.len()
        &&& forall|i: int|
            0 <= i < ops.len() ==> self.ran(ops, i).answers_op(
                ops[i],
                #[trigger] reply.responses[i],
                self.next(),
            )
    }
}

/// Whether the only comparison of a transaction decides it.
pub(crate) proof fn lemma_passes_one(server: Server, txn: TxnView)
    requires
        txn.compares.len() == 1,
    ensures
        server.passes(txn) <==> server.holds(txn.compares[0]),
{
}

/// Whichever way their comparisons turn out, the store's transactions run one
/// operation at most.
pub proof fn transactions_run_one_operation(key: Seq<u8>, expectedRev: i64, value: Seq<u8>)
    ensures
        create_txn(key, value).success.len() <= 1,
        create_txn(key, value).failure.len() <= 1,
        update_txn(key, expectedRev, value).success.len() <= 1,
        update_txn(key, expectedRev, value).failure.len() <= 1,
        delete_txn(key, expectedRev).success.len() <= 1,
        delete_txn(key, expectedRev).failure.len() <= 1,
{
}

/// What a transaction that runs one operation at most comes to.
pub(crate) proof fn lemma_one_operation(server: Server, txn: TxnView)
    requires
        server.chosen(txn).len() <= 1,
    ensures
        server.chosen(txn).len() == 0 ==> server.after(txn) == server,
        server.chosen(txn).len() == 1 ==> server.after(txn) == server.stepped(
            server.chosen(txn)[0],
            server.next(),
        ),
        server.ran(server.chosen(txn), 0) == server,
{
    reveal_with_fuel(Server::ran, 2);
}

/// A create succeeds exactly if the key does not exist. It then stores the
/// value and tells the revision at which it did; if the key exists, nothing
/// changes and the caller is told so.
pub proof fn create_is_exclusive(
    server: Server,
    name: Seq<char>,
    value: Seq<u8>,
    reply: TxnReplyView,
)
    requires
        server.wf(),
        server.answers_txn(create_txn(encode_utf8(name), value), reply),
    ensures
        reply.succeeded ==> answers_put(reply),
        ({
            let key = encode_utf8(name);
            let after = server.after(create_txn(key, value));
            if server.rows.contains_key(key) {
                &&& after == server
                &&& create_outcome(name, reply) == Err::<i64, ErrorView>(
                    ErrorView::NewKeyExistsErr { key: name, rev: 0 },
                )
            } else {
                &&& after.revision == server.revision + 1
                &&& after.rows == server.rows.insert(
                    key,
                    Row { value, modRevision: after.revision },
                )
                &&& create_outcome(name, reply) == Ok::<i64, ErrorView>(after.revision)
            }
        }),
{
    let key = encode_utf8(name);
    lemma_passes_one(server, create_txn(key, value));
    lemma_one_operation(server, create_txn(key, value));
}

/// An update that expects a revision succeeds exactly if that is the revision
/// of the key's last change. It then stores the value and tells the revision at
/// which it did; else nothing changes and the caller is told the server's
/// revision. An update that expects none always succeeds.
pub proof fn update_is_guarded(
    server: Server,
    key: Seq<u8>,
    expectedRev: i64,
    value: Seq<u8>,
    reply: TxnReplyView,
)
    requires
        server.wf(),
        server.answers_txn(update_txn(key, expectedRev, value), reply),
    ensures
        reply.succeeded ==> answers_put(reply),
        !reply.succeeded ==> answers_get(reply) && reply.responses[0]->Get_0.revision is Some,
        ({
            let after = server.after(update_txn(key, expectedRev, value));
            if expectedRev > 0 && server.mod_revision(key) != expectedRev {
                &&& after == server
                &&& update_outcome(expectedRev, reply) == Err::<i64, ErrorView>(
                    ErrorView::UpdateRevNotMatchErr {
                        expectRev: expectedRev,
                        actualRev: server.revision,
                    },
                )
            } else {
                &&& after.revision == server.revision + 1
                &&& after.rows == server.rows.insert(
                    key,
                    Row { value, modRevision: after.revision },
                )
                &&& update_outcome(expectedRev, reply) == Ok::<i64, ErrorView>(after.revision)
            }
        }),
{
    lemma_one_operation(server, update_txn(key, expectedRev, value));
    if expectedRev > 0 {
        lemma_passes_one(server, update_txn(key, expectedRev, value));
    }
}

/// A delete that expects a revision succeeds exactly if that is the revision of
/// the key's last change; else nothing changes and the caller is told that
/// revision. A delete that expects none always succeeds. A delete that succeeds
/// leaves no such key; the server's revision grows by one if there was one, and
/// else stays. Left out is the delete, at an expected revision, of a
/// key that does not exist: its answer holds no revision to tell.
pub proof fn delete_is_guarded(
    server: Server,
    key: Seq<u8>,
    expectedRev: i64,
    reply: TxnReplyView,
)
    requires
        server.wf(),
        server.answers_txn(delete_txn(key, expectedRev), reply),
        expectedRev == 0 || server.rows.contains_key(key),
    ensures
        !reply.succeeded ==> answers_get(reply) && reply.responses[0]->Get_0.kvs.len() > 0,
        ({
            let after = server.after(delete_txn(key, expectedRev));
            if expectedRev != 0 && server.mod_revision(key) != expectedRev {
                &&& after == server
                &&& delete_outcome(expectedRev, reply) == Err::<(), ErrorView>(
                    ErrorView::DeleteRevNotMatchErr {
                        expectRev: expectedRev,
                        actualRev: server.mod_revision(key),
                    },
                )
            } else {
                &&& after.rows == server.rows.remove(key)
                &&& after.revision == (if server.rows.contains_key(key) {
                    server.revision + 1
                } else {
                    server.revision as int
                })
                &&& delete_outcome(expectedRev, reply) == Ok::<(), ErrorView>(())
            }
        }),
{
    lemma_one_operation(server, delete_txn(key, expectedRev));
    if expectedRev != 0 {
        lemma_passes_one(server, delete_txn(key, expectedRev));
    }
    if !server.rows.contains_key(key) {
        assert(server.rows.remove(key) =~= server.rows);
    }
}

/// A get tells what the server has, for every server, key and answer. An answer
/// of a revision below the one that the caller asks for is refused, whether or
/// not the key exists; a caller that asks for 0 takes any. Else the get gives
/// the key's value, at the revision of its last change, or finds nothing.
pub proof fn get_tells_what_the_server_has(
    server: Server,
    key: Seq<u8>,
    minRevision: i64,
    read: RangeReplyView,
)
    requires
        server.answers_read(key, read),
    ensures
        minRevision != 0 && server.revision < minRevision ==> get_outcome(minRevision, read)
            == Err::<Option<ObjectView>, ErrorView>(
            ErrorView::MinRevsionErr { minRevision, actualRevision: server.revision },
        ),
        minRevision == 0 || minRevision <= server.revision ==> get_outcome(minRevision, read)
            == Ok::<Option<ObjectView>, ErrorView>(
            if server.rows.contains_key(key) {
                Some(
                    ObjectView {
                        obj: server.rows[key].value,
                        revision: server.rows[key].modRevision,
                    },
                )
            } else {
                None
            },
        ),
{
}

/// A get is refused exactly if the answer's revision is below the one that the
/// caller asks for, whatever else the answer holds, and the error tells both. So
/// a caller that accepts an answer accepts every newer one.
pub proof fn get_refuses_old_answers(minRevision: i64, reply: RangeReplyView)
    requires
        reply.revision is Some,
    ensures
        get_outcome(minRevision, reply) is Err <==> minRevision != 0 && reply.revision->0
            < minRevision,
        get_outcome(minRevision, reply) is Err ==> get_outcome(minRevision, reply)->Err_0 == (
        ErrorView::MinRevsionErr { minRevision, actualRevision: reply.revision->0 }),
        get_outcome(minRevision, reply) is Ok ==> (get_outcome(minRevision, reply)->Ok_0 is None
            <==> reply.kvs.len() == 0),
        get_outcome(minRevision, reply) is Ok && reply.kvs.len() > 0 ==> get_outcome(
            minRevision,
            reply,
        )->Ok_0->0 == (ObjectView {
            obj: reply.kvs[0].value,
            revision: reply.kvs[0].modRevision,
        }),
{
}

/// A get gives back what a create wrote, at the revision that the creator was
/// told, to every caller that accepts an answer of that revision.
pub proof fn get_gives_back_what_was_created(
    server: Server,
    name: Seq<char>,
    value: Seq<u8>,
    reply: TxnReplyView,
    revision: i64,
    minRevision: i64,
    read: RangeReplyView,
)
    requires
        server.wf(),
        server.answers_txn(create_txn(encode_utf8(name), value), reply),
        create_outcome(name, reply) == Ok::<i64, ErrorView>(revision),
        server.after(create_txn(encode_utf8(name), value)).answers_read(encode_utf8(name), read),
        !too_old(minRevision, revision),
    ensures
        get_outcome(minRevision, read) == Ok::<Option<ObjectView>, ErrorView>(
            Some(ObjectView { obj: value, revision }),
        ),
{
    create_is_exclusive(server, name, value, reply);
}

/// A get gives back what an update wrote, at the revision that the updater was
/// told, to every caller that accepts an answer of that revision.
pub proof fn get_gives_back_what_was_updated(
    server: Server,
    key: Seq<u8>,
    expectedRev: i64,
    value: Seq<u8>,
    reply: TxnReplyView,
    revision: i64,
    minRevision: i64,
    read: RangeReplyView,
)
    requires
        server.wf(),
        server.answers_txn(update_txn(key, expectedRev, value), reply),
        update_outcome(expectedRev, reply) == Ok::<i64, ErrorView>(revision),
        server.after(update_txn(key, expectedRev, value)).answers_read(key, read),
        !too_old(minRevision, revision),
    ensures
        get_outcome(minRevision, read) == Ok::<Option<ObjectView>, ErrorView>(
            Some(ObjectView { obj: value, revision }),
        ),
{
    update_is_guarded(server, key, expectedRev, value, reply);
}

/// A get finds nothing after a successful delete of the key.
pub proof fn get_finds_nothing_after_delete(
    server: Server,
    key: Seq<u8>,
    expectedRev: i64,
    reply: TxnReplyView,
    minRevision: i64,
    read: RangeReplyView,
)
    requires
        server.wf(),
        server.answers_txn(delete_txn(key, expectedRev), reply),
        reply.succeeded,
        server.after(delete_txn(key, expectedRev)).answers_read(key, read),
        !too_old(minRevision, read.revision->0),
    ensures
        get_outcome(minRevision, read) == Ok::<Option<ObjectView>, ErrorView>(None),
{
    lemma_one_operation(server, delete_txn(key, expectedRev));
    if expectedRev != 0 {
        lemma_passes_one(server, delete_txn(key, expectedRev));
    }
}

/// An update that expects the revision at which its caller read the object
/// succeeds exactly if that is still the revision of the object's last change.
pub proof fn update_detects_every_change(
    before: Server,
    now: Server,
    key: Seq<u8>,
    minRevision: i64,
    read: RangeReplyView,
    value: Seq<u8>,
    reply: TxnReplyView,
)
    requires
        before.wf(),
        now.wf(),
        before.rows.contains_key(key),
        before.answers_read(key, read),
        !too_old(minRevision, before.revision),
        now.answers_txn(update_txn(key, before.rows[key].modRevision, value), reply),
    ensures
        get_outcome(minRevision, read) == Ok::<Option<ObjectView>, ErrorView>(
            Some(
                ObjectView {
                    obj: before.rows[key].value,
                    revision: before.rows[key].modRevision,
                },
            ),
        ),
        update_outcome(before.rows[key].modRevision, reply) is Ok <==> now.mod_revision(key)
            == before.rows[key].modRevision,
{
    update_is_guarded(now, key, before.rows[key].modRevision, value, reply);
}

/// No create, update or delete of one key touches another, and each keeps the
/// server's revisions in order.
pub proof fn other_keys_are_untouched(
    server: Server,
    key: Seq<u8>,
    expectedRev: i64,
    value: Seq<u8>,
    other: Seq<u8>,
    txn: TxnView,
)
    requires
        server.wf(),
        other != key,
        txn == create_txn(key, value) || txn == update_txn(key, expectedRev, value) || txn
            == delete_txn(key, expectedRev),
    ensures
        server.after(txn).rows.contains_key(other) == server.rows.contains_key(other),
        server.rows.contains_key(other) ==> server.after(txn).rows[other] == server.rows[other],
        server.revision <= server.after(txn).revision <= server.revision + 1,
        server.after(txn).revision < i64::MAX ==> server.after(txn).wf(),
{
    lemma_one_operation(server, txn);
}

/// The keys that a request at `key` ranges over. A single key is a range
/// without an end; an end of 0 stands for an open range.
pub open spec fn covers(range: RangeView, key: Seq<u8>, candidate: Seq<u8>) -> bool
    recommends
        !range.wide,
{
    let end = if range.prefix {
        prefix_end(key)
    } else {
        range.end
    };
    if range.prefix && key.len() == 0 {
        true
    } else if end.len() == 0 {
        candidate == key
    } else if end == seq![0u8] {
        key_le(key, candidate)
    } else {
        key_le(key, candidate) && key_lt(candidate, end)
    }
}

/// A prepared key has a slash in it, so some key follows all those that start
/// with it.
pub proof fn prepared_key_has_range_end(pathPrefix: Seq<char>, key: Seq<char>)
    ensures
        prepared_key(pathPrefix, key) matches Ok(prepared) ==> prepared.len() > 0
            && !is_last_prefix(encode_utf8(prepared)) && prefix_end(encode_utf8(prepared))
            != seq![0u8],
{
    if let Ok(prepared) = prepared_key(pathPrefix, key) {
        let rest = if key.len() > 0 && key[0] == '/' {
            key.drop_first()
        } else {
            key
        };
        let slash = seq!['/'];
        assert(prepared =~= pathPrefix + (slash + rest));
        encode_utf8_concat(pathPrefix, slash + rest);
        encode_utf8_concat(slash, rest);
        lemma_encode_ascii('/');
        let at = encode_utf8(pathPrefix).len() as int;
        assert(encode_utf8(prepared)[at] == 0x2f);
        assert(!is_last_prefix(encode_utf8(prepared)));
        lemma_prefix_end_shape(encode_utf8(prepared));
    }
}

/// A clear deletes the keys that start with its prepared key, and no others.
pub proof fn clear_covers_the_prefix(
    pathPrefix: Seq<char>,
    prefix: Seq<char>,
    candidate: Seq<u8>,
)
    ensures
        prepared_key(pathPrefix, prefix) matches Ok(prepared) ==> (covers(
            whole_prefix(),
            encode_utf8(prepared),
            candidate,
        ) <==> encode_utf8(prepared).is_prefix_of(candidate)),
{
    prepared_key_has_range_end(pathPrefix, prefix);
    if let Ok(prepared) = prepared_key(pathPrefix, prefix) {
        prefix_range_is_exact(encode_utf8(prepared), candidate);
        lemma_prefix_end_shape(encode_utf8(prepared));
    }
}

/// A clear leaves the keys that do not start with its prepared key as they are,
/// and no others. It tells the server's revision after it, which is one more
/// than before if there was anything to delete, and else the same.
pub proof fn clear_deletes_its_prefix(
    server: Server,
    pathPrefix: Seq<char>,
    prefix: Seq<char>,
    prepared: Seq<char>,
    reply: DeleteReply,
)
    requires
        server.wf(),
        prepared_key(pathPrefix, prefix) == Ok::<Seq<char>, ErrorView>(prepared),
        server.answers_clear(whole_prefix(), encode_utf8(prepared), reply),
    ensures
        reply.revision is Some,
        ({
            let start = encode_utf8(prepared);
            let after = server.cleared(whole_prefix(), start);
            &&& clear_outcome(reply) == after.revision
            &&& forall|key: Seq<u8>| #[trigger]
                after.rows.contains_key(key) <==> server.rows.contains_key(key)
                    && !start.is_prefix_of(key)
            &&& forall|key: Seq<u8>| #[trigger]
                after.rows.contains_key(key) ==> after.rows[key] == server.rows[key]
            &&& (forall|key: Seq<u8>| #[trigger]
                server.rows.contains_key(key) ==> !start.is_prefix_of(key)) ==> after == server
            &&& (exists|key: Seq<u8>| #[trigger]
                server.rows.contains_key(key) && start.is_prefix_of(key)) ==> after.revision
                == server.revision + 1
            &&& after.revision < i64::MAX ==> after.wf()
        }),
{
    let start = encode_utf8(prepared);
    let covered = server.covered(whole_prefix(), start);
    let after = server.cleared(whole_prefix(), start);
    assert forall|key: Seq<u8>| #[trigger]
        covered.contains(key) <==> server.rows.contains_key(key) && start.is_prefix_of(key) by {
        clear_covers_the_prefix(pathPrefix, prefix, key);
    }
    if covered == Set::<Seq<u8>>::empty() {
        assert forall|key: Seq<u8>| #[trigger]
            server.rows.contains_key(key) implies !start.is_prefix_of(key) by {
            assert(!covered.contains(key));
        }
    } else if forall|key: Seq<u8>| #[trigger]
        server.rows.contains_key(key) ==> !start.is_prefix_of(key) {
        assert(covered =~= Set::<Seq<u8>>::empty());
    }
}

/// A get of a key that starts with a clear's prepared key finds nothing after
/// the clear.
pub proof fn get_finds_nothing_after_clear(
    server: Server,
    pathPrefix: Seq<char>,
    prefix: Seq<char>,
    prepared: Seq<char>,
    key: Seq<u8>,
    minRevision: i64,
    read: RangeReplyView,
)
    requires
        server.wf(),
        prepared_key(pathPrefix, prefix) == Ok::<Seq<char>, ErrorView>(prepared),
        encode_utf8(prepared).is_prefix_of(key),
        server.cleared(whole_prefix(), encode_utf8(prepared)).answers_read(key, read),
        !too_old(minRevision, read.revision->0),
    ensures
        get_outcome(minRevision, read) == Ok::<Option<ObjectView>, ErrorView>(None),
{
    let after = server.cleared(whole_prefix(), encode_utf8(prepared));
    let reply = DeleteReply { revision: Some(after.revision) };
    clear_deletes_its_prefix(server, pathPrefix, prefix, prepared, reply);
    assert(!after.rows.contains_key(key));
}

/// A second clear of a prefix changes nothing, and tells the same revision as
/// the first.
pub proof fn second_clear_changes_nothing(
    server: Server,
    pathPrefix: Seq<char>,
    prefix: Seq<char>,
    prepared: Seq<char>,
    first: DeleteReply,
    second: DeleteReply,
)
    requires
        server.wf(),
        prepared_key(pathPrefix, prefix) == Ok::<Seq<char>, ErrorView>(prepared),
        server.answers_clear(whole_prefix(), encode_utf8(prepared), first),
        server.cleared(whole_prefix(), encode_utf8(prepared)).answers_clear(
            whole_prefix(),
            encode_utf8(prepared),
            second,
        ),
    ensures
        ({
            let after = server.cleared(whole_prefix(), encode_utf8(prepared));
            after.cleared(whole_prefix(), encode_utf8(prepared)) == after
        }),
        clear_outcome(second) == clear_outcome(first),
{
    let start = encode_utf8(prepared);
    let after = server.cleared(whole_prefix(), start);
    clear_deletes_its_prefix(server, pathPrefix, prefix, prepared, first);
    assert(after.covered(whole_prefix(), start) =~= Set::<Seq<u8>>::empty()) by {
        assert forall|key: Seq<u8>| !after.covered(whole_prefix(), start).contains(key) by {
            clear_covers_the_prefix(pathPrefix, prefix, key);
            if after.rows.contains_key(key) {
                assert(!start.is_prefix_of(key));
            }
        }
    }
}

} // verus!
