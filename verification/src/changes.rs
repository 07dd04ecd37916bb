//! What holds of the store's requests across the changes that others make in
//! between.

use vstd::prelude::*;

#[allow(unused_imports)]
use crate::options::RangeView;
#[allow(unused_imports)]
use crate::server::{create_is_exclusive, lemma_one_operation, lemma_passes_one, Server};
#[allow(unused_imports)]
use crate::store::{clear_outcome, create_outcome, update_outcome};
#[allow(unused_imports)]
use crate::txn::{create_txn, delete_txn, update_txn, OpView, TxnView};
#[allow(unused_imports)]
use crate::types::{DeleteReply, ErrorView, TxnReplyView};
#[allow(unused_imports)]
use vstd::utf8::encode_utf8;

verus! {

/// `now` is the server at the time of `before` or later: its revision has not
/// fallen, and every key that is not as it was is gone, or was changed after the
/// revision of `before`.
pub open spec fn later(before: Server, now: Server) -> bool {
    &&& before.revision <= now.revision
    &&& forall|key: Seq<u8>| #[trigger]
        now.rows.contains_key(key) ==> (before.rows.contains_key(key) && now.rows[key]
            == before.rows[key]) || before.revision < now.rows[key].modRevision
}

/// A server is no earlier than itself.
pub proof fn later_is_reflexive(server: Server)
    ensures
        later(server, server),
{
}

/// What is later than a later server is later.
pub proof fn later_is_transitive(a: Server, b: Server, c: Server)
    requires
        later(a, b),
        later(b, c),
    ensures
        later(a, c),
{
    assert forall|key: Seq<u8>| #[trigger] c.rows.contains_key(key) implies (a.rows.contains_key(
        key,
    ) && c.rows[key] == a.rows[key]) || a.revision < c.rows[key].modRevision by {
        assert(b.rows.contains_key(key) || b.revision < c.rows[key].modRevision);
    }
}

/// Every transaction of the store leads to a later server.
pub proof fn transactions_lead_to_later_servers(server: Server, txn: TxnView)
    requires
        server.wf(),
    ensures
        later(server, server.after(txn)),
{
    lemma_ran_is_later(server, server.chosen(txn), server.chosen(txn).len() as int);
}

proof fn lemma_ran_is_later(server: Server, ops: Seq<OpView>, n: int)
    requires
        server.wf(),
    ensures
        later(server, server.ran(ops, n)),
        server.ran(ops, n).revision <= server.revision + 1,
    decreases n,
{
    if n > 0 {
        lemma_ran_is_later(server, ops, n - 1);
    }
}

/// Every clear leads to a later server.
pub proof fn clears_lead_to_later_servers(server: Server, range: RangeView, key: Seq<u8>)
    requires
        server.wf(),
    ensures
        later(server, server.cleared(range, key)),
{
}

/// A transaction, the server that it reaches, and that server's answer.
pub struct Write {
    pub server: Server,
    pub txn: TxnView,
    pub reply: TxnReplyView,
}

impl Write {
    /// The server answers the transaction.
    pub open spec fn answered(self) -> bool {
        self.server.wf() && self.server.answers_txn(self.txn, self.reply)
    }

    /// The server after the transaction.
    pub open spec fn after(self) -> Server {
        self.server.after(self.txn)
    }
}

/// Write `k` reaches the server after the one before it.
pub open spec fn comes_after(writes: Seq<Write>, k: int) -> bool {
    later(writes[k - 1].after(), writes[k].server)
}

/// Writes that reach the server one after the other, with any other changes
/// before, between and after them.
pub open spec fn in_turn(writes: Seq<Write>) -> bool {
    &&& forall|k: int| 0 <= k < writes.len() ==> (#[trigger] writes[k]).answered()
    &&& forall|k: int| 0 < k < writes.len() ==> #[trigger] comes_after(writes, k)
}

proof fn lemma_in_turn(writes: Seq<Write>, i: int, j: int)
    requires
        in_turn(writes),
        0 <= i < j < writes.len(),
    ensures
        later(writes[i].after(), writes[j].server),
    decreases j,
{
    assert(comes_after(writes, j));
    if i < j - 1 {
        lemma_in_turn(writes, i, j - 1);
        let before = writes[j - 1];
        assert(before.answered());
        transactions_lead_to_later_servers(before.server, before.txn);
        later_is_transitive(writes[i].after(), before.server, before.after());
        later_is_transitive(writes[i].after(), before.after(), writes[j].server);
    }
}

/// The transaction updates or deletes `key`, at revision `rev` only.
pub open spec fn guarded(txn: TxnView, key: Seq<u8>, rev: i64) -> bool {
    txn == delete_txn(key, rev) || exists|value: Seq<u8>| txn == #[trigger] update_txn(
        key,
        rev,
        value,
    )
}

/// A guarded write succeeds at its key's revision only, and that revision never
/// comes back after it.
proof fn lemma_revision_is_spent(write: Write, key: Seq<u8>, rev: i64, now: Server)
    requires
        write.answered(),
        guarded(write.txn, key, rev),
        rev > 0,
        write.reply.succeeded,
        later(write.after(), now),
    ensures
        now.mod_revision(key) != rev,
{
    lemma_passes_one(write.server, write.txn);
    lemma_one_operation(write.server, write.txn);
    assert(write.server.holds(write.txn.compares[0]));
    assert(write.server.mod_revision(key) == rev);
    assert(write.server.rows.contains_key(key));
    assert(now.rows.contains_key(key) ==> now.rows[key].modRevision != rev);
}

/// Of all updates and deletes of one key that expect one revision, at most one
/// succeeds, whatever is written in between.
pub proof fn at_most_one_guarded_write_succeeds(writes: Seq<Write>, key: Seq<u8>, rev: i64)
    requires
        in_turn(writes),
        rev > 0,
        forall|k: int| 0 <= k < writes.len() ==> guarded((#[trigger] writes[k]).txn, key, rev),
    ensures
        forall|i: int, j: int|
            0 <= i < j < writes.len() ==> !((#[trigger] writes[i]).reply.succeeded && (
            #[trigger] writes[j]).reply.succeeded),
{
    assert forall|i: int, j: int| 0 <= i < j < writes.len() implies !((
    #[trigger] writes[i]).reply.succeeded && (#[trigger] writes[j]).reply.succeeded) by {
        if writes[i].reply.succeeded && writes[j].reply.succeeded {
            lemma_in_turn(writes, i, j);
            assert(writes[i].answered() && writes[j].answered());
            lemma_revision_is_spent(writes[i], key, rev, writes[j].server);
            lemma_passes_one(writes[j].server, writes[j].txn);
            assert(writes[j].server.holds(writes[j].txn.compares[0]));
        }
    }
}

/// Of several updates of one key that expect one revision, at most one caller
/// is told that the update succeeded.
pub proof fn at_most_one_update_succeeds(
    writes: Seq<Write>,
    values: Seq<Seq<u8>>,
    key: Seq<u8>,
    rev: i64,
)
    requires
        in_turn(writes),
        rev > 0,
        values.len() == writes.len(),
        forall|k: int|
            0 <= k < writes.len() ==> (#[trigger] writes[k]).txn == update_txn(
                key,
                rev,
                values[k],
            ),
    ensures
        forall|i: int, j: int|
            0 <= i < j < writes.len() ==> !(update_outcome(rev, (#[trigger] writes[i]).reply) is Ok
                && update_outcome(rev, (#[trigger] writes[j]).reply) is Ok),
{
    at_most_one_guarded_write_succeeds(writes, key, rev);
}

/// Creates that succeed after a clear, one after the other, tell strictly
/// growing revisions, all above the one that the clear told, whatever else is
/// written in between.
pub proof fn creates_after_a_clear_grow(
    server: Server,
    range: RangeView,
    start: Seq<u8>,
    reply: DeleteReply,
    writes: Seq<Write>,
    names: Seq<Seq<char>>,
    values: Seq<Seq<u8>>,
)
    requires
        server.wf(),
        server.answers_clear(range, start, reply),
        in_turn(writes),
        names.len() == writes.len(),
        values.len() == writes.len(),
        writes.len() > 0 ==> later(server.cleared(range, start), writes[0].server),
        forall|k: int|
            0 <= k < writes.len() ==> (#[trigger] writes[k]).txn == create_txn(
                encode_utf8(names[k]),
                values[k],
            ) && create_outcome(names[k], writes[k].reply) is Ok,
    ensures
        forall|k: int|
            0 <= k < writes.len() ==> clear_outcome(reply) < create_outcome(
                names[k],
                (#[trigger] writes[k]).reply,
            )->Ok_0,
        forall|i: int, j: int|
            0 <= i < j < writes.len() ==> create_outcome(
                names[i],
                (#[trigger] writes[i]).reply,
            )->Ok_0 < create_outcome(names[j], (#[trigger] writes[j]).reply)->Ok_0,
{
    assert forall|k: int| 0 <= k < writes.len() implies create_outcome(
        names[k],
        (#[trigger] writes[k]).reply,
    ) == Ok::<i64, ErrorView>(writes[k].after().revision) && writes[k].after().revision
        == writes[k].server.revision + 1 by {
        assert(writes[k].answered());
        create_is_exclusive(writes[k].server, names[k], values[k], writes[k].reply);
    }
    assert forall|i: int, j: int| 0 <= i < j < writes.len() implies create_outcome(
        names[i],
        (#[trigger] writes[i]).reply,
    )->Ok_0 < create_outcome(names[j], (#[trigger] writes[j]).reply)->Ok_0 by {
        lemma_in_turn(writes, i, j);
    }
}

} // verus!
