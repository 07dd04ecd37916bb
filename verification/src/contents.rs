//! What lists tell of the server's contents, and of what was written before
//! them.

use vstd::prelude::*;

#[allow(unused_imports)]
use crate::list::{list_prefix, list_start, Verdict};
#[allow(unused_imports)]
use crate::listing::{
    chain, chain_through, chained_lists_hold_every_match_once, chained_lists_read_one_revision,
    collected, judged, matching, Listing,
};
#[allow(unused_imports)]
use crate::options::whole_prefix;
#[allow(unused_imports)]
use crate::paging::{
    answers_page, ascending, list_ranges_over_its_prefix, matching_rows, objects,
    selected_objects_ascend, spans,
};
#[allow(unused_imports)]
use crate::server::{
    clear_deletes_its_prefix, covers, create_is_exclusive, lemma_one_operation, update_is_guarded,
    Server,
};
#[allow(unused_imports)]
use crate::store::{create_outcome, prepared_key, update_outcome};
#[allow(unused_imports)]
use crate::text::encode_utf8_concat;
#[allow(unused_imports)]
use crate::txn::{create_txn, delete_txn, update_txn};
#[allow(unused_imports)]
use crate::types::{DeleteReply, ErrorView, KeyValueView, ListOption, ObjectView, TxnReplyView};
#[allow(unused_imports)]
use vstd::utf8::encode_utf8;

verus! {

/// `rows` are the server's keys with their values, in ascending order.
pub open spec fn rows_of(server: Server, rows: Seq<KeyValueView>) -> bool {
    &&& ascending(rows)
    &&& forall|i: int|
        0 <= i < rows.len() ==> server.rows.contains_key((#[trigger] rows[i]).key) && rows[i]
            == server.row(rows[i].key)
    &&& forall|key: Seq<u8>| #[trigger]
        server.rows.contains_key(key) ==> rows.contains(server.row(key))
}

/// The server has `key`, which starts with `prefix` and whose object matches.
pub open spec fn belongs(
    server: Server,
    judge: spec_fn(KeyValueView) -> Verdict,
    prefix: Seq<u8>,
    key: Seq<u8>,
) -> bool {
    &&& server.rows.contains_key(key)
    &&& prefix.is_prefix_of(key)
    &&& judge(server.row(key)) is Match
}

/// `held` are the server's matching rows under `prefix`, each once and in
/// ascending order.
pub open spec fn holds_all(
    server: Server,
    judge: spec_fn(KeyValueView) -> Verdict,
    prefix: Seq<u8>,
    held: Seq<KeyValueView>,
) -> bool {
    &&& ascending(held)
    &&& forall|key: Seq<u8>| #[trigger]
        belongs(server, judge, prefix, key) ==> held.contains(server.row(key))
    &&& forall|p: int|
        0 <= p < held.len() ==> belongs(server, judge, prefix, (#[trigger] held[p]).key) && held[p]
            == server.row(held[p].key)
}

/// A list of the objects under a prefix of a server that does not change
/// meanwhile, started fresh and gone on with until there is no token.
pub open spec fn complete(
    server: Server,
    rows: Seq<KeyValueView>,
    judge: spec_fn(KeyValueView) -> Verdict,
    pagingEnable: bool,
    prepared: Seq<char>,
    lists: Seq<Listing>,
    opts: Seq<ListOption>,
) -> bool {
    &&& rows_of(server, rows)
    &&& chain(rows, judge, lists, opts)
    &&& !(pagingEnable && opts[0].predicate.hasContinue)
    &&& lists[0].start == list_start(pagingEnable, list_prefix(prepared), opts[0])
    &&& lists.last().done().phase is Done
}

/// The rows that match are among the matching rows, and no others.
proof fn lemma_matching_rows(
    judge: spec_fn(KeyValueView) -> Verdict,
    kvs: Seq<KeyValueView>,
    n: int,
)
    requires
        0 <= n <= kvs.len(),
    ensures
        forall|p: int|
            0 <= p < matching_rows(kvs, judged(judge, kvs), n).len() ==> judge(
                #[trigger] matching_rows(kvs, judged(judge, kvs), n)[p],
            ) is Match,
        forall|i: int|
            0 <= i < n && judge(#[trigger] kvs[i]) is Match ==> matching_rows(
                kvs,
                judged(judge, kvs),
                n,
            ).contains(kvs[i]),
    decreases n,
{
    if n > 0 {
        lemma_matching_rows(judge, kvs, n - 1);
        let front = matching_rows(kvs, judged(judge, kvs), n - 1);
        let all = matching_rows(kvs, judged(judge, kvs), n);
        assert forall|i: int| 0 <= i < n && judge(#[trigger] kvs[i]) is Match implies all.contains(
            kvs[i],
        ) by {
            if i == n - 1 {
                assert(all[front.len() as int] == kvs[i]);
            } else {
                assert(front.contains(kvs[i]));
                assert(all[front.index_of(kvs[i])] == kvs[i]);
            }
        }
    }
}

/// A complete list holds the objects of all matching keys under its prefix,
/// each once and in ascending order of the keys, and no others, however many
/// pages and tokens it takes.
pub proof fn complete_list_holds_the_prefix(
    server: Server,
    rows: Seq<KeyValueView>,
    judge: spec_fn(KeyValueView) -> Verdict,
    pagingEnable: bool,
    prepared: Seq<char>,
    lists: Seq<Listing>,
    opts: Seq<ListOption>,
) -> (held: Seq<KeyValueView>)
    requires
        complete(server, rows, judge, pagingEnable, prepared, lists, opts),
    ensures
        holds_all(server, judge, encode_utf8(list_prefix(prepared)), held),
        collected(lists, lists.len() as int) == objects(held),
{
    let prefix = encode_utf8(list_prefix(prepared));
    let start = lists[0].start;
    assert(lists[0].runs(rows, judge));
    assert(lists[0].takes(rows, judge, 0));
    let reply = lists[0].pages[0].reply;
    let (lo, hi) = choose|lo: int, hi: int| #[trigger]
        spans(rows, start.option.range(), start.key, lo, hi) && answers_page(
            rows,
            lo,
            hi,
            start.option.range().limit,
            reply,
        );
    chained_lists_hold_every_match_once(rows, judge, lo, hi, lists, opts);
    let range = rows.subrange(lo, hi);
    let held = matching_rows(range, judged(judge, range), hi - lo);
    assert(ascending(range));
    selected_objects_ascend(range, judged(judge, range), hi - lo);
    lemma_matching_rows(judge, range, hi - lo);
    assert forall|key: Seq<u8>| #[trigger] belongs(server, judge, prefix, key) implies held.contains(
        server.row(key),
    ) by {
        let i = rows.index_of(server.row(key));
        assert(rows.contains(server.row(key)));
        assert(rows[i].key == key);
        list_ranges_over_its_prefix(pagingEnable, prepared, opts[0], key);
        assert(lo <= i < hi);
        assert(range[i - lo] == server.row(key));
    }
    assert forall|p: int| 0 <= p < held.len() implies belongs(
        server,
        judge,
        prefix,
        (#[trigger] held[p]).key,
    ) && held[p] == server.row(held[p].key) by {
        assert(range.take(hi - lo).contains(held[p]));
        let i = range.take(hi - lo).index_of(held[p]);
        assert(rows[lo + i] == held[p]);
        assert(covers(start.option.range(), start.key, rows[lo + i].key));
        list_ranges_over_its_prefix(pagingEnable, prepared, opts[0], held[p].key);
    }
    held
}

/// A list in pages, started fresh and gone on with until there is no token, is a
/// complete list of the server as it was at the revision that the list tells,
/// whatever is written between the pages.
pub proof fn list_amid_writes_is_complete(
    history: spec_fn(i64) -> Seq<KeyValueView>,
    server: Server,
    judge: spec_fn(KeyValueView) -> Verdict,
    prepared: Seq<char>,
    lists: Seq<Listing>,
    opts: Seq<ListOption>,
)
    requires
        chain_through(history, judge, lists, opts),
        rows_of(server, history(lists[0].revision())),
        !opts[0].predicate.hasContinue,
        lists[0].start == list_start(true, list_prefix(prepared), opts[0]),
        lists.last().done().phase is Done,
    ensures
        complete(server, history(lists[0].revision()), judge, true, prepared, lists, opts),
        lists.last().done().returnedRV == lists[0].revision(),
{
    chained_lists_read_one_revision(history, judge, lists, opts);
}

/// A complete list after a create holds the created object, at the revision
/// that the creator was told, if its key lies under the list's prefix and its
/// object matches.
pub proof fn list_after_create_holds_the_object(
    server: Server,
    name: Seq<char>,
    value: Seq<u8>,
    reply: TxnReplyView,
    revision: i64,
    rows: Seq<KeyValueView>,
    judge: spec_fn(KeyValueView) -> Verdict,
    pagingEnable: bool,
    prepared: Seq<char>,
    lists: Seq<Listing>,
    opts: Seq<ListOption>,
)
    requires
        server.wf(),
        server.answers_txn(create_txn(encode_utf8(name), value), reply),
        create_outcome(name, reply) == Ok::<i64, ErrorView>(revision),
        complete(
            server.after(create_txn(encode_utf8(name), value)),
            rows,
            judge,
            pagingEnable,
            prepared,
            lists,
            opts,
        ),
        encode_utf8(list_prefix(prepared)).is_prefix_of(encode_utf8(name)),
        judge(KeyValueView { key: encode_utf8(name), value, modRevision: revision }) is Match,
    ensures
        collected(lists, lists.len() as int).contains(ObjectView { obj: value, revision }),
{
    create_is_exclusive(server, name, value, reply);
    let after = server.after(create_txn(encode_utf8(name), value));
    lemma_listed(after, encode_utf8(name), rows, judge, pagingEnable, prepared, lists, opts);
}

/// A complete list after an update holds the updated object, at the revision
/// that the updater was told, if its key lies under the list's prefix and its
/// object matches.
pub proof fn list_after_update_holds_the_object(
    server: Server,
    key: Seq<u8>,
    expectedRev: i64,
    value: Seq<u8>,
    reply: TxnReplyView,
    revision: i64,
    rows: Seq<KeyValueView>,
    judge: spec_fn(KeyValueView) -> Verdict,
    pagingEnable: bool,
    prepared: Seq<char>,
    lists: Seq<Listing>,
    opts: Seq<ListOption>,
)
    requires
        server.wf(),
        server.answers_txn(update_txn(key, expectedRev, value), reply),
        update_outcome(expectedRev, reply) == Ok::<i64, ErrorView>(revision),
        complete(
            server.after(update_txn(key, expectedRev, value)),
            rows,
            judge,
            pagingEnable,
            prepared,
            lists,
            opts,
        ),
        encode_utf8(list_prefix(prepared)).is_prefix_of(key),
        judge(KeyValueView { key, value, modRevision: revision }) is Match,
    ensures
        collected(lists, lists.len() as int).contains(ObjectView { obj: value, revision }),
{
    update_is_guarded(server, key, expectedRev, value, reply);
    let after = server.after(update_txn(key, expectedRev, value));
    lemma_listed(after, key, rows, judge, pagingEnable, prepared, lists, opts);
}

proof fn lemma_listed(
    server: Server,
    key: Seq<u8>,
    rows: Seq<KeyValueView>,
    judge: spec_fn(KeyValueView) -> Verdict,
    pagingEnable: bool,
    prepared: Seq<char>,
    lists: Seq<Listing>,
    opts: Seq<ListOption>,
)
    requires
        complete(server, rows, judge, pagingEnable, prepared, lists, opts),
        belongs(server, judge, encode_utf8(list_prefix(prepared)), key),
    ensures
        collected(lists, lists.len() as int).contains(server.row(key).object()),
{
    let held = complete_list_holds_the_prefix(
        server,
        rows,
        judge,
        pagingEnable,
        prepared,
        lists,
        opts,
    );
    let p = held.index_of(server.row(key));
    assert(held.contains(server.row(key)));
    assert(objects(held)[p] == server.row(key).object());
}

/// A complete list after a successful delete holds the matching objects under
/// its prefix, and none under the deleted key.
pub proof fn list_after_delete_lacks_the_object(
    server: Server,
    key: Seq<u8>,
    expectedRev: i64,
    reply: TxnReplyView,
    rows: Seq<KeyValueView>,
    judge: spec_fn(KeyValueView) -> Verdict,
    pagingEnable: bool,
    prepared: Seq<char>,
    lists: Seq<Listing>,
    opts: Seq<ListOption>,
) -> (held: Seq<KeyValueView>)
    requires
        server.wf(),
        server.answers_txn(delete_txn(key, expectedRev), reply),
        reply.succeeded,
        complete(
            server.after(delete_txn(key, expectedRev)),
            rows,
            judge,
            pagingEnable,
            prepared,
            lists,
            opts,
        ),
    ensures
        holds_all(
            server.after(delete_txn(key, expectedRev)),
            judge,
            encode_utf8(list_prefix(prepared)),
            held,
        ),
        collected(lists, lists.len() as int) == objects(held),
        forall|p: int| 0 <= p < held.len() ==> (#[trigger] held[p]).key != key,
{
    let after = server.after(delete_txn(key, expectedRev));
    lemma_one_operation(server, delete_txn(key, expectedRev));
    assert(!after.rows.contains_key(key));
    complete_list_holds_the_prefix(after, rows, judge, pagingEnable, prepared, lists, opts)
}

/// A complete list of what a clear has deleted is empty.
pub proof fn list_after_clear_is_empty(
    server: Server,
    pathPrefix: Seq<char>,
    prefix: Seq<char>,
    prepared: Seq<char>,
    rows: Seq<KeyValueView>,
    judge: spec_fn(KeyValueView) -> Verdict,
    pagingEnable: bool,
    lists: Seq<Listing>,
    opts: Seq<ListOption>,
)
    requires
        server.wf(),
        prepared_key(pathPrefix, prefix) == Ok::<Seq<char>, ErrorView>(prepared),
        complete(
            server.cleared(whole_prefix(), encode_utf8(prepared)),
            rows,
            judge,
            pagingEnable,
            prepared,
            lists,
            opts,
        ),
    ensures
        collected(lists, lists.len() as int).len() == 0,
{
    let start = encode_utf8(prepared);
    let after = server.cleared(whole_prefix(), start);
    let reply = DeleteReply { revision: Some(after.revision) };
    clear_deletes_its_prefix(server, pathPrefix, prefix, prepared, reply);
    let held = complete_list_holds_the_prefix(
        after,
        rows,
        judge,
        pagingEnable,
        prepared,
        lists,
        opts,
    );
    let below = encode_utf8(list_prefix(prepared));
    assert(start.is_prefix_of(below)) by {
        encode_utf8_concat(prepared, seq!['/']);
        assert(prepared + seq!['/'] =~= prepared.push('/'));
    }
    if held.len() > 0 {
        assert(belongs(after, judge, below, held[0].key));
        assert(start.is_prefix_of(held[0].key));
        assert(false);
    }
}

} // verus!
