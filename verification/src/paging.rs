//! What the pages of a list come to: which keys its requests range over, where
//! the next list goes on, and when it ends.
//!
//! The server's keys under a prefix are `rows`, in ascending order; a list that
//! reads them at one revision reads the same rows with every request.

use vstd::prelude::*;

#[allow(unused_imports)]
use crate::list::{
    following, grown, list_prefix, list_start, page_end, page_end_is_first_stop, selected, ListView,
    Verdict, MAX_LIMIT,
};
#[allow(unused_imports)]
use crate::options::{OptionView, RangeView};
#[allow(unused_imports)]
use crate::range::{
    below_at, key_le, key_lt, key_order_is_irreflexive,
    key_order_is_transitive, lemma_prefix_end_shape, prefix_end, prefix_range_is_exact,
};
#[allow(unused_imports)]
use crate::server::covers;
#[allow(unused_imports)]
use crate::store::too_old;
#[allow(unused_imports)]
use crate::text::{encode_utf8_concat, lemma_encode_ascii};
#[allow(unused_imports)]
use crate::types::{KeyValueView, ListOption, ObjectView, RangeReplyView};
#[allow(unused_imports)]
use vstd::utf8::{decode_utf8, encode_utf8, valid_utf8};

verus! {

/// Each row's key comes before those of the rows after it.
pub open spec fn ascending(rows: Seq<KeyValueView>) -> bool {
    forall|i: int, j: int|
        0 <= i < j < rows.len() ==> key_lt((#[trigger] rows[i]).key, (#[trigger] rows[j]).key)
}

/// The rows that a request at `key` ranges over are those from `lo` to `hi`.
pub open spec fn spans(
    rows: Seq<KeyValueView>,
    range: RangeView,
    key: Seq<u8>,
    lo: int,
    hi: int,
) -> bool {
    &&& 0 <= lo <= hi <= rows.len()
    &&& forall|i: int|
        0 <= i < rows.len() ==> (lo <= i < hi <==> covers(range, key, (#[trigger] rows[i]).key))
}

/// How many of `total` rows the server sends, where 0 stands for no limit.
pub open spec fn sent(limit: i64, total: int) -> int {
    if 0 < limit < total {
        limit as int
    } else {
        total
    }
}

/// A page size that is too large for a request comes out negative there, and
/// any other as it is.
pub(crate) proof fn lemma_limit_as_sent(limit: usize)
    ensures
        limit <= i64::MAX ==> limit as i64 == limit,
        limit > i64::MAX ==> (limit as i64) < 0,
{
    if limit > i64::MAX {
        assert((limit as i64) < 0i64) by (bit_vector)
            requires
                limit > 0x7fff_ffff_ffff_ffff,
        ;
    }
}

/// Whether `reply` is what the server answers to a request that ranges over
/// the rows from `lo` to `hi`.
pub open spec fn answers_page(
    rows: Seq<KeyValueView>,
    lo: int,
    hi: int,
    limit: i64,
    reply: RangeReplyView,
) -> bool {
    &&& 0 <= lo <= hi <= rows.len()
    &&& reply.kvs == rows.subrange(lo, lo + sent(limit, hi - lo))
    &&& reply.more == (sent(limit, hi - lo) < hi - lo)
    &&& reply.count == hi - lo
    &&& reply.revision is Some
}

/// Whether `reply` is what the server answers to the next request of a list.
pub open spec fn serves(rows: Seq<KeyValueView>, list: ListView, reply: RangeReplyView) -> bool {
    exists|lo: int, hi: int| #[trigger]
        spans(rows, list.option.range(), list.key, lo, hi) && answers_page(
            rows,
            lo,
            hi,
            list.option.range().limit,
            reply,
        )
}

/// The answer to a request is that of the rows that it ranges over, whichever
/// way these are told.
pub(crate) proof fn lemma_serves_span(
    rows: Seq<KeyValueView>,
    list: ListView,
    reply: RangeReplyView,
    lo: int,
    hi: int,
)
    requires
        serves(rows, list, reply),
        spans(rows, list.option.range(), list.key, lo, hi),
    ensures
        answers_page(rows, lo, hi, list.option.range().limit, reply),
{
    let range = list.option.range();
    let key = list.key;
    let (a, b) = choose|a: int, b: int| #[trigger]
        spans(rows, range, key, a, b) && answers_page(rows, a, b, range.limit, reply);
    if a < b {
        assert(covers(range, key, rows[a].key) && covers(range, key, rows[b - 1].key));
        assert(lo <= a && b <= hi);
    }
    if lo < hi {
        assert(covers(range, key, rows[lo].key) && covers(range, key, rows[hi - 1].key));
        assert(a <= lo && hi <= b);
    }
    assert(reply.kvs =~= rows.subrange(lo, lo + sent(range.limit, hi - lo)));
}

/// The objects that rows hold.
pub open spec fn objects(rows: Seq<KeyValueView>) -> Seq<ObjectView> {
    Seq::new(rows.len(), |i: int| rows[i].object())
}

/// Every object of a page belongs to the list, as in a list without selectors.
pub open spec fn all_match(verdicts: Seq<Verdict>) -> bool {
    forall|i: int| 0 <= i < verdicts.len() ==> (#[trigger] verdicts[i]) is Match
}

/// The bytes of the key with which the next list starts.
pub proof fn next_key_bytes(list: ListView)
    requires
        valid_utf8(list.lastKey),
    ensures
        encode_utf8(list.next_key()) == following(list.lastKey),
{
    let text = decode_utf8(list.lastKey);
    vstd::utf8::decode_utf8_encode_utf8(list.lastKey);
    encode_utf8_concat(text, seq!['\0']);
    lemma_encode_ascii('\0');
    assert(text + seq!['\0'] =~= text.push('\0'));
    assert(encode_utf8(list.next_key()) =~= following(list.lastKey));
}

/// The key at which a list goes on follows the last key immediately: it comes
/// after that one, and before or at every other key that does.
pub proof fn next_key_follows_immediately(last: Seq<u8>, candidate: Seq<u8>)
    ensures
        key_lt(last, following(last)),
        key_lt(last, candidate) <==> key_le(following(last), candidate),
{
    let next = following(last);
    let n = last.len() as int;
    assert(below_at(last, next, n));
    if key_lt(last, candidate) {
        let t = choose|t: int| below_at(last, candidate, t);
        if t < n {
            assert(below_at(next, candidate, t));
        } else if candidate[n] > 0 {
            assert(below_at(next, candidate, n));
        } else if candidate.len() == n + 1 {
            assert(candidate =~= next);
        } else {
            assert(below_at(next, candidate, n + 1));
        }
    }
    if key_le(next, candidate) && next != candidate {
        key_order_is_transitive(last, next, candidate);
    }
}

/// The keys that a list in pages ranges over, and those that any other list
/// ranges over, are the keys that start with the list's prefix.
pub proof fn list_ranges_over_its_prefix(
    pagingEnable: bool,
    prepared: Seq<char>,
    opts: ListOption,
    candidate: Seq<u8>,
)
    requires
        !(pagingEnable && opts.predicate.hasContinue),
    ensures
        ({
            let list = list_start(pagingEnable, list_prefix(prepared), opts);
            covers(list.option.range(), list.key, candidate) <==> encode_utf8(
                list_prefix(prepared),
            ).is_prefix_of(candidate)
        }),
{
    lemma_directory(list_prefix(prepared), candidate);
}

pub(crate) proof fn lemma_directory(keyPrefix: Seq<char>, candidate: Seq<u8>)
    requires
        keyPrefix.len() > 0,
        keyPrefix.last() == '/',
    ensures
        ({
            let prefix = encode_utf8(keyPrefix);
            &&& prefix.len() > 0
            &&& prefix.last() == 0x2f
            &&& prefix_end(prefix).len() > 0
            &&& prefix_end(prefix) != seq![0u8]
            &&& prefix.is_prefix_of(candidate) <==> key_le(prefix, candidate) && key_lt(
                candidate,
                prefix_end(prefix),
            )
        }),
{
    let prefix = encode_utf8(keyPrefix);
    let front = keyPrefix.drop_last();
    assert(keyPrefix =~= front + seq!['/']);
    encode_utf8_concat(front, seq!['/']);
    lemma_encode_ascii('/');
    assert(prefix.last() == 0x2f);
    lemma_prefix_end_shape(prefix);
    prefix_range_is_exact(prefix, candidate);
}

/// The key with which the next list starts lies under the prefix of all keys
/// that the list may hold, if the last key does.
pub proof fn next_key_stays_under_the_prefix(list: ListView, prefix: Seq<u8>)
    requires
        valid_utf8(list.lastKey),
        prefix.is_prefix_of(list.lastKey),
    ensures
        prefix.is_prefix_of(encode_utf8(list.next_key())),
{
    next_key_bytes(list);
}

/// Whatever its pages hold, a list asks for keys under the same prefix, to the
/// same end and at the same revision with every request, keeps its revision
/// once it has one, and never asks for a smaller page. The page size doubles up
/// to [`MAX_LIMIT`], and one that was larger from the start stays.
pub proof fn pages_keep_the_request(
    list: ListView,
    reply: RangeReplyView,
    verdicts: Seq<Verdict>,
)
    requires
        list.wf(),
    ensures
        ({
            let after = list.after(reply, verdicts);
            &&& after.keyPrefix == list.keyPrefix
            &&& after.option == (OptionView { limit: after.option.limit, ..list.option })
            &&& list.returnedRV != 0 ==> after.returnedRV == list.returnedRV
            &&& list.limit <= after.limit
            &&& list.predLimit >= MAX_LIMIT ==> after.limit == list.predLimit
            &&& after.phase is Fetch ==> after.limit == grown(list.limit)
            &&& after.phase is Fetch ==> list.limit < after.limit || list.limit >= MAX_LIMIT
        }),
{
}

/// What holds of every list in progress holds after every page that it takes.
pub proof fn pages_keep_the_list_well_formed(
    list: ListView,
    reply: RangeReplyView,
    verdicts: Seq<Verdict>,
)
    requires
        list.wf(),
        list.phase is Fetch,
        reply.kvs.len() == verdicts.len(),
        list.fault(reply, verdicts) is None,
    ensures
        list.after(reply, verdicts).wf(),
{
    let have = list.objs.len() as int;
    let n = list.stops_at(verdicts);
    page_end_is_first_stop(reply.kvs, verdicts, have, list.paging, list.predLimit as int);
    if list.paging && n > 0 {
        assert(have + selected(reply.kvs, verdicts, n - 1).len() < list.predLimit);
    }
}

/// A list in pages that leaves a token was filled by the last object that it
/// judged: its last key is the key of the last object that it holds.
pub proof fn token_follows_last_object(
    list: ListView,
    reply: RangeReplyView,
    verdicts: Seq<Verdict>,
)
    requires
        list.wf(),
        list.phase is Fetch,
        list.paging,
        reply.kvs.len() == verdicts.len(),
        list.fault(reply, verdicts) is None,
        list.after(reply, verdicts).phase is Encode,
    ensures
        ({
            let after = list.after(reply, verdicts);
            let n = list.stops_at(verdicts);
            &&& 0 < n <= reply.kvs.len()
            &&& verdicts[n - 1] is Match
            &&& after.objs.len() == list.predLimit
            &&& after.objs.last() == reply.kvs[n - 1].object()
            &&& after.lastKey == reply.kvs[n - 1].key
        }),
{
    let have = list.objs.len() as int;
    let n = list.stops_at(verdicts);
    page_end_is_first_stop(reply.kvs, verdicts, have, list.paging, list.predLimit as int);
    assert(n > 0);
    assert(have + selected(reply.kvs, verdicts, n - 1).len() < list.predLimit);
}

/// A list that goes on after a page has judged all of it. The page was as large
/// as the list asked for, and rows remain after it.
pub(crate) proof fn lemma_moves_on(
    rows: Seq<KeyValueView>,
    lo: int,
    hi: int,
    list: ListView,
    reply: RangeReplyView,
    verdicts: Seq<Verdict>,
)
    requires
        list.wf(),
        list.phase is Fetch,
        reply.kvs.len() == verdicts.len(),
        answers_page(rows, lo, hi, list.option.range().limit, reply),
        list.fault(reply, verdicts) is None,
        list.after(reply, verdicts).phase is Fetch,
    ensures
        list.paging,
        list.stops_at(verdicts) == reply.kvs.len(),
        0 < reply.kvs.len(),
        reply.kvs.len() == list.limit,
        lo + reply.kvs.len() < hi,
        list.after(reply, verdicts).key == following(rows[lo + reply.kvs.len() - 1].key),
{
    let have = list.objs.len() as int;
    page_end_is_first_stop(reply.kvs, verdicts, have, list.paging, list.predLimit as int);
    lemma_limit_as_sent(list.limit);
}

/// A list ends, or is full, after a page that holds all keys of its range.
pub proof fn large_page_ends_the_list(
    rows: Seq<KeyValueView>,
    lo: int,
    hi: int,
    list: ListView,
    reply: RangeReplyView,
    verdicts: Seq<Verdict>,
)
    requires
        list.wf(),
        reply.kvs.len() == verdicts.len(),
        answers_page(rows, lo, hi, list.option.range().limit, reply),
        sent(list.option.range().limit, hi - lo) == hi - lo,
        list.fault(reply, verdicts) is None,
    ensures
        list.phase_after(reply, verdicts) is Done || list.phase_after(reply, verdicts) is Encode,
        list.phase_after(reply, verdicts) is Encode ==> list.full(list.objs_after(reply, verdicts)),
{
}

/// A page of a list without selectors: every object that the server sends, in
/// order. The list is done if these are all, and else full, so one request
/// suffices.
pub proof fn page_without_selectors(
    rows: Seq<KeyValueView>,
    lo: int,
    hi: int,
    list: ListView,
    reply: RangeReplyView,
    verdicts: Seq<Verdict>,
)
    requires
        list.wf(),
        list.objs.len() == 0,
        list.limit == list.predLimit,
        reply.kvs.len() == verdicts.len(),
        all_match(verdicts),
        answers_page(rows, lo, hi, list.option.range().limit, reply),
        !too_old(list.minRevision, reply.revision->0),
    ensures
        list.fault(reply, verdicts) is None,
        ({
            let after = list.after(reply, verdicts);
            let n = sent(list.option.range().limit, hi - lo);
            &&& after.objs == objects(rows.subrange(lo, lo + n))
            &&& after.phase is Done <==> n == hi - lo
            &&& after.phase is Encode <==> n < hi - lo
            &&& n > 0 ==> after.lastKey == rows[lo + n - 1].key
            &&& after.phase is Encode && list.predEmpty ==> after.remaining() == hi - (lo + n)
        }),
{
    let n = sent(list.option.range().limit, hi - lo);
    lemma_limit_as_sent(list.predLimit);
    assert(reply.kvs.len() == n);
    lemma_all_match(reply.kvs, verdicts, 0, list.paging, list.predLimit as int);
    assert(list.objs_after(reply, verdicts) =~= objects(rows.subrange(lo, lo + n)));
}

/// With room for all of them, a page whose objects all match is read to its end.
proof fn lemma_all_match(
    kvs: Seq<KeyValueView>,
    verdicts: Seq<Verdict>,
    from: int,
    paging: bool,
    limit: int,
)
    requires
        kvs.len() == verdicts.len(),
        all_match(verdicts),
        0 <= from <= verdicts.len(),
        paging ==> verdicts.len() <= limit,
    ensures
        page_end(verdicts, from, from, paging, limit) == verdicts.len(),
        selected(kvs, verdicts, verdicts.len() as int) == objects(kvs),
    decreases verdicts.len() - from,
{
    lemma_select_all(kvs, verdicts, verdicts.len() as int);
    assert(kvs.take(verdicts.len() as int) =~= kvs);
    if from < verdicts.len() {
        assert(verdicts[from] is Match);
        lemma_all_match(kvs, verdicts, from + 1, paging, limit);
    }
}

pub(crate) proof fn lemma_select_all(kvs: Seq<KeyValueView>, verdicts: Seq<Verdict>, n: int)
    requires
        kvs.len() == verdicts.len(),
        all_match(verdicts),
        0 <= n <= verdicts.len(),
    ensures
        selected(kvs, verdicts, n) == objects(kvs.take(n)),
    decreases n,
{
    if n > 0 {
        lemma_select_all(kvs, verdicts, n - 1);
        assert(verdicts[n - 1] is Match);
        assert(objects(kvs.take(n)) =~= objects(kvs.take(n - 1)).push(kvs[n - 1].object()));
    } else {
        assert(objects(kvs.take(n)) =~= Seq::empty());
    }
}

/// A request that starts at the key after that of a row ranges over the rows
/// after that row, to the same end.
pub proof fn continued_range_follows_on(
    rows: Seq<KeyValueView>,
    lo: int,
    hi: int,
    last: int,
    first: ListView,
    second: ListView,
)
    requires
        ascending(rows),
        first.ranged(),
        second.ranged(),
        first.keyPrefix == second.keyPrefix,
        first.keyPrefix.len() > 0,
        first.keyPrefix.last() == '/',
        spans(rows, first.option.range(), first.key, lo, hi),
        lo <= last < hi,
        second.key == following(rows[last].key),
    ensures
        spans(rows, second.option.range(), second.key, last + 1, hi),
{
    let end = prefix_end(encode_utf8(first.keyPrefix));
    lemma_directory(first.keyPrefix, rows[last].key);
    assert forall|i: int| 0 <= i < rows.len() implies (last + 1 <= i < hi <==> covers(
        second.option.range(),
        second.key,
        (#[trigger] rows[i]).key,
    )) by {
        let k = rows[i].key;
        next_key_follows_immediately(rows[last].key, k);
        assert(covers(first.option.range(), first.key, rows[last].key));
        if i <= last {
            if key_lt(rows[last].key, k) {
                if i < last {
                    key_order_is_transitive(k, rows[last].key, k);
                }
                key_order_is_irreflexive(k);
                assert(false);
            }
        } else {
            assert(key_lt(rows[last].key, k));
            if i >= hi {
                // What lies beyond the first range lies beyond its end.
                assert(!covers(first.option.range(), first.key, k));
                if first.key != rows[last].key {
                    key_order_is_transitive(first.key, rows[last].key, k);
                }
                assert(!key_lt(k, end));
            } else {
                assert(covers(first.option.range(), first.key, k));
            }
        }
    }
}

/// The object at position `i` of a page matches, and `p` matching ones precede
/// it.
pub open spec fn is_match_number(
    kvs: Seq<KeyValueView>,
    verdicts: Seq<Verdict>,
    i: int,
    p: int,
) -> bool {
    verdicts[i] is Match && selected(kvs, verdicts, i).len() == p
}

/// Some object among the first `n` of a page matches, with `p` matching ones
/// before it.
pub open spec fn has_match_number(
    kvs: Seq<KeyValueView>,
    verdicts: Seq<Verdict>,
    n: int,
    p: int,
) -> bool {
    exists|i: int| 0 <= i < n && #[trigger] is_match_number(kvs, verdicts, i, p)
}

/// The objects that a list takes from a page are those that match among the
/// ones that it judged, each once and in the page's order: each matching object
/// stands at the position that counts the matching ones before it, and no
/// position is without one.
pub proof fn selected_holds_each_match_once(
    kvs: Seq<KeyValueView>,
    verdicts: Seq<Verdict>,
    n: int,
)
    requires
        0 <= n <= verdicts.len(),
        kvs.len() == verdicts.len(),
    ensures
        forall|i: int, p: int|
            0 <= i < n && #[trigger] is_match_number(kvs, verdicts, i, p) ==> p < selected(
                kvs,
                verdicts,
                n,
            ).len() && selected(kvs, verdicts, n)[p] == kvs[i].object(),
        forall|p: int|
            0 <= p < selected(kvs, verdicts, n).len() ==> #[trigger] has_match_number(
                kvs,
                verdicts,
                n,
                p,
            ),
    decreases n,
{
    if n > 0 {
        selected_holds_each_match_once(kvs, verdicts, n - 1);
        let front = selected(kvs, verdicts, n - 1);
        let all = selected(kvs, verdicts, n);
        assert forall|p: int| 0 <= p < all.len() implies #[trigger] has_match_number(
            kvs,
            verdicts,
            n,
            p,
        ) by {
            if p == front.len() {
                assert(is_match_number(kvs, verdicts, n - 1, p));
            } else {
                assert(has_match_number(kvs, verdicts, n - 1, p));
                let i = choose|i: int|
                    0 <= i < n - 1 && #[trigger] is_match_number(kvs, verdicts, i, p);
                assert(is_match_number(kvs, verdicts, i, p));
            }
        }
    }
}

/// What a list without selectors, started fresh, comes to: the first rows of
/// its prefix, up to its limit, in order; a token exactly if rows remain.
pub proof fn fresh_list_holds_first_rows(
    rows: Seq<KeyValueView>,
    lo: int,
    hi: int,
    prepared: Seq<char>,
    pagingEnable: bool,
    opts: ListOption,
    reply: RangeReplyView,
    verdicts: Seq<Verdict>,
)
    requires
        !(pagingEnable && opts.predicate.hasContinue),
        0 <= lo <= hi <= rows.len(),
        forall|i: int|
            0 <= i < rows.len() ==> (lo <= i < hi <==> encode_utf8(
                list_prefix(prepared),
            ).is_prefix_of((#[trigger] rows[i]).key)),
        reply.kvs.len() == verdicts.len(),
        all_match(verdicts),
        serves(rows, list_start(pagingEnable, list_prefix(prepared), opts), reply),
        !too_old(opts.revision, reply.revision->0),
    ensures
        ({
            let list = list_start(pagingEnable, list_prefix(prepared), opts);
            let after = list.after(reply, verdicts);
            let n = if pagingEnable && 0 < opts.predicate.limit < hi - lo {
                opts.predicate.limit as int
            } else {
                hi - lo
            };
            &&& spans(rows, list.option.range(), list.key, lo, hi)
            &&& list.fault(reply, verdicts) is None
            &&& after.objs == objects(rows.subrange(lo, lo + n))
            &&& after.phase is Encode <==> n < hi - lo
            &&& after.phase is Done <==> n == hi - lo
        }),
{
    let list = list_start(pagingEnable, list_prefix(prepared), opts);
    assert forall|i: int| 0 <= i < rows.len() implies (lo <= i < hi <==> covers(
        list.option.range(),
        list.key,
        (#[trigger] rows[i]).key,
    )) by {
        list_ranges_over_its_prefix(pagingEnable, prepared, opts, rows[i].key);
    }
    lemma_serves_span(rows, list, reply, lo, hi);
    lemma_limit_as_sent(opts.predicate.limit);
    page_without_selectors(rows, lo, hi, list, reply, verdicts);
}

/// The rows that match among the first `n`, in order.
pub open spec fn matching_rows(
    kvs: Seq<KeyValueView>,
    verdicts: Seq<Verdict>,
    n: int,
) -> Seq<KeyValueView>
    decreases n,
{
    if n <= 0 {
        Seq::empty()
    } else if verdicts[n - 1] is Match {
        matching_rows(kvs, verdicts, n - 1).push(kvs[n - 1])
    } else {
        matching_rows(kvs, verdicts, n - 1)
    }
}

/// The objects that a list takes are those of the matching rows, in strictly
/// ascending order of their keys: none occurs twice.
pub proof fn selected_objects_ascend(
    kvs: Seq<KeyValueView>,
    verdicts: Seq<Verdict>,
    n: int,
)
    requires
        ascending(kvs),
        kvs.len() == verdicts.len(),
        0 <= n <= kvs.len(),
    ensures
        selected(kvs, verdicts, n) == objects(matching_rows(kvs, verdicts, n)),
        ascending(matching_rows(kvs, verdicts, n)),
        forall|p: int|
            0 <= p < matching_rows(kvs, verdicts, n).len() ==> kvs.take(n).contains(
                #[trigger] matching_rows(kvs, verdicts, n)[p],
            ),
    decreases n,
{
    if n > 0 {
        selected_objects_ascend(kvs, verdicts, n - 1);
        let front = matching_rows(kvs, verdicts, n - 1);
        let all = matching_rows(kvs, verdicts, n);
        assert(selected(kvs, verdicts, n) =~= objects(all));
        assert forall|p: int| 0 <= p < all.len() implies kvs.take(n).contains(
            #[trigger] all[p],
        ) by {
            if p < front.len() {
                assert(kvs.take(n - 1).contains(front[p]));
                let i = kvs.take(n - 1).index_of(front[p]);
                assert(kvs.take(n)[i] == front[p]);
            } else {
                assert(kvs.take(n)[n - 1] == all[p]);
            }
        }
        assert forall|p: int, q: int| 0 <= p < q < all.len() implies key_lt(
            (#[trigger] all[p]).key,
            (#[trigger] all[q]).key,
        ) by {
            if q == front.len() {
                assert(kvs.take(n - 1).contains(front[p]));
                let i = kvs.take(n - 1).index_of(front[p]);
                assert(kvs[i] == all[p] && kvs[n - 1] == all[q]);
            } else {
                assert(front[p] == all[p] && front[q] == all[q]);
            }
        }
    } else {
        assert(selected(kvs, verdicts, n) =~= objects(matching_rows(kvs, verdicts, n)));
    }
}

} // verus!
