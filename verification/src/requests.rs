//! What a list asks of the server and what it takes from its answers, in terms
//! of what the caller of the list gave.

use vstd::prelude::*;

#[allow(unused_imports)]
use crate::list::{
    following, list_prefix, list_start, page_end_is_first_stop, selected, FaultView,
    ListView, Verdict, MAX_LIMIT,
};
#[allow(unused_imports)]
use crate::listing::{list_holds_first_matches, Listing};
#[allow(unused_imports)]
use crate::paging::{
    ascending, lemma_directory, next_key_bytes, next_key_follows_immediately, spans,
};
#[allow(unused_imports)]
use crate::range::{key_le, key_lt, key_order_is_total, key_order_is_transitive, prefix_end};
#[allow(unused_imports)]
use crate::server::covers;
#[allow(unused_imports)]
use crate::types::{ErrorView, KeyValueView, ListOption, RangeReplyView};
#[allow(unused_imports)]
use vstd::utf8::{encode_utf8, valid_utf8};

verus! {

/// `list` is a list of the keys under `keyPrefix` before its first request: a
/// fresh one, or one that goes on from the key and the revision of a token.
pub open spec fn begins(
    list: ListView,
    pagingEnable: bool,
    keyPrefix: Seq<char>,
    opts: ListOption,
    token: Option<(Seq<char>, i64)>,
) -> bool {
    match token {
        None => {
            &&& !(pagingEnable && opts.predicate.hasContinue)
            &&& list == list_start(pagingEnable, keyPrefix, opts)
        },
        Some((key, revision)) => {
            &&& pagingEnable && opts.predicate.hasContinue
            &&& list == list_start(pagingEnable, keyPrefix, opts).resumed(key, revision)
        },
    }
}

/// The prefix of a list's keys ends with a slash: the prepared key's own, or one
/// after it.
pub proof fn lists_are_of_directories(prepared: Seq<char>)
    ensures
        list_prefix(prepared).len() > 0,
        list_prefix(prepared).last() == '/',
        prepared.len() > 0 && prepared.last() == '/' ==> list_prefix(prepared) == prepared,
        prepared.len() == 0 || prepared.last() != '/' ==> list_prefix(prepared) == prepared
            + seq!['/'],
{
    assert(prepared.push('/') =~= prepared + seq!['/']);
}

/// A list waits for its token first, exactly if the store pages and the caller
/// gave one; else it makes its first request at once.
pub proof fn token_is_read_first(pagingEnable: bool, keyPrefix: Seq<char>, opts: ListOption)
    ensures
        list_start(pagingEnable, keyPrefix, opts).phase is Resume <==> pagingEnable
            && opts.predicate.hasContinue,
        list_start(pagingEnable, keyPrefix, opts).phase is Fetch <==> !(pagingEnable
            && opts.predicate.hasContinue),
        forall|list: ListView, token: Option<(Seq<char>, i64)>| #[trigger]
            begins(list, pagingEnable, keyPrefix, opts, token) ==> list.phase is Fetch,
{
}

/// What a list was asked for stays through all its pages.
proof fn lemma_kept(list: Listing, k: int)
    ensures
        list.state(k).keyPrefix == list.start.keyPrefix,
        list.state(k).paging == list.start.paging,
        list.state(k).predLimit == list.start.predLimit,
        list.state(k).predEmpty == list.start.predEmpty,
        list.state(k).minRevision == list.start.minRevision,
        list.state(k).option.revision == list.start.option.revision,
        list.state(k).option.endKey == list.start.option.endKey,
        list.state(k).option.prefix == list.start.option.prefix,
    decreases k,
{
    if k > 0 {
        lemma_kept(list, k - 1);
    }
}

/// A list holds as many objects as it was asked for at most, fresh or from a
/// token and whatever its selectors: exactly as many if rows of its range
/// remain, and then it leaves a token. A list without a limit, or of a store
/// that does not page, judges all rows of its range and leaves none.
pub proof fn list_keeps_its_limit(
    rows: Seq<KeyValueView>,
    judge: spec_fn(KeyValueView) -> Verdict,
    lo: int,
    hi: int,
    list: Listing,
    pagingEnable: bool,
    keyPrefix: Seq<char>,
    opts: ListOption,
    token: Option<(Seq<char>, i64)>,
)
    requires
        keyPrefix.len() > 0,
        keyPrefix.last() == '/',
        begins(list.start, pagingEnable, keyPrefix, opts, token),
        ascending(rows),
        list.runs(rows, judge),
        list.ended(),
        spans(rows, list.start.option.range(), list.start.key, lo, hi),
    ensures
        pagingEnable && opts.predicate.limit > 0 ==> list.done().objs.len()
            <= opts.predicate.limit,
        pagingEnable && opts.predicate.limit > 0 && list.reach() < hi - lo ==> list.done().phase
            is Encode && list.done().objs.len() == opts.predicate.limit,
        pagingEnable && opts.predicate.limit > 0 && list.done().objs.len() < opts.predicate.limit
            ==> list.done().phase is Done && list.reach() == hi - lo,
        !(pagingEnable && opts.predicate.limit > 0) ==> list.done().phase is Done && list.reach()
            == hi - lo,
{
    list_holds_first_matches(rows, judge, lo, hi, list);
}

/// Every list in progress pages exactly if the store does and the caller gave a
/// limit, and that is its limit. Every list but one that pages asks for all keys
/// of its range at once.
pub proof fn list_pages_as_asked(
    list: Listing,
    k: int,
    pagingEnable: bool,
    keyPrefix: Seq<char>,
    opts: ListOption,
    token: Option<(Seq<char>, i64)>,
)
    requires
        begins(list.start, pagingEnable, keyPrefix, opts, token),
    ensures
        list.state(k).paging <==> pagingEnable && opts.predicate.limit > 0,
        list.state(k).predLimit == opts.predicate.limit,
        list.state(k).predEmpty == opts.predicate.empty,
        list.state(k).keyPrefix == keyPrefix,
        list.start.objs.len() == 0,
        pagingEnable && opts.predicate.limit > 0 ==> list.start.option.range().limit
            == opts.predicate.limit as i64,
        !(pagingEnable && opts.predicate.limit > 0) ==> list.state(k).option.range().limit == 0,
    decreases k,
{
    lemma_kept(list, k);
    if k > 0 {
        list_pages_as_asked(list, k - 1, pagingEnable, keyPrefix, opts, token);
    }
}

/// The page size doubles from one request to the next, up to [`MAX_LIMIT`]; one
/// that is not below that stays.
pub proof fn page_size_doubles(list: ListView, reply: RangeReplyView, verdicts: Seq<Verdict>)
    requires
        list.wf(),
        list.paging,
        list.after(reply, verdicts).phase is Fetch,
    ensures
        ({
            let after = list.after(reply, verdicts);
            &&& list.option.range().limit == list.limit as i64
            &&& after.option.range().limit == after.limit as i64
            &&& list.limit >= MAX_LIMIT ==> after.limit == list.limit
            &&& list.limit < MAX_LIMIT && 2 * list.limit <= MAX_LIMIT ==> after.limit == 2
                * list.limit
            &&& list.limit < MAX_LIMIT && 2 * list.limit > MAX_LIMIT ==> after.limit == MAX_LIMIT
        }),
{
}

/// The revision that the requests of a list name. A list from a token names the
/// token's revision if that is positive. A fresh list names the caller's
/// revision if that is positive and to be matched exactly, whether or not the
/// list pages and whatever its selectors. Else the requests name none. It is
/// the same with every request.
pub proof fn list_names_the_revision(
    list: Listing,
    k: int,
    pagingEnable: bool,
    keyPrefix: Seq<char>,
    opts: ListOption,
    token: Option<(Seq<char>, i64)>,
)
    requires
        begins(list.start, pagingEnable, keyPrefix, opts, token),
    ensures
        token matches Some((key, revision)) ==> list.state(k).option.range().revision == (
        if revision > 0 {
            revision
        } else {
            0
        }),
        token is None && opts.revision > 0 && opts.revisionMatch is Exact ==> list.state(
            k,
        ).option.range().revision == opts.revision,
        token is None && !(opts.revision > 0 && opts.revisionMatch is Exact) ==> list.state(
            k,
        ).option.range().revision == 0,
{
    lemma_kept(list, k);
}

/// The revision that a list tells, after each of its pages and so at its end:
/// the one that its requests name, or, where they name none, that of its first
/// answer.
pub proof fn list_tells_the_revision(
    list: Listing,
    k: int,
    pagingEnable: bool,
    keyPrefix: Seq<char>,
    opts: ListOption,
    token: Option<(Seq<char>, i64)>,
)
    requires
        begins(list.start, pagingEnable, keyPrefix, opts, token),
        0 < k,
    ensures
        ({
            let told = list.state(k).returnedRV;
            let first = list.pages[0].reply.revision->0;
            match token {
                Some((key, revision)) => {
                    &&& revision > 0 ==> told == revision
                    &&& revision <= 0 && first != 0 ==> told == first
                },
                None => {
                    &&& opts.revision > 0 && opts.revisionMatch is Exact ==> told == opts.revision
                    &&& !(opts.revision > 0 && opts.revisionMatch is Exact) && first != 0 ==> told
                        == first
                },
            }
        }),
    decreases k,
{
    if k > 1 {
        list_tells_the_revision(list, k - 1, pagingEnable, keyPrefix, opts, token);
    } else {
        assert(list.state(0) == list.start);
    }
}

/// A list refuses every answer of a revision below the one that its caller asks
/// for, at each of its requests, fresh or from a token and however that revision
/// is to be matched; the error tells both. No other answer is refused for its
/// revision.
pub proof fn list_refuses_old_answers(
    list: Listing,
    k: int,
    pagingEnable: bool,
    keyPrefix: Seq<char>,
    opts: ListOption,
    token: Option<(Seq<char>, i64)>,
    reply: RangeReplyView,
    verdicts: Seq<Verdict>,
)
    requires
        begins(list.start, pagingEnable, keyPrefix, opts, token),
    ensures
        opts.revision != 0 && reply.revision->0 < opts.revision ==> list.state(k).fault(
            reply,
            verdicts,
        ) == Some(
            FaultView::Refused(
                ErrorView::MinRevsionErr {
                    minRevision: opts.revision,
                    actualRevision: reply.revision->0,
                },
            ),
        ),
        opts.revision == 0 || opts.revision <= reply.revision->0 ==> !(list.state(k).fault(
            reply,
            verdicts,
        ) matches Some(FaultView::Refused(ErrorView::MinRevsionErr { .. }))),
{
    lemma_kept(list, k);
}

/// How many of the first `n` objects of a page match.
pub open spec fn match_count(verdicts: Seq<Verdict>, n: int) -> nat
    decreases n,
{
    if n <= 0 {
        0
    } else {
        match_count(verdicts, n - 1) + (if verdicts[n - 1] is Match {
            1nat
        } else {
            0nat
        })
    }
}

proof fn lemma_match_count(kvs: Seq<KeyValueView>, verdicts: Seq<Verdict>, n: int)
    ensures
        selected(kvs, verdicts, n).len() == match_count(verdicts, n),
    decreases n,
{
    if n > 0 {
        lemma_match_count(kvs, verdicts, n - 1);
    }
}

proof fn lemma_match_count_grows(verdicts: Seq<Verdict>, a: int, b: int)
    requires
        a <= b,
    ensures
        match_count(verdicts, a) <= match_count(verdicts, b),
    decreases b - a,
{
    if a < b {
        lemma_match_count_grows(verdicts, a, b - 1);
    }
}

/// The object at position `i` of a page cannot be judged, all before it can, and
/// they do not fill the list.
pub open spec fn breaks_at(list: ListView, verdicts: Seq<Verdict>, i: int) -> bool {
    &&& 0 <= i < verdicts.len()
    &&& verdicts[i] is Fail
    &&& forall|j: int| 0 <= j < i ==> !(#[trigger] verdicts[j] is Fail)
    &&& list.paging ==> list.objs.len() + match_count(verdicts, i) < list.predLimit
}

/// When a list refuses a page, and why: an answer that is too old; a page
/// without keys that says that there are more; the first object that cannot be
/// judged, if those before it do not fill the list. It takes every other page.
pub proof fn list_takes_all_other_pages(
    list: ListView,
    reply: RangeReplyView,
    verdicts: Seq<Verdict>,
)
    requires
        list.wf(),
        list.phase is Fetch,
        reply.revision is Some,
        reply.kvs.len() == verdicts.len(),
    ensures
        ({
            let old = list.minRevision != 0 && reply.revision->0 < list.minRevision;
            let hollow = reply.kvs.len() == 0 && reply.more;
            let fault = list.fault(reply, verdicts);
            &&& old ==> fault == Some(
                FaultView::Refused(
                    ErrorView::MinRevsionErr {
                        minRevision: list.minRevision,
                        actualRevision: reply.revision->0,
                    },
                ),
            )
            &&& !old && hollow ==> fault == Some(
                FaultView::Refused(
                    ErrorView::CommonError(
                        "no results were found, but etcd indicated there were more values remaining"@,
                    ),
                ),
            )
            &&& !old && !hollow ==> {
                &&& forall|i: int| #[trigger]
                    breaks_at(list, verdicts, i) ==> fault == Some(FaultView::Object(i))
                &&& fault matches Some(f) ==> f matches FaultView::Object(i) && breaks_at(
                    list,
                    verdicts,
                    i,
                )
            }
        }),
{
    let have = list.objs.len() as int;
    let n = list.stops_at(verdicts);
    page_end_is_first_stop(reply.kvs, verdicts, have, list.paging, list.predLimit as int);
    lemma_match_count(reply.kvs, verdicts, n);
    assert forall|i: int| #[trigger] breaks_at(list, verdicts, i) implies i == n by {
        if n < i {
            lemma_match_count_grows(verdicts, n, i);
        }
        if i < n {
            assert(verdicts[i] is Fail);
        }
    }
}

/// How a page that a list takes moves it. `n` is how many of the page's objects
/// it judges: all of them, or those up to the one that fills it. It ends if it
/// judged all and the server has no more; else it goes on if it pages and is not
/// full, and leaves a token if not. Its last key is the last that it judged.
pub proof fn page_moves_the_list(
    list: ListView,
    reply: RangeReplyView,
    verdicts: Seq<Verdict>,
) -> (n: int)
    requires
        list.wf(),
        list.phase is Fetch,
        reply.revision is Some,
        reply.kvs.len() == verdicts.len(),
        list.fault(reply, verdicts) is None,
    ensures
        ({
            let after = list.after(reply, verdicts);
            let more = n < verdicts.len() || reply.more;
            let full = list.paging && after.objs.len() >= list.predLimit;
            &&& 0 <= n <= verdicts.len()
            &&& n < verdicts.len() ==> full
            &&& forall|i: int| 0 <= i < n ==> !(#[trigger] verdicts[i] is Fail)
            &&& n > 0 && list.paging ==> list.objs.len() + match_count(verdicts, n - 1)
                < list.predLimit
            &&& after.objs.len() == list.objs.len() + match_count(verdicts, n)
            &&& after.objs.take(list.objs.len() as int) == list.objs
            &&& after.phase is Done <==> !more
            &&& after.phase is Encode <==> more && (full || !list.paging)
            &&& after.phase is Fetch <==> more && list.paging && !full
            &&& n > 0 ==> after.lastKey == reply.kvs[n - 1].key
            &&& n == 0 ==> after.lastKey == list.lastKey
            &&& after.count == reply.count
        }),
{
    let have = list.objs.len() as int;
    let n = list.stops_at(verdicts);
    page_end_is_first_stop(reply.kvs, verdicts, have, list.paging, list.predLimit as int);
    lemma_match_count(reply.kvs, verdicts, n);
    lemma_match_count(reply.kvs, verdicts, n - 1);
    assert(list.after(reply, verdicts).objs.take(have) =~= list.objs);
    n
}

/// How many objects remain after a list is told only where it leaves a token and
/// has no selectors: as many as the server counts in the range of the last
/// request, less the limit. Else it is -1.
pub proof fn remaining_count_is_told_without_selectors(
    list: Listing,
    k: int,
    pagingEnable: bool,
    keyPrefix: Seq<char>,
    opts: ListOption,
    token: Option<(Seq<char>, i64)>,
)
    requires
        begins(list.start, pagingEnable, keyPrefix, opts, token),
        0 < k,
    ensures
        opts.predicate.empty && list.state(k).phase is Encode ==> list.state(k).remaining()
            == list.pages[k - 1].reply.count - (opts.predicate.limit as i64),
        !(opts.predicate.empty && list.state(k).phase is Encode) ==> list.state(k).remaining()
            == -1,
{
    lemma_kept(list, k);
}

/// The keys that the first request of a list from a token ranges over: from the
/// token's key on, those under the list's prefix, and those before it if the
/// token's key comes before the prefix.
pub proof fn token_list_ranges_from_its_key(
    list: ListView,
    keyPrefix: Seq<char>,
    opts: ListOption,
    key: Seq<char>,
    revision: i64,
    candidate: Seq<u8>,
)
    requires
        keyPrefix.len() > 0,
        keyPrefix.last() == '/',
        begins(list, true, keyPrefix, opts, Some((key, revision))),
    ensures
        covers(list.option.range(), list.key, candidate) <==> key_le(encode_utf8(key), candidate)
            && (encode_utf8(keyPrefix).is_prefix_of(candidate) || key_lt(
            candidate,
            encode_utf8(keyPrefix),
        )),
        encode_utf8(keyPrefix).is_prefix_of(encode_utf8(key)) ==> (covers(
            list.option.range(),
            list.key,
            candidate,
        ) <==> key_le(encode_utf8(key), candidate) && encode_utf8(keyPrefix).is_prefix_of(
            candidate,
        )),
{
    let prefix = encode_utf8(keyPrefix);
    let end = prefix_end(prefix);
    lemma_directory(keyPrefix, prefix);
    lemma_directory(keyPrefix, candidate);
    key_order_is_total(prefix, candidate);
    if key_lt(candidate, prefix) {
        key_order_is_transitive(candidate, prefix, end);
    }
    if prefix.is_prefix_of(encode_utf8(key)) && key_le(encode_utf8(key), candidate) {
        lemma_from(keyPrefix, encode_utf8(key), candidate);
    }
}

/// From a key under a prefix on, the keys below the end of the prefix's range
/// are those that start with the prefix.
proof fn lemma_from(keyPrefix: Seq<char>, key: Seq<u8>, candidate: Seq<u8>)
    requires
        keyPrefix.len() > 0,
        keyPrefix.last() == '/',
        encode_utf8(keyPrefix).is_prefix_of(key),
        key_le(key, candidate),
    ensures
        ({
            let end = prefix_end(encode_utf8(keyPrefix));
            &&& end.len() > 0
            &&& end != seq![0u8]
            &&& key_lt(candidate, end) <==> encode_utf8(keyPrefix).is_prefix_of(candidate)
        }),
{
    let prefix = encode_utf8(keyPrefix);
    lemma_directory(keyPrefix, key);
    lemma_directory(keyPrefix, candidate);
    if prefix != key && key != candidate {
        key_order_is_transitive(prefix, key, candidate);
    }
}

/// The keys that the first request of a list ranges over that goes on from the
/// token of another: those under the prefix after the last key of that one, all
/// of them and no others.
pub proof fn token_list_ranges_after_the_last_key(
    before: ListView,
    list: ListView,
    opts: ListOption,
    revision: i64,
    candidate: Seq<u8>,
)
    requires
        before.wf(),
        valid_utf8(before.lastKey),
        encode_utf8(before.keyPrefix).is_prefix_of(before.lastKey),
        begins(list, true, before.keyPrefix, opts, Some((before.next_key(), revision))),
    ensures
        covers(list.option.range(), list.key, candidate) <==> key_lt(before.lastKey, candidate)
            && encode_utf8(before.keyPrefix).is_prefix_of(candidate),
{
    next_key_bytes(before);
    next_key_follows_immediately(before.lastKey, candidate);
    token_list_ranges_from_its_key(
        list,
        before.keyPrefix,
        opts,
        before.next_key(),
        revision,
        candidate,
    );
}

/// The keys that the next request of a list that goes on ranges over: those
/// under its prefix after the last key of the page, all of them and no others.
pub proof fn next_request_ranges_after_the_page(
    list: ListView,
    reply: RangeReplyView,
    verdicts: Seq<Verdict>,
    candidate: Seq<u8>,
)
    requires
        list.wf(),
        list.phase is Fetch,
        reply.revision is Some,
        reply.kvs.len() == verdicts.len(),
        list.fault(reply, verdicts) is None,
        list.after(reply, verdicts).phase is Fetch,
        reply.kvs.len() > 0 ==> encode_utf8(list.keyPrefix).is_prefix_of(reply.kvs.last().key),
    ensures
        reply.kvs.len() > 0,
        ({
            let after = list.after(reply, verdicts);
            covers(after.option.range(), after.key, candidate) <==> key_lt(
                reply.kvs.last().key,
                candidate,
            ) && encode_utf8(list.keyPrefix).is_prefix_of(candidate)
        }),
{
    let n = page_moves_the_list(list, reply, verdicts);
    let last = reply.kvs.last().key;
    page_end_is_first_stop(
        reply.kvs,
        verdicts,
        list.objs.len() as int,
        list.paging,
        list.predLimit as int,
    );
    assert(list.stops_at(verdicts) == reply.kvs.len());
    next_key_follows_immediately(last, candidate);
    let prefix = encode_utf8(list.keyPrefix);
    assert(prefix.is_prefix_of(following(last)));
    lemma_directory(list.keyPrefix, last);
    if key_le(following(last), candidate) {
        lemma_from(list.keyPrefix, following(last), candidate);
    }
}

} // verus!
