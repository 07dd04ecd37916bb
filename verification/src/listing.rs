//! Whole lists, from the first request to the last, and chains of them.
//!
//! As in [`crate::paging`], the server's keys are `rows`, in ascending order.
//! `judge` is what the selectors of a list say of a row.

use vstd::prelude::*;

#[allow(unused_imports)]
use crate::list::{
    list_prefix, list_start, named_revision, page_end_is_first_stop, selected, ListView, Verdict,
    MAX_LIMIT,
};
#[allow(unused_imports)]
use crate::paging::{
    all_match, answers_page, ascending, continued_range_follows_on, lemma_moves_on,
    lemma_select_all, list_ranges_over_its_prefix, lemma_serves_span, matching_rows, next_key_bytes, objects,
    pages_keep_the_list_well_formed, pages_keep_the_request, selected_objects_ascend, serves,
    spans, token_follows_last_object,
};
#[allow(unused_imports)]
use crate::types::{KeyValueView, ListOption, ObjectView, RangeReplyView};
#[allow(unused_imports)]
use vstd::arithmetic::power2::{
    lemma2_to64, lemma_pow2_strictly_increases, lemma_pow2_unfold, pow2,
};
#[allow(unused_imports)]
use vstd::utf8::valid_utf8;

verus! {

/// What the selectors say of each of `rows`.
pub open spec fn judged(
    judge: spec_fn(KeyValueView) -> Verdict,
    rows: Seq<KeyValueView>,
) -> Seq<Verdict> {
    Seq::new(rows.len(), |i: int| judge(rows[i]))
}

/// The objects that match among the first `n` of `rows`, in order.
pub open spec fn matching(
    judge: spec_fn(KeyValueView) -> Verdict,
    rows: Seq<KeyValueView>,
    n: int,
) -> Seq<ObjectView> {
    selected(rows, judged(judge, rows), n)
}

/// An answer of the server, and what the selectors say of its objects.
pub struct Page {
    pub reply: RangeReplyView,
    pub verdicts: Seq<Verdict>,
}

/// A list before its first request, and the answers to all its requests.
pub struct Listing {
    pub start: ListView,
    pub pages: Seq<Page>,
}

impl Listing {
    /// The list after its first `k` pages.
    pub open spec fn state(self, k: int) -> ListView
        decreases k,
    {
        if k <= 0 {
            self.start
        } else {
            self.state(k - 1).after(self.pages[k - 1].reply, self.pages[k - 1].verdicts)
        }
    }

    /// The list before its last request.
    pub open spec fn last(self) -> ListView {
        self.state(self.pages.len() - 1)
    }

    /// The list after its last page.
    pub open spec fn done(self) -> ListView {
        self.state(self.pages.len() as int)
    }

    /// Page `k` answers the list's request from `rows`, and the list takes it.
    pub open spec fn takes(
        self,
        rows: Seq<KeyValueView>,
        judge: spec_fn(KeyValueView) -> Verdict,
        k: int,
    ) -> bool {
        let page = self.pages[k];
        &&& self.state(k).phase is Fetch
        &&& serves(rows, self.state(k), page.reply)
        &&& page.verdicts == judged(judge, page.reply.kvs)
        &&& self.state(k).fault(page.reply, page.verdicts) is None
    }

    /// The list holds nothing at its start, and takes each of its pages from
    /// `rows`.
    pub open spec fn runs(
        self,
        rows: Seq<KeyValueView>,
        judge: spec_fn(KeyValueView) -> Verdict,
    ) -> bool {
        &&& self.start.wf()
        &&& self.start.objs.len() == 0
        &&& self.pages.len() > 0
        &&& forall|k: int| 0 <= k < self.pages.len() ==> #[trigger] self.takes(rows, judge, k)
    }

    /// The list makes no further request.
    pub open spec fn ended(self) -> bool {
        !(self.done().phase is Fetch)
    }

    /// How many rows the first `k` pages hold.
    pub open spec fn passed(self, k: int) -> nat
        decreases k,
    {
        if k <= 0 {
            0
        } else {
            self.passed(k - 1) + self.pages[k - 1].reply.kvs.len()
        }
    }

    /// How many rows of its range the list has judged.
    pub open spec fn reach(self) -> int {
        self.passed(self.pages.len() - 1) + self.last().stops_at(self.pages.last().verdicts)
    }

    /// The list leaves a token.
    pub open spec fn leaves_token(self) -> bool {
        self.done().phase is Encode && valid_utf8(self.done().lastKey)
    }

    /// The list goes on from the token of another.
    pub open spec fn follows(self, before: Listing, opts: ListOption) -> bool {
        &&& opts.predicate.hasContinue
        &&& self.start == list_start(true, before.start.keyPrefix, opts).resumed(
            before.done().next_key(),
            before.done().returnedRV,
        )
    }
}

/// The rows that match among the first `a`, and then those among the next `b`,
/// are those among the first `a + b`.
proof fn lemma_matching_concat(
    judge: spec_fn(KeyValueView) -> Verdict,
    rows: Seq<KeyValueView>,
    a: int,
    b: int,
)
    requires
        0 <= a,
        0 <= b,
        a + b <= rows.len(),
    ensures
        matching(judge, rows, a + b) == matching(judge, rows, a) + matching(
            judge,
            rows.skip(a),
            b,
        ),
    decreases b,
{
    if b > 0 {
        lemma_matching_concat(judge, rows, a, b - 1);
        assert(rows.skip(a)[b - 1] == rows[a + b - 1]);
    }
    assert(matching(judge, rows, a + b) =~= matching(judge, rows, a) + matching(
        judge,
        rows.skip(a),
        b,
    ));
}

/// Which of the first rows match does not depend on those that come later.
proof fn lemma_matching_prefix(
    judge: spec_fn(KeyValueView) -> Verdict,
    rows: Seq<KeyValueView>,
    len: int,
    n: int,
)
    requires
        0 <= n <= len <= rows.len(),
    ensures
        matching(judge, rows.take(len), n) == matching(judge, rows, n),
    decreases n,
{
    if n > 0 {
        lemma_matching_prefix(judge, rows, len, n - 1);
        assert(rows.take(len)[n - 1] == rows[n - 1]);
    }
}

/// The matching rows of a page are the next ones of the list's range.
proof fn lemma_page_matches(
    rows: Seq<KeyValueView>,
    judge: spec_fn(KeyValueView) -> Verdict,
    lo: int,
    hi: int,
    at: int,
    page: Page,
    limit: i64,
    n: int,
)
    requires
        0 <= lo <= at,
        answers_page(rows, at, hi, limit, page.reply),
        page.verdicts == judged(judge, page.reply.kvs),
        0 <= n <= page.reply.kvs.len(),
    ensures
        matching(judge, rows.subrange(lo, hi), at - lo + n) == matching(
            judge,
            rows.subrange(lo, hi),
            at - lo,
        ) + selected(page.reply.kvs, page.verdicts, n),
{
    let all = rows.subrange(lo, hi);
    let rest = all.skip(at - lo);
    lemma_matching_concat(judge, all, at - lo, n);
    assert(page.reply.kvs =~= rest.take(page.reply.kvs.len() as int));
    lemma_matching_prefix(judge, rest, page.reply.kvs.len() as int, n);
}

/// Before each of its requests a list has judged the first rows of its range,
/// and holds those that match; the request ranges over the rest.
proof fn lemma_state(
    rows: Seq<KeyValueView>,
    judge: spec_fn(KeyValueView) -> Verdict,
    lo: int,
    hi: int,
    list: Listing,
    k: int,
)
    requires
        ascending(rows),
        list.runs(rows, judge),
        spans(rows, list.start.option.range(), list.start.key, lo, hi),
        0 <= k < list.pages.len(),
    ensures
        ({
            let state = list.state(k);
            let at = lo + list.passed(k);
            &&& state.wf()
            &&& state.keyPrefix == list.start.keyPrefix
            &&& state.predLimit == list.start.predLimit
            &&& state.paging == list.start.paging
            &&& k > 0 ==> state.paging && at < hi
            &&& at <= hi
            &&& spans(rows, state.option.range(), state.key, at, hi)
            &&& answers_page(rows, at, hi, state.option.range().limit, list.pages[k].reply)
            &&& state.objs == matching(judge, rows.subrange(lo, hi), list.passed(k) as int)
        }),
    decreases k,
{
    let state = list.state(k);
    let at = lo + list.passed(k);
    assert(list.takes(rows, judge, k));
    if k == 0 {
        assert(state.objs =~= matching(judge, rows.subrange(lo, hi), 0));
    } else {
        lemma_state(rows, judge, lo, hi, list, k - 1);
        assert(list.takes(rows, judge, k - 1));
        let before = list.state(k - 1);
        let page = list.pages[k - 1];
        let was = lo + list.passed(k - 1);
        pages_keep_the_list_well_formed(before, page.reply, page.verdicts);
        pages_keep_the_request(before, page.reply, page.verdicts);
        lemma_moves_on(rows, was, hi, before, page.reply, page.verdicts);
        continued_range_follows_on(rows, was, hi, at - 1, before, state);
        lemma_page_matches(
            rows,
            judge,
            lo,
            hi,
            was,
            page,
            before.option.range().limit,
            page.reply.kvs.len() as int,
        );
    }
    lemma_serves_span(rows, state, list.pages[k].reply, at, hi);
}

/// However many requests it takes, a list holds the first matching rows of its
/// range, each once and in order. It is done exactly if it has judged all rows
/// of the range, so that these are all that match. Else it leaves a token: rows
/// remain, the objects are as many as it was asked for, the last of them is the
/// last row that the list judged, and the list's last key is the key of that
/// row.
pub proof fn list_holds_first_matches(
    rows: Seq<KeyValueView>,
    judge: spec_fn(KeyValueView) -> Verdict,
    lo: int,
    hi: int,
    list: Listing,
)
    requires
        ascending(rows),
        list.runs(rows, judge),
        list.ended(),
        spans(rows, list.start.option.range(), list.start.key, lo, hi),
    ensures
        0 <= list.reach() <= hi - lo,
        list.done().objs == matching(judge, rows.subrange(lo, hi), list.reach()),
        list.done().phase is Done || list.done().phase is Encode,
        list.done().phase is Done <==> list.reach() == hi - lo,
        list.done().phase is Encode <==> list.reach() < hi - lo,
        list.done().phase is Encode ==> {
            &&& list.start.paging
            &&& list.reach() > 0
            &&& list.done().objs.len() == list.start.predLimit
            &&& list.done().objs.last() == rows[lo + list.reach() - 1].object()
            &&& list.done().lastKey == rows[lo + list.reach() - 1].key
        },
        !list.start.paging ==> list.done().phase is Done,
        list.start.paging ==> list.done().objs.len() <= list.start.predLimit,
{
    let k = list.pages.len() - 1;
    let page = list.pages[k];
    let last = list.last();
    let at = lo + list.passed(k);
    let n = last.stops_at(page.verdicts);
    lemma_state(rows, judge, lo, hi, list, k);
    assert(list.takes(rows, judge, k));
    page_end_is_first_stop(
        page.reply.kvs,
        page.verdicts,
        last.objs.len() as int,
        last.paging,
        last.predLimit as int,
    );
    lemma_page_matches(rows, judge, lo, hi, at, page, last.option.range().limit, n);
    pages_keep_the_list_well_formed(last, page.reply, page.verdicts);
    if list.done().phase is Encode {
        assert(last.paging);
        token_follows_last_object(last, page.reply, page.verdicts);
    }
}

/// The objects of a list are those of rows of its range in strictly ascending
/// order of their keys: no stored object occurs twice.
pub proof fn list_is_in_key_order(
    rows: Seq<KeyValueView>,
    judge: spec_fn(KeyValueView) -> Verdict,
    lo: int,
    hi: int,
    list: Listing,
)
    requires
        ascending(rows),
        list.runs(rows, judge),
        list.ended(),
        spans(rows, list.start.option.range(), list.start.key, lo, hi),
    ensures
        ({
            let range = rows.subrange(lo, hi);
            let held = matching_rows(range, judged(judge, range), list.reach());
            &&& list.done().objs == objects(held)
            &&& ascending(held)
            &&& forall|p: int| 0 <= p < held.len() ==> range.contains(#[trigger] held[p])
        }),
{
    let range = rows.subrange(lo, hi);
    let n = list.reach();
    let held = matching_rows(range, judged(judge, range), n);
    list_holds_first_matches(rows, judge, lo, hi, list);
    assert(ascending(range));
    selected_objects_ascend(range, judged(judge, range), n);
    assert forall|p: int| 0 <= p < held.len() implies range.contains(#[trigger] held[p]) by {
        assert(range.take(n).contains(held[p]));
        let i = range.take(n).index_of(held[p]);
        assert(range[i] == held[p]);
    }
}

/// Every page of a list but the last is full and is followed by rows, so the
/// list ends: it makes no more requests than there are rows, or one if there
/// are none. The pages grow, so it makes no more than it takes to double one
/// key to [`MAX_LIMIT`], and one more for each further [`MAX_LIMIT`] rows.
pub proof fn list_ends(
    rows: Seq<KeyValueView>,
    judge: spec_fn(KeyValueView) -> Verdict,
    lo: int,
    hi: int,
    list: Listing,
)
    requires
        ascending(rows),
        list.runs(rows, judge),
        spans(rows, list.start.option.range(), list.start.key, lo, hi),
    ensures
        list.pages.len() <= 1 || list.pages.len() <= hi - lo,
        (list.pages.len() - 14) * MAX_LIMIT <= hi - lo,
{
    let k = list.pages.len() - 1;
    lemma_growth(rows, judge, lo, hi, list, k);
    lemma_state(rows, judge, lo, hi, list, k);
    lemma2_to64();
}

/// The pages of a list double in size up to [`MAX_LIMIT`].
proof fn lemma_growth(
    rows: Seq<KeyValueView>,
    judge: spec_fn(KeyValueView) -> Verdict,
    lo: int,
    hi: int,
    list: Listing,
    k: int,
)
    requires
        ascending(rows),
        list.runs(rows, judge),
        spans(rows, list.start.option.range(), list.start.key, lo, hi),
        0 <= k < list.pages.len(),
    ensures
        list.start.paging ==> list.state(k).limit >= MAX_LIMIT || list.state(k).limit >= pow2(
            k as nat,
        ),
        k <= list.passed(k),
        k <= 14 ==> pow2(k as nat) - 1 <= list.passed(k),
        k >= 14 ==> pow2(14) - 1 + (k - 14) * MAX_LIMIT <= list.passed(k),
    decreases k,
{
    lemma_state(rows, judge, lo, hi, list, k);
    lemma2_to64();
    if k > 0 {
        lemma_growth(rows, judge, lo, hi, list, k - 1);
        lemma_state(rows, judge, lo, hi, list, k - 1);
        assert(list.takes(rows, judge, k - 1));
        assert(list.takes(rows, judge, k));
        let before = list.state(k - 1);
        let page = list.pages[k - 1];
        pages_keep_the_request(before, page.reply, page.verdicts);
        lemma_moves_on(
            rows,
            lo + list.passed(k - 1),
            hi,
            before,
            page.reply,
            page.verdicts,
        );
        lemma_pow2_unfold(k as nat);
        if k - 1 > 14 {
            lemma_pow2_strictly_increases(14, (k - 1) as nat);
        } else if k - 1 < 13 {
            lemma_pow2_strictly_increases((k - 1) as nat, 13);
        }
    }
}

/// How many rows the first `n` lists of a chain have judged.
pub open spec fn reached(lists: Seq<Listing>, n: int) -> int
    decreases n,
{
    if n <= 0 {
        0
    } else {
        reached(lists, n - 1) + lists[n - 1].reach()
    }
}

/// The objects of the first `n` lists of a chain, in a row.
pub open spec fn collected(lists: Seq<Listing>, n: int) -> Seq<ObjectView>
    decreases n,
{
    if n <= 0 {
        Seq::empty()
    } else {
        collected(lists, n - 1) + lists[n - 1].done().objs
    }
}

/// List `k` of a chain goes on from the token of the one before it.
pub open spec fn goes_on(lists: Seq<Listing>, opts: Seq<ListOption>, k: int) -> bool {
    lists[k - 1].leaves_token() && lists[k].follows(lists[k - 1], opts[k])
}

/// Each list but the first goes on from the token of the one before it.
pub open spec fn chain(
    rows: Seq<KeyValueView>,
    judge: spec_fn(KeyValueView) -> Verdict,
    lists: Seq<Listing>,
    opts: Seq<ListOption>,
) -> bool {
    &&& lists.len() > 0
    &&& opts.len() == lists.len()
    &&& forall|k: int|
        0 <= k < lists.len() ==> (#[trigger] lists[k]).runs(rows, judge) && lists[k].ended()
    &&& forall|k: int| 0 < k < lists.len() ==> #[trigger] goes_on(lists, opts, k)
}

/// Lists with the same selectors, each from the token of the one before it,
/// over the same rows: in a row, they hold the matching rows of the first
/// list's range from its start on, in order and each once; and all of them
/// exactly if the last list is done. Each list that leaves a token has moved on, so there
/// are no more of them than rows.
pub proof fn chained_lists_hold_every_match_once(
    rows: Seq<KeyValueView>,
    judge: spec_fn(KeyValueView) -> Verdict,
    lo: int,
    hi: int,
    lists: Seq<Listing>,
    opts: Seq<ListOption>,
)
    requires
        ascending(rows),
        chain(rows, judge, lists, opts),
        spans(rows, lists[0].start.option.range(), lists[0].start.key, lo, hi),
    ensures
        lists.len() - 1 <= reached(lists, lists.len() as int) <= hi - lo,
        collected(lists, lists.len() as int) == matching(
            judge,
            rows.subrange(lo, hi),
            reached(lists, lists.len() as int),
        ),
        lists.last().done().phase is Done <==> reached(lists, lists.len() as int) == hi - lo,
{
    lemma_chain_holds(rows, judge, lo, hi, lists, opts, lists.len() as int);
}

proof fn lemma_chain_holds(
    rows: Seq<KeyValueView>,
    judge: spec_fn(KeyValueView) -> Verdict,
    lo: int,
    hi: int,
    lists: Seq<Listing>,
    opts: Seq<ListOption>,
    n: int,
)
    requires
        ascending(rows),
        chain(rows, judge, lists, opts),
        0 < n <= lists.len(),
        spans(rows, lists[0].start.option.range(), lists[0].start.key, lo, hi),
    ensures
        n - 1 <= reached(lists, n - 1) <= reached(lists, n) <= hi - lo,
        spans(
            rows,
            lists[n - 1].start.option.range(),
            lists[n - 1].start.key,
            lo + reached(lists, n - 1),
            hi,
        ),
        collected(lists, n) == matching(judge, rows.subrange(lo, hi), reached(lists, n)),
        lists[n - 1].done().phase is Done <==> reached(lists, n) == hi - lo,
    decreases n,
{
    let list = lists[n - 1];
    let range = rows.subrange(lo, hi);
    if n == 1 {
        assert(reached(lists, 0) == 0 && collected(lists, 0) == Seq::<ObjectView>::empty());
        list_holds_first_matches(rows, judge, lo, hi, list);
        assert(collected(lists, 1) =~= list.done().objs);
    } else {
        lemma_chain_holds(rows, judge, lo, hi, lists, opts, n - 1);
        let before = lists[n - 2];
        let at = lo + reached(lists, n - 2);
        let mid = lo + reached(lists, n - 1);
        assert(goes_on(lists, opts, n - 1));
        list_holds_first_matches(rows, judge, at, hi, before);
        assert(before.done().lastKey == rows[mid - 1].key);
        assert(before.takes(rows, judge, 0));
        next_key_bytes(before.done());
        continued_range_follows_on(rows, at, hi, mid - 1, before.start, list.start);
        list_holds_first_matches(rows, judge, mid, hi, list);
        lemma_matching_concat(judge, range, mid - lo, list.reach());
        assert(range.skip(mid - lo) =~= rows.subrange(mid, hi));
    }
}

/// Lists without selectors, each from the token of the one before it, over the
/// same rows: in a row, they hold the rows of the first list's range from its
/// start on, in order and each once; and all of them exactly if the last list
/// is done.
pub proof fn chained_lists_hold_every_row_once(
    rows: Seq<KeyValueView>,
    lo: int,
    hi: int,
    lists: Seq<Listing>,
    opts: Seq<ListOption>,
)
    requires
        ascending(rows),
        chain(rows, |kv: KeyValueView| Verdict::Match, lists, opts),
        spans(rows, lists[0].start.option.range(), lists[0].start.key, lo, hi),
    ensures
        0 <= reached(lists, lists.len() as int) <= hi - lo,
        collected(lists, lists.len() as int) == objects(
            rows.subrange(lo, lo + reached(lists, lists.len() as int)),
        ),
        lists.last().done().phase is Done <==> reached(lists, lists.len() as int) == hi - lo,
{
    let judge = |kv: KeyValueView| Verdict::Match;
    let range = rows.subrange(lo, hi);
    let n = reached(lists, lists.len() as int);
    chained_lists_hold_every_match_once(rows, judge, lo, hi, lists, opts);
    assert(all_match(judged(judge, range)));
    lemma_select_all(range, judged(judge, range), n);
    assert(range.take(n) =~= rows.subrange(lo, lo + n));
}

/// A list that goes on from the token of another reads at the revision of that
/// one, and has that revision itself.
pub proof fn continued_list_keeps_the_revision(before: Listing, list: Listing, opts: ListOption)
    requires
        list.follows(before, opts),
        before.done().returnedRV > 0,
    ensures
        list.start.option.revision == Some(before.done().returnedRV),
        forall|k: int|
            0 <= k ==> (#[trigger] list.state(k)).option.revision == Some(
                before.done().returnedRV,
            ) && list.state(k).returnedRV == before.done().returnedRV,
{
    assert forall|k: int| 0 <= k implies (#[trigger] list.state(k)).option.revision == Some(
        before.done().returnedRV,
    ) && list.state(k).returnedRV == before.done().returnedRV by {
        lemma_revision_stays(list, k);
    }
}

proof fn lemma_revision_stays(list: Listing, k: int)
    requires
        0 <= k,
        list.start.returnedRV != 0,
    ensures
        list.state(k).option.revision == list.start.option.revision,
        list.state(k).returnedRV == list.start.returnedRV,
    decreases k,
{
    if k > 0 {
        lemma_revision_stays(list, k - 1);
    }
}

/// The revision at which the server reads for a request: the one that the
/// request names, or the newest, which the answer tells.
pub open spec fn read_at(list: ListView, reply: RangeReplyView) -> i64 {
    if list.option.range().revision > 0 {
        list.option.range().revision
    } else {
        reply.revision->0
    }
}

impl Listing {
    /// The revision at which the list's first request is read.
    pub open spec fn revision(self) -> i64 {
        read_at(self.start, self.pages[0].reply)
    }

    /// The list holds nothing at its start, and takes each of its pages from
    /// the rows of the revision at which the request is read.
    pub open spec fn runs_through(
        self,
        history: spec_fn(i64) -> Seq<KeyValueView>,
        judge: spec_fn(KeyValueView) -> Verdict,
    ) -> bool {
        &&& self.start.wf()
        &&& self.start.objs.len() == 0
        &&& self.pages.len() > 0
        &&& forall|k: int|
            0 <= k < self.pages.len() ==> #[trigger] self.takes(
                history(read_at(self.state(k), self.pages[k].reply)),
                judge,
                k,
            )
    }

    /// All requests of the list are read at one revision. So are those of a list
    /// that names one, and of a list that takes one request.
    pub open spec fn steady(self) -> bool {
        forall|k: int|
            0 <= k < self.pages.len() ==> #[trigger] read_at(self.state(k), self.pages[k].reply)
                == self.revision()
    }

    /// The list names the revision that it has, if it has one.
    pub open spec fn names_its_revision(self) -> bool {
        &&& self.start.returnedRV >= 0
        &&& self.start.option.revision == named_revision(self.start.returnedRV)
    }
}

/// After its first page a list has the revision at which that was read.
proof fn lemma_revision_is_told(list: Listing, k: int)
    requires
        list.names_its_revision(),
        list.revision() > 0,
        0 < k,
    ensures
        list.state(k).returnedRV == list.revision(),
    decreases k,
{
    if k > 1 {
        lemma_revision_is_told(list, k - 1);
    } else {
        assert(list.state(0) == list.start);
    }
}

/// A list that names a revision reads at that one with every request.
pub proof fn named_revision_is_steady(list: Listing)
    requires
        list.names_its_revision(),
        list.start.returnedRV > 0,
    ensures
        list.steady(),
        list.revision() == list.start.returnedRV,
{
    assert forall|k: int| 0 <= k < list.pages.len() implies #[trigger] read_at(
        list.state(k),
        list.pages[k].reply,
    ) == list.revision() by {
        lemma_revision_stays(list, k);
    }
}

/// A list that reads at one revision takes its pages from the rows of that.
proof fn lemma_steady_runs(
    history: spec_fn(i64) -> Seq<KeyValueView>,
    judge: spec_fn(KeyValueView) -> Verdict,
    list: Listing,
)
    requires
        list.runs_through(history, judge),
        list.steady(),
    ensures
        list.runs(history(list.revision()), judge),
{
    assert forall|k: int| 0 <= k < list.pages.len() implies #[trigger] list.takes(
        history(list.revision()),
        judge,
        k,
    ) by {
        assert(read_at(list.state(k), list.pages[k].reply) == list.revision());
        assert(list.takes(
            history(read_at(list.state(k), list.pages[k].reply)),
            judge,
            k,
        ));
    }
}

/// Each list but the first goes on from the token of the one before it, while
/// the server may change. Only the requests of the first list meet no change in
/// between, for they may name no revision.
pub open spec fn chain_through(
    history: spec_fn(i64) -> Seq<KeyValueView>,
    judge: spec_fn(KeyValueView) -> Verdict,
    lists: Seq<Listing>,
    opts: Seq<ListOption>,
) -> bool {
    &&& lists.len() > 0
    &&& opts.len() == lists.len()
    &&& lists[0].names_its_revision()
    &&& lists[0].steady()
    &&& lists[0].revision() > 0
    &&& forall|k: int|
        0 <= k < lists.len() ==> (#[trigger] lists[k]).runs_through(history, judge)
            && lists[k].ended()
    &&& forall|k: int| 0 < k < lists.len() ==> #[trigger] goes_on(lists, opts, k)
}

/// Lists that go on from each other's tokens all read, and tell, the revision
/// of the first, whatever is written meanwhile: they are a chain over the rows
/// of that revision.
pub proof fn chained_lists_read_one_revision(
    history: spec_fn(i64) -> Seq<KeyValueView>,
    judge: spec_fn(KeyValueView) -> Verdict,
    lists: Seq<Listing>,
    opts: Seq<ListOption>,
)
    requires
        chain_through(history, judge, lists, opts),
    ensures
        chain(history(lists[0].revision()), judge, lists, opts),
        forall|k: int|
            0 <= k < lists.len() ==> (#[trigger] lists[k]).steady() && lists[k].revision()
                == lists[0].revision() && lists[k].done().returnedRV == lists[0].revision(),
{
    assert forall|k: int| 0 <= k < lists.len() implies (#[trigger] lists[k]).steady()
        && lists[k].revision() == lists[0].revision() && lists[k].done().returnedRV
        == lists[0].revision() by {
        lemma_chain_revision(history, judge, lists, opts, k);
    }
    assert forall|k: int| 0 <= k < lists.len() implies (#[trigger] lists[k]).runs(
        history(lists[0].revision()),
        judge,
    ) && lists[k].ended() by {
        assert(lists[k].runs_through(history, judge));
        lemma_steady_runs(history, judge, lists[k]);
    }
}

proof fn lemma_chain_revision(
    history: spec_fn(i64) -> Seq<KeyValueView>,
    judge: spec_fn(KeyValueView) -> Verdict,
    lists: Seq<Listing>,
    opts: Seq<ListOption>,
    k: int,
)
    requires
        chain_through(history, judge, lists, opts),
        0 <= k < lists.len(),
    ensures
        lists[k].steady(),
        lists[k].revision() == lists[0].revision(),
        lists[k].done().returnedRV == lists[0].revision(),
    decreases k,
{
    let list = lists[k];
    assert(list.runs_through(history, judge));
    if k > 0 {
        lemma_chain_revision(history, judge, lists, opts, k - 1);
        assert(goes_on(lists, opts, k));
        named_revision_is_steady(list);
    }
    lemma_revision_is_told(list, list.pages.len() as int);
}

/// Lists from a fresh start on, each from the token of the one before it, hold
/// the first objects of a list without pages that asks for exactly the revision
/// that they tell; and all of them exactly if the last list is done. That holds
/// whatever is written between the lists.
pub proof fn chained_lists_hold_one_exact_list(
    history: spec_fn(i64) -> Seq<KeyValueView>,
    judge: spec_fn(KeyValueView) -> Verdict,
    prepared: Seq<char>,
    lists: Seq<Listing>,
    opts: Seq<ListOption>,
    pagingEnable: bool,
    exact: ListOption,
    whole: Listing,
)
    requires
        forall|revision: i64| ascending(#[trigger] history(revision)),
        chain_through(history, judge, lists, opts),
        !opts[0].predicate.hasContinue,
        lists[0].start == list_start(true, list_prefix(prepared), opts[0]),
        exact.revision == lists[0].revision(),
        exact.revisionMatch is Exact,
        !(pagingEnable && exact.predicate.hasContinue),
        !(pagingEnable && exact.predicate.limit > 0),
        whole.start == list_start(pagingEnable, list_prefix(prepared), exact),
        whole.runs_through(history, judge),
        whole.ended(),
    ensures
        whole.done().phase is Done,
        whole.done().returnedRV == lists[0].revision(),
        collected(lists, lists.len() as int).is_prefix_of(whole.done().objs),
        lists.last().done().phase is Done ==> collected(lists, lists.len() as int)
            == whole.done().objs,
{
    let rows = history(lists[0].revision());
    let first = lists[0].start;
    chained_lists_read_one_revision(history, judge, lists, opts);
    assert(ascending(rows));
    assert(lists[0].runs(rows, judge));
    assert(lists[0].takes(rows, judge, 0));
    let (lo, hi) = choose|lo: int, hi: int| #[trigger]
        spans(rows, first.option.range(), first.key, lo, hi) && answers_page(
            rows,
            lo,
            hi,
            first.option.range().limit,
            lists[0].pages[0].reply,
        );
    chained_lists_hold_every_match_once(rows, judge, lo, hi, lists, opts);

    named_revision_is_steady(whole);
    lemma_steady_runs(history, judge, whole);
    lemma_revision_is_told(whole, whole.pages.len() as int);
    assert forall|i: int| 0 <= i < rows.len() implies (lo <= i < hi <==> crate::server::covers(
        whole.start.option.range(),
        whole.start.key,
        (#[trigger] rows[i]).key,
    )) by {
        list_ranges_over_its_prefix(true, prepared, opts[0], rows[i].key);
        list_ranges_over_its_prefix(pagingEnable, prepared, exact, rows[i].key);
    }
    list_holds_first_matches(rows, judge, lo, hi, whole);
    let n = reached(lists, lists.len() as int);
    lemma_matching_concat(judge, rows.subrange(lo, hi), n, hi - lo - n);
}

} // verus!
