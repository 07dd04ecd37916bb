//! Listing the objects under a prefix, page by page.
//!
//! A list alternates requests to the server with decisions on its answers. A
//! [`ListCall`] holds the state in between: its phase says what it waits for,
//! and each answer takes it to the next state.

use vstd::prelude::*;

use crate::options::EtcdOption;
#[allow(unused_imports)]
use crate::options::OptionView;
#[allow(unused_imports)]
use crate::range::prefix_end;
use crate::store::EtcdStore;
#[allow(unused_imports)]
use crate::store::{prepared_key, too_old};
#[allow(unused_imports)]
use crate::text::{encode_utf8_concat, lemma_encode_ascii, string_from_utf8};
use crate::types::{DataObjList, DataObject, Error, ListOption, RangeReply, RevisionMatch};
#[allow(unused_imports)]
use crate::types::{object_views, ErrorView, KeyValueView, ObjectView, RangeReplyView};
#[allow(unused_imports)]
use vstd::utf8::{decode_utf8, encode_utf8, valid_utf8};

verus! {

/// The page size up to which a list grows its requests on its own. A list that
/// asks for a larger page from the start keeps that size.
pub const MAX_LIMIT: usize = 10000;

/// What the selectors of a list say of one stored object.
#[derive(Debug, Clone, Copy, PartialEq, Eq, Structural)]
pub enum Verdict {
    /// The object belongs to the list.
    Match,
    /// The object does not belong to the list.
    NoMatch,
    /// The object could not be decoded or judged.
    Fail,
}

/// What a list waits for.
#[derive(Debug, Clone, Copy, PartialEq, Eq, Structural)]
pub enum ListPhase {
    /// The key and the revision that the continue token stands for.
    Resume,
    /// The answer to the request for the next page.
    Fetch,
    /// The continue token for the key after the last one.
    Encode,
    /// Nothing: all that matches was listed.
    Done,
}

/// Why a page ends its list.
#[derive(Debug)]
pub enum ListFault {
    /// The store refuses the answer.
    Refused(Error),
    /// The page's object at this position could not be decoded or judged.
    Object(usize),
}

/// A list in progress.
#[derive(Debug)]
pub struct ListCall {
    keyPrefix: String,
    key: Vec<u8>,
    option: EtcdOption,
    paging: bool,
    predLimit: usize,
    predEmpty: bool,
    minRevision: i64,
    limit: usize,
    returnedRV: i64,
    objs: Vec<DataObject>,
    lastKey: Vec<u8>,
    count: i64,
    phase: ListPhase,
}

/// A [`ListCall`] as plain sequences.
#[verifier::ext_equal]
pub struct ListView {
    /// The prefix of all keys that the list may hold.
    pub keyPrefix: Seq<char>,
    /// The key at which the next request starts.
    pub key: Seq<u8>,
    /// The other options of the requests.
    pub option: OptionView,
    /// Whether the list stops at `predLimit` objects.
    pub paging: bool,
    pub predLimit: usize,
    /// Whether the list has no selectors.
    pub predEmpty: bool,
    /// The oldest revision that the list accepts.
    pub minRevision: i64,
    /// How many keys the next request asks for, in a list that pages.
    pub limit: usize,
    /// The revision of the list, or 0 until it is known.
    pub returnedRV: i64,
    /// The objects that the list holds so far.
    pub objs: Seq<ObjectView>,
    /// The last key that the list has judged.
    pub lastKey: Seq<u8>,
    /// How many keys the range of the last request holds.
    pub count: i64,
    pub phase: ListPhase,
}

impl View for ListCall {
    type V = ListView;

    closed spec fn view(&self) -> ListView {
        ListView {
            keyPrefix: self.keyPrefix@,
            key: self.key@,
            option: self.option@,
            paging: self.paging,
            predLimit: self.predLimit,
            predEmpty: self.predEmpty,
            minRevision: self.minRevision,
            limit: self.limit,
            returnedRV: self.returnedRV,
            objs: object_views(self.objs@),
            lastKey: self.lastKey@,
            count: self.count,
            phase: self.phase,
        }
    }
}

/// The prefix of the keys that a list holds: the prepared key as a directory.
pub open spec fn list_prefix(prepared: Seq<char>) -> Seq<char> {
    if prepared.len() > 0 && prepared.last() == '/' {
        prepared
    } else {
        prepared.push('/')
    }
}

/// The revision at which a list reads, 0 for the newest, unless it goes on
/// from an earlier one.
pub open spec fn pinned_revision(opts: ListOption) -> i64 {
    if opts.revision > 0 && opts.revisionMatch is Exact {
        opts.revision
    } else {
        0
    }
}

/// A revision as a request has it: the newest one is not named.
pub open spec fn named_revision(revision: i64) -> Option<i64> {
    if revision != 0 {
        Some(revision)
    } else {
        None
    }
}

/// The state of a list at its start. A list that goes on from an earlier one
/// waits for its token; a list in pages asks for the range of the prefix, and
/// any other for all keys with the prefix.
pub open spec fn list_start(
    pagingEnable: bool,
    keyPrefix: Seq<char>,
    opts: ListOption,
) -> ListView {
    let resume = pagingEnable && opts.predicate.hasContinue;
    let paging = pagingEnable && opts.predicate.limit > 0;
    let pinned = if resume {
        0
    } else {
        pinned_revision(opts)
    };
    ListView {
        keyPrefix,
        key: encode_utf8(keyPrefix),
        option: OptionView {
            limit: if paging {
                Some(opts.predicate.limit as i64)
            } else {
                None
            },
            endKey: if paging && !resume {
                Some(prefix_end(encode_utf8(keyPrefix)))
            } else {
                None
            },
            revision: named_revision(pinned),
            prefix: !paging && !resume,
        },
        paging,
        predLimit: opts.predicate.limit,
        predEmpty: opts.predicate.empty,
        minRevision: opts.revision,
        limit: opts.predicate.limit,
        returnedRV: pinned,
        objs: Seq::empty(),
        lastKey: Seq::empty(),
        count: 0,
        phase: if resume {
            ListPhase::Resume
        } else {
            ListPhase::Fetch
        },
    }
}

/// The key that follows `last` immediately, in the order of keys.
pub open spec fn following(last: Seq<u8>) -> Seq<u8> {
    last.push(0u8)
}

/// How many keys a list asks for after a page of `limit` keys that held too few
/// matching objects.
pub open spec fn grown(limit: usize) -> usize {
    if limit >= MAX_LIMIT {
        limit
    } else if 2 * limit > MAX_LIMIT {
        MAX_LIMIT
    } else {
        (2 * limit) as usize
    }
}

/// The position at which a list leaves a page, from position `from` on with
/// `have` objects so far: where it is full, at an object that cannot be judged,
/// or at the page's end.
pub open spec fn page_end(
    verdicts: Seq<Verdict>,
    from: int,
    have: int,
    paging: bool,
    limit: int,
) -> int
    decreases verdicts.len() - from,
{
    if from >= verdicts.len() {
        verdicts.len() as int
    } else if paging && have >= limit {
        from
    } else if verdicts[from] is Fail {
        from
    } else if verdicts[from] is Match {
        page_end(verdicts, from + 1, have + 1, paging, limit)
    } else {
        page_end(verdicts, from + 1, have, paging, limit)
    }
}

/// The matching objects among the first `n` of a page, in the page's order,
/// each at the revision of its last change.
pub open spec fn selected(
    kvs: Seq<KeyValueView>,
    verdicts: Seq<Verdict>,
    n: int,
) -> Seq<ObjectView>
    decreases n,
{
    if n <= 0 {
        Seq::empty()
    } else if verdicts[n - 1] is Match {
        selected(kvs, verdicts, n - 1).push(kvs[n - 1].object())
    } else {
        selected(kvs, verdicts, n - 1)
    }
}

/// The message of an answer that holds no keys but says that there are more.
pub open spec fn empty_page_message() -> Seq<char> {
    "no results were found, but etcd indicated there were more values remaining"@
}

/// A [`ListFault`] as plain sequences.
pub enum FaultView {
    Refused(ErrorView),
    Object(int),
}

impl View for ListFault {
    type V = FaultView;

    open spec fn view(&self) -> FaultView {
        match self {
            ListFault::Refused(error) => FaultView::Refused(error@),
            ListFault::Object(i) => FaultView::Object(*i as int),
        }
    }
}

/// The view of a fault tells which it is and all that it holds.
pub proof fn fault_view_is_faithful(fault: ListFault)
    ensures
        fault matches ListFault::Refused(error) ==> fault@ == FaultView::Refused(error@),
        fault matches ListFault::Object(i) ==> fault@ == FaultView::Object(i as int),
{
}

impl ListView {
    /// What holds of every list in progress: a list in pages holds no more
    /// objects than it was asked for, and fewer while it goes on; the page size
    /// never falls below the size asked for and never grows above
    /// [`MAX_LIMIT`]; until its token is read, no revision is settled; and once
    /// it is, a list in pages asks for a range of its prefix's keys, and any
    /// other for that or for all of them.
    pub open spec fn wf(self) -> bool {
        &&& self.keyPrefix.len() > 0
        &&& self.keyPrefix.last() == '/'
        &&& self.paging ==> self.predLimit > 0
        &&& self.paging ==> self.objs.len() <= self.predLimit
        &&& self.paging && self.phase is Resume ==> self.objs.len() < self.predLimit
        &&& self.paging && self.phase is Fetch ==> self.objs.len() < self.predLimit
        &&& self.phase is Resume ==> self.option.revision is None
        &&& self.phase is Resume ==> !self.option.prefix
        &&& self.phase is Resume || self.ranged() || (self.option.prefix && !self.paging)
        &&& self.predLimit <= self.limit
        &&& self.limit <= MAX_LIMIT || self.limit == self.predLimit
        &&& self.option.limit == (if self.paging {
            Some(self.limit as i64)
        } else {
            None
        })
    }

    /// The list asks for the keys from some key to the end of its prefix's
    /// range, as a list in pages and a list that goes on from another do.
    pub open spec fn ranged(self) -> bool {
        &&& self.option.endKey == Some(prefix_end(encode_utf8(self.keyPrefix)))
        &&& !self.option.prefix
    }

    /// The list once its token is read: it goes on from `key`, at `revision`,
    /// or at the newest one if that is not positive.
    pub open spec fn resumed(self, key: Seq<char>, revision: i64) -> ListView {
        let pinned = if revision > 0 {
            revision
        } else {
            0
        };
        ListView {
            key: encode_utf8(key),
            option: OptionView {
                endKey: Some(prefix_end(encode_utf8(self.keyPrefix))),
                revision: named_revision(pinned),
                ..self.option
            },
            returnedRV: pinned,
            phase: ListPhase::Fetch,
            ..self
        }
    }

    /// The position at which the list leaves a page.
    pub open spec fn stops_at(self, verdicts: Seq<Verdict>) -> int {
        page_end(verdicts, 0, self.objs.len() as int, self.paging, self.predLimit as int)
    }

    /// The objects of the list after a page.
    pub open spec fn objs_after(self, reply: RangeReplyView, verdicts: Seq<Verdict>) -> Seq<
        ObjectView,
    > {
        self.objs + selected(reply.kvs, verdicts, self.stops_at(verdicts))
    }

    /// Whether the list is full: it pages, and holds all that it was asked for.
    pub open spec fn full(self, objs: Seq<ObjectView>) -> bool {
        self.paging && objs.len() >= self.predLimit
    }

    /// Whether there is more to list than a page and what came before it.
    pub open spec fn more_after(self, reply: RangeReplyView, verdicts: Seq<Verdict>) -> bool {
        self.stops_at(verdicts) < verdicts.len() || reply.more
    }

    /// Why a page ends the list, if it does.
    pub open spec fn fault(self, reply: RangeReplyView, verdicts: Seq<Verdict>) -> Option<
        FaultView,
    > {
        let n = self.stops_at(verdicts);
        if too_old(self.minRevision, reply.revision->0) {
            Some(
                FaultView::Refused(
                    ErrorView::MinRevsionErr {
                        minRevision: self.minRevision,
                        actualRevision: reply.revision->0,
                    },
                ),
            )
        } else if reply.kvs.len() == 0 && reply.more {
            Some(FaultView::Refused(ErrorView::CommonError(empty_page_message())))
        } else if n < verdicts.len() && !self.full(self.objs_after(reply, verdicts)) {
            Some(FaultView::Object(n))
        } else {
            None
        }
    }

    /// What the list does after a page: it ends if nothing remains, and asks
    /// for a token if it is full or does not page; else it asks for the next
    /// page, a larger one.
    pub open spec fn phase_after(self, reply: RangeReplyView, verdicts: Seq<Verdict>) -> ListPhase {
        if !self.more_after(reply, verdicts) {
            ListPhase::Done
        } else if !self.paging || self.full(self.objs_after(reply, verdicts)) {
            ListPhase::Encode
        } else {
            ListPhase::Fetch
        }
    }

    /// The list after a page that does not end it with a fault. A list that goes
    /// on has judged all of the page, and starts its next request at the key
    /// that follows the page's last.
    pub open spec fn after(self, reply: RangeReplyView, verdicts: Seq<Verdict>) -> ListView {
        let n = self.stops_at(verdicts);
        let phase = self.phase_after(reply, verdicts);
        let limit = if phase is Fetch {
            grown(self.limit)
        } else {
            self.limit
        };
        ListView {
            key: if phase is Fetch {
                following(reply.kvs[n - 1].key)
            } else {
                self.key
            },
            option: OptionView {
                limit: if self.paging {
                    Some(limit as i64)
                } else {
                    None
                },
                ..self.option
            },
            limit,
            returnedRV: if self.returnedRV == 0 {
                reply.revision->0
            } else {
                self.returnedRV
            },
            objs: self.objs_after(reply, verdicts),
            lastKey: if n > 0 {
                reply.kvs[n - 1].key
            } else {
                self.lastKey
            },
            count: reply.count,
            phase,
            ..self
        }
    }

    /// The key at which the next list starts: the one that follows the last key
    /// that this list has judged.
    pub open spec fn next_key(self) -> Seq<char> {
        decode_utf8(self.lastKey).push('\0')
    }

    /// How many objects remain after the list, or -1 if that is not known.
    pub open spec fn remaining(self) -> int {
        if self.phase is Encode && self.predEmpty {
            self.count - (self.predLimit as i64)
        } else {
            -1
        }
    }
}

/// The end of the range of a directory prefix: its final slash becomes the
/// character after it.
pub proof fn directory_range_end(keyPrefix: Seq<char>)
    requires
        keyPrefix.len() > 0,
        keyPrefix.last() == '/',
    ensures
        prefix_end(encode_utf8(keyPrefix)) == encode_utf8(keyPrefix.drop_last().push('0')),
        valid_utf8(prefix_end(encode_utf8(keyPrefix))),
{
    let front = keyPrefix.drop_last();
    encode_utf8_concat(front, seq!['/']);
    encode_utf8_concat(front, seq!['0']);
    lemma_encode_ascii('/');
    lemma_encode_ascii('0');
    assert(keyPrefix =~= front + seq!['/']);
    assert(front.push('0') =~= front + seq!['0']);
    let bytes = encode_utf8(keyPrefix);
    assert(bytes.last() == 0x2f);
    assert(bytes.drop_last() =~= encode_utf8(front));
    assert(prefix_end(bytes) =~= encode_utf8(front) + seq![0x30u8]);
    vstd::utf8::encode_utf8_valid_utf8(front.push('0'));
}

/// The position at which a list leaves a page lies in the page, every object
/// before it was judged while the list was not full, and the list leaves there
/// for a reason: the page ends, the list is full, or the object cannot be
/// judged.
pub proof fn page_end_is_first_stop(
    kvs: Seq<KeyValueView>,
    verdicts: Seq<Verdict>,
    have: int,
    paging: bool,
    limit: int,
)
    requires
        kvs.len() == verdicts.len(),
    ensures
        ({
            let n = page_end(verdicts, 0, have, paging, limit);
            &&& 0 <= n <= verdicts.len()
            &&& forall|i: int| 0 <= i < n ==> !(#[trigger] verdicts[i] is Fail)
            &&& forall|i: int|
                0 <= i < n && paging ==> have + (#[trigger] selected(kvs, verdicts, i)).len() < limit
            &&& n == verdicts.len() || verdicts[n] is Fail || (paging && have + selected(
                kvs,
                verdicts,
                n,
            ).len() >= limit)
        }),
{
    lemma_page_end_from(kvs, verdicts, 0, have, paging, limit);
}

proof fn lemma_page_end_from(
    kvs: Seq<KeyValueView>,
    verdicts: Seq<Verdict>,
    from: int,
    have: int,
    paging: bool,
    limit: int,
)
    requires
        kvs.len() == verdicts.len(),
        0 <= from <= verdicts.len(),
    ensures
        ({
            let base = have - selected(kvs, verdicts, from).len();
            let n = page_end(verdicts, from, have, paging, limit);
            &&& from <= n <= verdicts.len()
            &&& forall|i: int| from <= i < n ==> !(#[trigger] verdicts[i] is Fail)
            &&& forall|i: int|
                from <= i < n && paging ==> base + (#[trigger] selected(kvs, verdicts, i)).len()
                    < limit
            &&& n == verdicts.len() || verdicts[n] is Fail || (paging && base + selected(
                kvs,
                verdicts,
                n,
            ).len() >= limit)
        }),
    decreases verdicts.len() - from,
{
    if from < verdicts.len() && !(paging && have >= limit) && !(verdicts[from] is Fail) {
        let step = if verdicts[from] is Match {
            1int
        } else {
            0int
        };
        assert(selected(kvs, verdicts, from + 1).len() == selected(kvs, verdicts, from).len()
            + step);
        lemma_page_end_from(kvs, verdicts, from + 1, have + step, paging, limit);
    }
}

impl ListCall {
    #[verifier::type_invariant]
    closed spec fn inv(self) -> bool {
        self@.wf()
    }

    /// What the list waits for.
    pub fn Phase(&self) -> (phase: ListPhase)
        ensures
            phase == self@.phase,
            self@.wf(),
    {
        proof {
            use_type_invariant(self);
        }
        self.phase
    }

    /// The prefix of all keys that the list may hold.
    pub fn KeyPrefix(&self) -> (keyPrefix: &str)
        ensures
            keyPrefix@ == self@.keyPrefix,
    {
        self.keyPrefix.as_str()
    }

    /// The key at which the next request starts.
    pub fn Key(&self) -> (key: &Vec<u8>)
        ensures
            key@ == self@.key,
    {
        &self.key
    }

    /// The options of the next request.
    pub fn Option(&self) -> (option: &EtcdOption)
        ensures
            option@ == self@.option,
    {
        &self.option
    }

    /// The last key that the list has judged.
    pub fn LastKey(&self) -> (lastKey: &Vec<u8>)
        ensures
            lastKey@ == self@.lastKey,
    {
        &self.lastKey
    }

    /// The revision of the list, or 0 until it is known.
    pub fn Revision(&self) -> (revision: i64)
        ensures
            revision == self@.returnedRV,
    {
        self.returnedRV
    }

    /// Goes on from the key and the revision that the continue token stands
    /// for. A positive revision is the one to read at; any other stands for the
    /// newest.
    pub fn Resume(self, continueKey: String, continueRv: i64) -> (r: ListCall)
        requires
            self@.phase is Resume,
        ensures
            r@ == self@.resumed(continueKey@, continueRv),
            r@.wf(),
    {
        proof {
            use_type_invariant(&self);
            directory_range_end(self.keyPrefix@);
        }
        let rangeEnd: String = EtcdStore::GetPrefixRangeEnd(self.keyPrefix.as_str());
        let mut option = self.option;
        option.WithRange(rangeEnd);
        let mut returnedRV: i64 = 0;
        if continueRv > 0 {
            option.WithRevision(continueRv);
            returnedRV = continueRv;
        }
        ListCall {
            keyPrefix: self.keyPrefix,
            key: continueKey.as_str().as_bytes_vec(),
            option,
            paging: self.paging,
            predLimit: self.predLimit,
            predEmpty: self.predEmpty,
            minRevision: self.minRevision,
            limit: self.limit,
            returnedRV,
            objs: self.objs,
            lastKey: self.lastKey,
            count: self.count,
            phase: ListPhase::Fetch,
        }
    }

    /// Takes the page that answers the list's request, with what the list's
    /// selectors say of each of its objects.
    pub fn Page(self, reply: &RangeReply, verdicts: &Vec<Verdict>) -> (r: Result<
        ListCall,
        ListFault,
    >)
        requires
            self@.phase is Fetch,
            reply.revision is Some,
            reply.kvs@.len() == verdicts@.len(),
        ensures
            match self@.fault(reply@, verdicts@) {
                Some(fault) => r matches Err(e) && e@ == fault,
                None => r matches Ok(call) && call@ == self@.after(reply@, verdicts@)
                    && call@.wf(),
            },
    {
        proof {
            use_type_invariant(&self);
        }
        let ghost start = self@;
        let actualRev: i64 = reply.revision.unwrap();
        match EtcdStore::ValidateMinimumResourceVersion(self.minRevision, actualRev) {
            Ok(_) => (),
            Err(error) => {
                return Err(ListFault::Refused(error));
            },
        }

        let mut hasMore = reply.more;
        if reply.kvs.len() == 0 && hasMore {
            return Err(
                ListFault::Refused(
                    Error::CommonError(
                        "no results were found, but etcd indicated there were more values remaining".to_string(),
                    ),
                ),
            );
        }

        let mut objs: Vec<DataObject> = self.objs;
        let mut lastKey: Vec<u8> = self.lastKey;
        let mut i: usize = 0;
        while i < reply.kvs.len() && !(self.paging && objs.len() >= self.predLimit)
            invariant
                i <= reply.kvs@.len(),
                reply.kvs@.len() == verdicts@.len(),
                start == self@,
                start.paging == self.paging,
                start.predLimit == self.predLimit,
                object_views(objs@) == start.objs + selected(reply@.kvs, verdicts@, i as int),
                lastKey@ == (if i > 0 {
                    reply@.kvs[i - 1].key
                } else {
                    start.lastKey
                }),
                start.stops_at(verdicts@) == page_end(
                    verdicts@,
                    i as int,
                    objs@.len() as int,
                    start.paging,
                    start.predLimit as int,
                ),
                self.paging ==> objs@.len() <= self.predLimit,
                start.fault(reply@, verdicts@) is None || start.fault(reply@, verdicts@)
                    == Some(FaultView::Object(start.stops_at(verdicts@))),
                !too_old(start.minRevision, reply@.revision->0),
                !(reply.kvs@.len() == 0 && reply.more),
            decreases reply.kvs@.len() - i,
        {
            let kv = &reply.kvs[i];
            lastKey = kv.key.clone();
            match verdicts[i] {
                Verdict::Fail => {
                    assert(start.stops_at(verdicts@) == i);
                    assert(start.objs_after(reply@, verdicts@) == object_views(objs@));
                    assert(object_views(objs@).len() == objs@.len());
                    return Err(ListFault::Object(i));
                },
                Verdict::Match => {
                    let ghost before = objs@;
                    objs.push(kv.Object());
                    assert(object_views(objs@) =~= object_views(before).push(objs@.last()@));
                },
                Verdict::NoMatch => (),
            }
            assert(selected(reply@.kvs, verdicts@, i + 1) =~= (if verdicts@[i as int] is Match {
                selected(reply@.kvs, verdicts@, i as int).push(reply@.kvs[i as int].object())
            } else {
                selected(reply@.kvs, verdicts@, i as int)
            }));
            i = i + 1;
            assert(object_views(objs@) =~= start.objs + selected(
                reply@.kvs,
                verdicts@,
                i as int,
            ));
        }
        if i < reply.kvs.len() {
            hasMore = true;
        }
        assert(start.stops_at(verdicts@) == i);
        assert(object_views(objs@) == start.objs_after(reply@, verdicts@));

        // Say which revision the list was read at.
        let mut returnedRV: i64 = self.returnedRV;
        if returnedRV == 0 {
            returnedRV = actualRev;
        }

        let mut key: Vec<u8> = self.key;
        let mut option = self.option;
        let mut limit: usize = self.limit;
        let phase = if !hasMore {
            ListPhase::Done
        } else if !self.paging || objs.len() >= self.predLimit {
            ListPhase::Encode
        } else {
            if limit < MAX_LIMIT {
                // The selectors dropped part of the page: ask for more keys at
                // once, so that fewer requests are needed.
                limit = limit * 2;
                if limit > MAX_LIMIT {
                    limit = MAX_LIMIT;
                }
                option.WithLimit(limit as i64);
            }
            // Go on immediately after the last key of this page.
            key = lastKey.clone();
            key.push(0);
            ListPhase::Fetch
        };
        let call = ListCall {
            keyPrefix: self.keyPrefix,
            key,
            option,
            paging: self.paging,
            predLimit: self.predLimit,
            predEmpty: self.predEmpty,
            minRevision: self.minRevision,
            limit,
            returnedRV,
            objs,
            lastKey,
            count: reply.count,
            phase,
        };
        assert(call@ =~= start.after(reply@, verdicts@));
        Ok(call)
    }

    /// The key with which the next list starts: it follows the last key that
    /// this list has judged immediately.
    pub fn NextKey(&self) -> (key: String)
        requires
            self@.phase is Encode,
            valid_utf8(self@.lastKey),
        ensures
            key@ == self@.next_key(),
    {
        let mut key: String = string_from_utf8(self.lastKey.clone()).unwrap();
        proof {
            reveal_strlit("\0");
            assert("\0"@ =~= seq!['\0']);
        }
        key.append("\0");
        assert(key@ =~= self@.next_key());
        key
    }

    /// The list, once it is done or the token for the rest is there.
    pub fn Finish<T>(self, next: Option<T>) -> (list: DataObjList<T>)
        requires
            self@.phase is Done && next is None || self@.phase is Encode && next is Some,
            i64::MIN <= self@.remaining() <= i64::MAX,
        ensures
            object_views(list.objs@) == self@.objs,
            list.revision == self@.returnedRV,
            list.continue_ == next,
            list.remainCount == self@.remaining(),
            self@.paging ==> list.objs@.len() <= self@.predLimit,
    {
        proof {
            use_type_invariant(&self);
        }
        match next {
            Some(token) => {
                let mut remainingItemCount: i64 = -1;
                if self.predEmpty {
                    remainingItemCount = self.count - self.predLimit as i64;
                }
                DataObjList::New(self.objs, self.returnedRV, Some(token), remainingItemCount)
            },
            None => DataObjList::New(self.objs, self.returnedRV, None, -1),
        }
    }
}

impl EtcdStore {
    /// Starts a list of the objects under `prefix`.
    pub fn List(&self, prefix: &str, opts: &ListOption) -> (r: Result<ListCall, Error>)
        ensures
            match prepared_key(self.pathPrefix@, prefix@) {
                Ok(prepared) => r matches Ok(call) && call@ == list_start(
                    self.pagingEnable,
                    list_prefix(prepared),
                    *opts,
                ) && call@.wf(),
                Err(error) => r matches Err(e) && e@ == error,
            },
    {
        let mut keyPrefix: String = match self.PrepareKey(prefix) {
            Ok(key) => key,
            Err(error) => {
                return Err(error);
            },
        };
        let n: usize = keyPrefix.as_str().unicode_len();
        if !(n > 0 && keyPrefix.as_str().get_char(n - 1) == '/') {
            let ghost prepared = keyPrefix@;
            proof {
                reveal_strlit("/");
                assert("/"@ =~= seq!['/']);
            }
            keyPrefix.append("/");
            assert(keyPrefix@ =~= prepared.push('/'));
        }
        proof {
            directory_range_end(keyPrefix@);
        }

        let pred = &opts.predicate;
        let mut option = EtcdOption::default();
        let mut paging = false;
        if self.pagingEnable && pred.limit > 0 {
            paging = true;
            option.WithLimit(pred.limit as i64);
        }

        let mut returnedRV: i64 = 0;
        let mut phase = ListPhase::Fetch;
        if self.pagingEnable && pred.HasContinue() {
            phase = ListPhase::Resume;
        } else {
            if opts.revision > 0 {
                match opts.revisionMatch {
                    RevisionMatch::Any => (),
                    RevisionMatch::NotOlderThan => (),
                    RevisionMatch::Exact => {
                        returnedRV = opts.revision;
                    },
                }
            }
            if paging {
                let rangeEnd: String = EtcdStore::GetPrefixRangeEnd(keyPrefix.as_str());
                option.WithRange(rangeEnd);
            } else {
                option.WithPrefix();
            }
            if returnedRV != 0 {
                option.WithRevision(returnedRV);
            }
        }
        let call = ListCall {
            key: keyPrefix.as_str().as_bytes_vec(),
            keyPrefix,
            option,
            paging,
            predLimit: pred.limit,
            predEmpty: pred.Empty(),
            minRevision: opts.revision,
            limit: pred.limit,
            returnedRV,
            objs: Vec::new(),
            lastKey: Vec::new(),
            count: 0,
            phase,
        };
        assert(call@ =~= list_start(self.pagingEnable, keyPrefix@, *opts));
        Ok(call)
    }
}

} // verus!
