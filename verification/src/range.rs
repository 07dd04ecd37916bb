//! Byte-string keys: their order, and the range of keys that share a prefix.

use vstd::prelude::*;

use crate::store::EtcdStore;
#[allow(unused_imports)]
use crate::text::raised_text_is_text;
use crate::text::string_from_utf8;
#[allow(unused_imports)]
use vstd::utf8::{decode_utf8, encode_utf8, valid_utf8};

verus! {

/// `a` and `b` agree before position `i`, where `a` ends or has the smaller byte.
pub open spec fn below_at(a: Seq<u8>, b: Seq<u8>, i: int) -> bool {
    &&& 0 <= i <= a.len()
    &&& i < b.len()
    &&& forall|j: int| 0 <= j < i ==> a[j] == b[j]
    &&& i == a.len() || a[i] < b[i]
}

/// The order in which the server keeps its keys: `a` comes before `b`.
pub open spec fn key_lt(a: Seq<u8>, b: Seq<u8>) -> bool {
    exists|i: int| below_at(a, b, i)
}

/// `a` is `b` or comes before it.
pub open spec fn key_le(a: Seq<u8>, b: Seq<u8>) -> bool {
    a == b || key_lt(a, b)
}

/// Every byte of `prefix` is the greatest one, so no key follows all the keys
/// that start with it.
pub open spec fn is_last_prefix(prefix: Seq<u8>) -> bool {
    forall|i: int| 0 <= i < prefix.len() ==> prefix[i] == 0xff
}

/// The end of the range of keys that start with `prefix`: the last byte that
/// can grow grows by one and what follows it is cut off. A prefix with no such
/// byte has the end `0`, by which the server understands an open range.
pub open spec fn prefix_end(prefix: Seq<u8>) -> Seq<u8>
    decreases prefix.len(),
{
    if prefix.len() == 0 {
        seq![0u8]
    } else if prefix.last() < 0xff {
        prefix.drop_last().push((prefix.last() + 1) as u8)
    } else {
        prefix_end(prefix.drop_last())
    }
}

impl EtcdStore {
    /// The end of the range of keys that start with `prefix`, as text.
    pub fn GetPrefixRangeEnd(prefix: &str) -> (end: String)
        requires
            valid_utf8(prefix_end(encode_utf8(prefix@))),
        ensures
            encode_utf8(end@) == prefix_end(encode_utf8(prefix@)),
            end@ == decode_utf8(prefix_end(encode_utf8(prefix@))),
    {
        let arr: Vec<u8> = Self::GetPrefix(prefix.as_bytes());
        proof {
            vstd::utf8::decode_utf8_encode_utf8(arr@);
        }
        string_from_utf8(arr).unwrap()
    }

    /// The end of the range of keys that start with `prefix`.
    pub fn GetPrefix(prefix: &[u8]) -> (end: Vec<u8>)
        ensures
            end@ == prefix_end(prefix@),
    {
        let mut end: Vec<u8> = Vec::with_capacity(prefix.len());
        let mut n: usize = 0;
        while n < prefix.len()
            invariant
                n <= prefix@.len(),
                end@ == prefix@.take(n as int),
            decreases prefix@.len() - n,
        {
            end.push(prefix[n]);
            n = n + 1;
            assert(end@ =~= prefix@.take(n as int));
        }
        assert(end@ =~= prefix@);

        let mut i: usize = prefix.len();
        while i > 0
            invariant
                i <= prefix@.len(),
                end@ == prefix@,
                prefix_end(prefix@) == prefix_end(prefix@.take(i as int)),
            decreases i,
        {
            i = i - 1;
            let ghost head = prefix@.take(i + 1);
            assert(head.drop_last() =~= prefix@.take(i as int));
            if end[i] < 0xff {
                end[i] = end[i] + 1;
                end.truncate(i + 1);
                assert(end@ =~= head.drop_last().push((head.last() + 1) as u8));
                return end;
            }
        }
        // There is no next prefix (all bytes are 0xff): the open range.
        let mut open: Vec<u8> = Vec::new();
        open.push(0);
        assert(open@ =~= seq![0u8]);
        open
    }
}

/// No key comes before itself.
pub proof fn key_order_is_irreflexive(a: Seq<u8>)
    ensures
        !key_lt(a, a),
{
}

/// A key that comes before a second one comes before what follows it.
pub proof fn key_order_is_transitive(a: Seq<u8>, b: Seq<u8>, c: Seq<u8>)
    requires
        key_lt(a, b),
        key_lt(b, c),
    ensures
        key_lt(a, c),
{
    let i = choose|i: int| below_at(a, b, i);
    let j = choose|j: int| below_at(b, c, j);
    assert(below_at(
        a,
        c,
        if i < j {
            i
        } else {
            j
        },
    ));
}

/// Of two different keys one comes before the other.
pub proof fn key_order_is_total(a: Seq<u8>, b: Seq<u8>)
    ensures
        key_lt(a, b) || key_lt(b, a) || a == b,
{
    lemma_total_from(a, b, 0);
}

proof fn lemma_total_from(a: Seq<u8>, b: Seq<u8>, from: int)
    requires
        0 <= from <= a.len(),
        from <= b.len(),
        forall|j: int| 0 <= j < from ==> a[j] == b[j],
    ensures
        key_lt(a, b) || key_lt(b, a) || a == b,
    decreases a.len() - from,
{
    if from == a.len() && from == b.len() {
        assert(a =~= b);
    } else if from == a.len() || (from < b.len() && a[from] < b[from]) {
        assert(below_at(a, b, from));
    } else if from == b.len() || b[from] < a[from] {
        assert(below_at(b, a, from));
    } else {
        lemma_total_from(a, b, from + 1);
    }
}

/// The shape of a prefix's end: it follows the prefix up to its last byte,
/// which is one above the prefix's, and the rest of the prefix is all 0xff.
pub(crate) proof fn lemma_prefix_end_shape(prefix: Seq<u8>)
    requires
        !is_last_prefix(prefix),
    ensures
        0 < prefix_end(prefix).len() <= prefix.len(),
        forall|j: int|
            0 <= j < prefix_end(prefix).len() - 1 ==> prefix_end(prefix)[j] == prefix[j],
        prefix_end(prefix).last() == prefix[prefix_end(prefix).len() - 1] + 1,
        forall|j: int| prefix_end(prefix).len() <= j < prefix.len() ==> prefix[j] == 0xff,
    decreases prefix.len(),
{
    if prefix.last() == 0xff {
        let front = prefix.drop_last();
        if is_last_prefix(front) {
            assert forall|i: int| 0 <= i < prefix.len() implies prefix[i] == 0xff by {
                if i < front.len() {
                    assert(front[i] == prefix[i]);
                }
            }
        }
        lemma_prefix_end_shape(front);
        assert forall|j: int| 0 <= j < prefix_end(front).len() - 1 implies prefix_end(front)[j]
            == prefix[j] by {
            assert(front[j] == prefix[j]);
        }
        assert forall|j: int| prefix_end(front).len() <= j < prefix.len() implies prefix[j]
            == 0xff by {
            if j < front.len() {
                assert(front[j] == prefix[j]);
            }
        }
    }
}

/// The range from a prefix to its end holds the keys that start with the
/// prefix, and no others, for every prefix that has an end.
pub proof fn prefix_range_is_exact(prefix: Seq<u8>, key: Seq<u8>)
    requires
        !is_last_prefix(prefix),
    ensures
        prefix.is_prefix_of(key) <==> key_le(prefix, key) && key_lt(key, prefix_end(prefix)),
{
    lemma_prefix_end_shape(prefix);
    let end = prefix_end(prefix);
    let m = end.len() - 1;
    if prefix.is_prefix_of(key) {
        assert(forall|j: int| 0 <= j < prefix.len() ==> prefix[j] == key[j]);
        assert(below_at(key, end, m));
        if prefix.len() == key.len() {
            assert(prefix =~= key);
        } else {
            assert(below_at(prefix, key, prefix.len() as int));
        }
    }
    if key_le(prefix, key) && key_lt(key, end) && prefix != key {
        let t = choose|t: int| below_at(prefix, key, t);
        let i = choose|i: int| below_at(key, end, i);
        if t < prefix.len() {
            assert(t <= m);
            if i < t {
                assert(prefix[i] == key[i]);
            } else if i > t {
                assert(key[t] == end[t]);
            }
            assert(false);
        }
        assert(prefix.is_prefix_of(key));
    }
}

/// A prefix of 0xff bytes alone has the end by which the server understands an
/// open range, and every key that starts with it lies in that range.
pub proof fn last_prefix_range_is_open(prefix: Seq<u8>, key: Seq<u8>)
    requires
        is_last_prefix(prefix),
    ensures
        prefix_end(prefix) == seq![0u8],
        prefix.is_prefix_of(key) ==> key_le(prefix, key),
    decreases prefix.len(),
{
    if prefix.len() > 0 {
        assert(prefix.drop_last().is_prefix_of(prefix));
        assert forall|i: int| 0 <= i < prefix.len() - 1 implies prefix.drop_last()[i] == 0xff by {
            assert(prefix[i] == 0xff);
        }
        assert(prefix.last() == 0xff);
        last_prefix_range_is_open(prefix.drop_last(), key);
    }
    if prefix.is_prefix_of(key) {
        assert(forall|j: int| 0 <= j < prefix.len() ==> prefix[j] == key[j]);
        if prefix.len() == key.len() {
            assert(prefix =~= key);
        } else {
            assert(below_at(prefix, key, prefix.len() as int));
        }
    }
}

/// The end of a text's range is a text again, exactly if the text is empty or
/// its last byte is neither the last ASCII character, 0x7f, nor the last
/// continuation byte, 0xbf.
pub proof fn text_range_end_is_text(prefix: Seq<char>)
    ensures
        valid_utf8(prefix_end(encode_utf8(prefix))) <==> prefix.len() == 0 || (encode_utf8(
            prefix,
        ).last() != 0x7f && encode_utf8(prefix).last() != 0xbf),
{
    let bytes = encode_utf8(prefix);
    if prefix.len() == 0 {
        let end = seq![0u8];
        assert((0u8 & 0x7f) as u32 == 0) by (bit_vector);
        assert(vstd::utf8::valid_first_scalar(end));
        assert(valid_utf8(vstd::utf8::pop_first_scalar(end)));
    } else {
        vstd::utf8::encode_utf8_valid_utf8(prefix);
        vstd::utf8::encode_utf8_first_scalar(prefix);
        assert(bytes.len() > 0);
        raised_text_is_text(bytes);
    }
}

} // verus!
