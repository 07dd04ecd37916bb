//! Transactions: the parts of `etcd_client` that the store builds them from.

use etcd_client::{Compare, CompareOp, Txn, TxnOp};
use vstd::prelude::*;
#[allow(unused_imports)]
use vstd::utf8::encode_utf8;

verus! {

/// How a comparison relates a key's revision to the given one.
#[derive(Debug, Clone, Copy, PartialEq, Eq, Structural)]
pub enum RevisionOp {
    Equal,
    Greater,
    Less,
    NotEqual,
}

/// A comparison of the revision of a key's last change, which is 0 for a key
/// that does not exist.
pub struct CompareView {
    pub key: Seq<u8>,
    pub op: RevisionOp,
    pub revision: i64,
}

/// An operation of a transaction, on a single key.
pub enum OpView {
    Put { key: Seq<u8>, value: Seq<u8> },
    Get { key: Seq<u8> },
    Delete { key: Seq<u8> },
}

/// A transaction: the operations in `success` run if all comparisons hold, else
/// those in `failure`. The last three fields say which of its parts were given,
/// for each may be given once only, and in this order.
#[verifier::ext_equal]
pub struct TxnView {
    pub compares: Seq<CompareView>,
    pub success: Seq<OpView>,
    pub failure: Seq<OpView>,
    pub when_given: bool,
    pub then_given: bool,
    pub else_given: bool,
}

/// `etcd_client::Compare`: a comparison of a transaction.
#[verifier::external_type_specification]
#[verifier::external_body]
pub struct ExCompare(etcd_client::Compare);

/// `etcd_client::TxnOp`: an operation of a transaction.
#[verifier::external_type_specification]
#[verifier::external_body]
pub struct ExTxnOp(etcd_client::TxnOp);

/// `etcd_client::Txn`: a transaction.
#[verifier::external_type_specification]
#[verifier::external_body]
pub struct ExTxn(etcd_client::Txn);

/// What a `Compare` compares.
pub uninterp spec fn compare_view(compare: Compare) -> CompareView;

/// What a `TxnOp` does.
pub uninterp spec fn txn_op_view(op: TxnOp) -> OpView;

/// What a `Txn` holds.
pub uninterp spec fn txn_view(txn: Txn) -> TxnView;

/// `Compare::mod_revision` compares the revision of the key's last change with
/// the given one. The key is the text's UTF-8 bytes.
#[verifier::external_body]
pub(crate) fn compare_mod_revision(key: &str, op: RevisionOp, revision: i64) -> (r: Compare)
    ensures
        compare_view(r) == (CompareView { key: encode_utf8(key@), op, revision }),
{
    let result = match op {
        RevisionOp::Equal => CompareOp::Equal,
        RevisionOp::Greater => CompareOp::Greater,
        RevisionOp::Less => CompareOp::Less,
        RevisionOp::NotEqual => CompareOp::NotEqual,
    };
    Compare::mod_revision(key, result, revision)
}

/// `TxnOp::put`, without options, sets the key to the value. The key is the
/// text's UTF-8 bytes.
#[verifier::external_body]
pub(crate) fn txn_op_put(key: &str, value: Vec<u8>) -> (r: TxnOp)
    ensures
        txn_op_view(r) == (OpView::Put { key: encode_utf8(key@), value: value@ }),
{
    TxnOp::put(key, value, None)
}

/// `TxnOp::get`, without options, reads the key. The key is the text's UTF-8
/// bytes.
#[verifier::external_body]
pub(crate) fn txn_op_get(key: &str) -> (r: TxnOp)
    ensures
        txn_op_view(r) == (OpView::Get { key: encode_utf8(key@) }),
{
    TxnOp::get(key, None)
}

/// `TxnOp::delete`, without options, deletes the key. The key is the text's
/// UTF-8 bytes.
#[verifier::external_body]
pub(crate) fn txn_op_delete(key: &str) -> (r: TxnOp)
    ensures
        txn_op_view(r) == (OpView::Delete { key: encode_utf8(key@) }),
{
    TxnOp::delete(key, None)
}

/// A transaction without comparisons and operations.
pub open spec fn empty_txn() -> TxnView {
    TxnView {
        compares: Seq::empty(),
        success: Seq::empty(),
        failure: Seq::empty(),
        when_given: false,
        then_given: false,
        else_given: false,
    }
}

/// `Txn::new` has no comparisons and no operations.
pub assume_specification[ etcd_client::Txn::new ]() -> (r: Txn)
    ensures
        txn_view(r) == empty_txn(),
;

/// `Txn::when` gives the transaction its comparisons. It panics if any part of
/// the transaction was given before.
#[verifier::external_body]
pub(crate) fn txn_when(txn: Txn, compares: Vec<Compare>) -> (r: Txn)
    requires
        !txn_view(txn).when_given,
        !txn_view(txn).then_given,
        !txn_view(txn).else_given,
    ensures
        txn_view(r) == (TxnView {
            compares: compares@.map_values(|c: Compare| compare_view(c)),
            when_given: true,
            ..txn_view(txn)
        }),
{
    txn.when(compares)
}

/// `Txn::and_then` gives the transaction the operations to run if its
/// comparisons hold. It panics if these or their alternative were given before.
#[verifier::external_body]
pub(crate) fn txn_and_then(txn: Txn, operations: Vec<TxnOp>) -> (r: Txn)
    requires
        !txn_view(txn).then_given,
        !txn_view(txn).else_given,
    ensures
        txn_view(r) == (TxnView {
            success: operations@.map_values(|op: TxnOp| txn_op_view(op)),
            then_given: true,
            ..txn_view(txn)
        }),
{
    txn.and_then(operations)
}

/// `Txn::or_else` gives the transaction the operations to run if its
/// comparisons do not hold. It panics if these were given before.
#[verifier::external_body]
pub(crate) fn txn_or_else(txn: Txn, operations: Vec<TxnOp>) -> (r: Txn)
    requires
        !txn_view(txn).else_given,
    ensures
        txn_view(r) == (TxnView {
            failure: operations@.map_values(|op: TxnOp| txn_op_view(op)),
            else_given: true,
            ..txn_view(txn)
        }),
{
    txn.or_else(operations)
}

/// The transaction that creates a key: it sets a key that does not exist, and
/// does nothing to one that does.
pub open spec fn create_txn(key: Seq<u8>, value: Seq<u8>) -> TxnView {
    TxnView {
        compares: seq![CompareView { key, op: RevisionOp::Equal, revision: 0 }],
        success: seq![OpView::Put { key, value }],
        when_given: true,
        then_given: true,
        ..empty_txn()
    }
}

/// The transaction that deletes a key. With an expected revision other than 0
/// it deletes the key at that revision only, and reads it at any other.
pub open spec fn delete_txn(key: Seq<u8>, expectedRev: i64) -> TxnView {
    if expectedRev != 0 {
        TxnView {
            compares: seq![CompareView { key, op: RevisionOp::Equal, revision: expectedRev }],
            success: seq![OpView::Delete { key }],
            failure: seq![OpView::Get { key }],
            when_given: true,
            then_given: true,
            else_given: true,
        }
    } else {
        TxnView { success: seq![OpView::Delete { key }], then_given: true, ..empty_txn() }
    }
}

/// The transaction that updates a key. With a positive expected revision it
/// sets the key at that revision only, and reads it at any other.
pub open spec fn update_txn(key: Seq<u8>, expectedRev: i64, value: Seq<u8>) -> TxnView {
    if expectedRev > 0 {
        TxnView {
            compares: seq![CompareView { key, op: RevisionOp::Equal, revision: expectedRev }],
            success: seq![OpView::Put { key, value }],
            failure: seq![OpView::Get { key }],
            when_given: true,
            then_given: true,
            else_given: true,
        }
    } else {
        TxnView { success: seq![OpView::Put { key, value }], then_given: true, ..empty_txn() }
    }
}

/// A list of one.
pub(crate) fn one<T>(item: T) -> (v: Vec<T>)
    ensures
        v@ == seq![item],
{
    let mut v: Vec<T> = Vec::new();
    v.push(item);
    assert(v@ =~= seq![item]);
    v
}

} // verus!
