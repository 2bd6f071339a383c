//! The ledger data model as this crate reads it: journals of transactions of
//! postings, each posting carrying a resolved (commodity, amount) pair.

use crate::rational::Rational;
use vstd::prelude::*;

verus! {

/// Clearing state of a transaction.
#[derive(Clone, Copy, Debug, PartialEq, Eq, Structural)]
pub enum State {
    Cleared,
    Uncleared,
    Pending,
}

/// The resolved (commodity, amount) pair of a posting.
pub struct BalancedAmount {
    pub commodity: String,
    pub amount: Rational,
}

/// One leg of a transaction: an account label and its balanced amount.
/// Upstream validation owes every posting a balanced amount; a missing one is
/// reported as `AggregationError`, never silently substituted.
pub struct Posting {
    pub account: String,
    pub balanced_amount: Option<BalancedAmount>,
}

/// An ordered list of postings under a date, clearing state and description.
pub struct Transaction {
    pub date: String,
    pub state: State,
    pub description: String,
    pub postings: Vec<Posting>,
}

/// An ordered list of transactions.
pub struct Journal {
    pub transactions: Vec<Transaction>,
}

/// An ordered collection of journals; flattened into one transaction stream
/// in journal order, then transaction order.
pub struct Ledger {
    pub journals: Vec<Journal>,
}

/// The single error of aggregation: a posting reached the engine without a
/// resolved balanced amount.
#[derive(Clone, Copy, Debug, PartialEq, Eq, Structural)]
pub enum AggregationError {
    MissingBalancedAmount,
}

/// The transaction stream of a sequence of journals, concatenated in order.
pub open spec fn txns_of_journals(js: Seq<Journal>) -> Seq<Transaction>
    decreases js.len(),
{
    if js.len() == 0 {
        Seq::empty()
    } else {
        js[0].transactions@ + txns_of_journals(js.skip(1))
    }
}

/// The transaction stream of a ledger.
pub open spec fn txns_of_ledger(l: Ledger) -> Seq<Transaction> {
    txns_of_journals(l.journals@)
}

/// The posting stream of a transaction sequence, concatenated in order.
pub open spec fn postings_of_txns(ts: Seq<Transaction>) -> Seq<Posting>
    decreases ts.len(),
{
    if ts.len() == 0 {
        Seq::empty()
    } else {
        ts[0].postings@ + postings_of_txns(ts.skip(1))
    }
}

/// Every posting carries its balanced amount.
pub open spec fn all_balanced(ps: Seq<Posting>) -> bool {
    forall|i: int| 0 <= i < ps.len() ==> (#[trigger] ps[i]).balanced_amount is Some
}

/// Every present amount is a well-formed rational.
pub open spec fn amounts_wf(ps: Seq<Posting>) -> bool {
    forall|i: int|
        0 <= i < ps.len() ==> ((#[trigger] ps[i]).balanced_amount matches Some(b)
            ==> b.amount.wf())
}

/// The posting stream splits at any transaction boundary.
pub proof fn lemma_postings_decompose(ts: Seq<Transaction>, k: int)
    requires
        0 <= k <= ts.len(),
    ensures
        postings_of_txns(ts) =~= postings_of_txns(ts.take(k)) + postings_of_txns(ts.skip(k)),
    decreases k,
{
    if k == 0 {
        assert(ts.take(0) =~= Seq::empty());
        assert(ts.skip(0) =~= ts);
    } else {
        lemma_postings_decompose(ts.skip(1), k - 1);
        assert(ts.skip(1).take(k - 1) =~= ts.take(k).skip(1));
        assert(ts.skip(1).skip(k - 1) =~= ts.skip(k));
        assert(postings_of_txns(ts.take(k)) =~= ts[0].postings@ + postings_of_txns(
            ts.take(k).skip(1),
        )) by {
            assert(ts.take(k)[0] == ts[0]);
        };
    }
}

/// The journal stream splits the same way.
pub proof fn lemma_txns_decompose(js: Seq<Journal>, k: int)
    requires
        0 <= k <= js.len(),
    ensures
        txns_of_journals(js) =~= txns_of_journals(js.take(k)) + txns_of_journals(js.skip(k)),
    decreases k,
{
    if k == 0 {
        assert(js.take(0) =~= Seq::empty());
        assert(js.skip(0) =~= js);
    } else {
        lemma_txns_decompose(js.skip(1), k - 1);
        assert(js.skip(1).take(k - 1) =~= js.take(k).skip(1));
        assert(js.skip(1).skip(k - 1) =~= js.skip(k));
        assert(txns_of_journals(js.take(k)) =~= js[0].transactions@ + txns_of_journals(
            js.take(k).skip(1),
        )) by {
            assert(js.take(k)[0] == js[0]);
        };
    }
}

/// Inside transaction `k`, the postings handled so far are a prefix of the
/// whole stream.
pub proof fn lemma_stream_prefix(ts: Seq<Transaction>, k: int, p: int)
    requires
        0 <= k < ts.len(),
        0 <= p <= ts[k].postings@.len(),
    ensures
        postings_of_txns(ts.take(k)) + ts[k].postings@.take(p) =~= postings_of_txns(ts).take(
            postings_of_txns(ts.take(k)).len() + p,
        ),
        postings_of_txns(ts.take(k)).len() + p <= postings_of_txns(ts).len(),
{
    lemma_postings_decompose(ts, k);
    assert(ts.skip(k)[0] == ts[k]);
    assert(ts.skip(k).skip(1) =~= ts.skip(k + 1));
    assert(postings_of_txns(ts.skip(k)) =~= ts[k].postings@ + postings_of_txns(ts.skip(k + 1)));
}

/// The posting stream of concatenated transaction lists is the
/// concatenation of their posting streams.
pub proof fn lemma_postings_append(a: Seq<Transaction>, b: Seq<Transaction>)
    ensures
        postings_of_txns(a + b) =~= postings_of_txns(a) + postings_of_txns(b),
{
    lemma_postings_decompose(a + b, a.len() as int);
    assert((a + b).take(a.len() as int) =~= a);
    assert((a + b).skip(a.len() as int) =~= b);
}

/// Inside journal `k`, the transactions handled so far are a prefix of the
/// whole transaction stream.
pub proof fn lemma_journal_prefix(js: Seq<Journal>, k: int, p: int)
    requires
        0 <= k < js.len(),
        0 <= p <= js[k].transactions@.len(),
    ensures
        txns_of_journals(js.take(k)) + js[k].transactions@.take(p) =~= txns_of_journals(js).take(
            txns_of_journals(js.take(k)).len() + p,
        ),
        txns_of_journals(js.take(k)).len() + p <= txns_of_journals(js).len(),
{
    lemma_txns_decompose(js, k);
    assert(js.skip(k)[0] == js[k]);
    assert(js.skip(k).skip(1) =~= js.skip(k + 1));
    assert(txns_of_journals(js.skip(k)) =~= js[k].transactions@ + txns_of_journals(js.skip(k + 1)));
}

} // verus!
