//! The register report: one row per transaction, with per-commodity running
//! totals, laid out on a grid measured over the whole row set.
//!
//! Five column widths — header, account, commodity, amount, running total —
//! are each the maximum over all rows and sub-lines; a fixed spacing offset
//! separates columns. Additional commodities of a running total wrap onto
//! continuation lines indented under the running-total column.

use crate::format::{format_amount, spec_format_amount};
use crate::model::{
    all_balanced, amounts_wf, postings_of_txns, txns_of_journals, txns_of_ledger, AggregationError,
    Ledger, Posting, State, Transaction,
};
use crate::rational::Rational;
use crate::span::{span_views, Span, Style};
use crate::text::{append_spaces, pad_left, pad_right, repeat_char, spec_pad_left, spec_pad_right};
use crate::totals::{
    add_amount, apply_fits, apply_postings, entries_wf, lemma_fits_take, sorted_keys, totals_fit,
    totals_of, views_of,
};
use vstd::prelude::*;

verus! {

/// The fixed spacing applied wherever columns meet.
pub const WIDTH_OFFSET: usize = 4;

/// A commodity and amount cell: both right-aligned to their column widths,
/// followed by the double spacing offset.
pub open spec fn spec_commodity_amount(c: Seq<char>, a: Seq<char>, cw: nat, aw: nat) -> Seq<char> {
    spec_pad_left(c, cw) + spec_pad_left(a, aw) + repeat_char(' ', 8)
}

/// A running-total cell on the row's own line: commodity and total amount
/// right-aligned, no trailing spacing.
pub open spec fn spec_total_commodity_amount(c: Seq<char>, a: Seq<char>, cw: nat, aw: nat) -> Seq<
    char,
> {
    spec_pad_left(c, cw) + spec_pad_left(a, aw)
}

/// A wrapped running-total cell: a new line indented by the sum of all
/// preceding column widths and their spacing, so it stacks under the
/// running-total column.
pub open spec fn spec_total_commodity_amount_offset(
    c: Seq<char>,
    a: Seq<char>,
    hw: nat,
    acw: nat,
    cw: nat,
    aw: nat,
) -> Seq<char> {
    seq!['\n'] + repeat_char(' ', hw + 4 + acw + 4 + cw + aw + 8) + spec_pad_left(c, cw)
        + spec_pad_left(a, aw)
}

/// Renders one commodity-and-amount cell of a register row.
pub fn format_commodity_amount(
    commodity: &str,
    amount: &str,
    commodity_width: usize,
    amount_width: usize,
) -> (r: String)
    ensures
        r@ == spec_commodity_amount(
            commodity@,
            amount@,
            commodity_width as nat,
            amount_width as nat,
        ),
{
    let c = pad_left(commodity, commodity_width);
    let a = pad_left(amount, amount_width);
    let r = append_spaces(c.concat(a.as_str()), 8);
    proof {
        assert(r@ =~= spec_commodity_amount(
            commodity@,
            amount@,
            commodity_width as nat,
            amount_width as nat,
        ));
    }
    r
}

/// Renders the first running-total cell of a register row.
pub fn format_total_commodity_amount(
    commodity: &str,
    amount: &str,
    commodity_width: usize,
    amount_width: usize,
) -> (r: String)
    ensures
        r@ == spec_total_commodity_amount(
            commodity@,
            amount@,
            commodity_width as nat,
            amount_width as nat,
        ),
{
    let c = pad_left(commodity, commodity_width);
    let a = pad_left(amount, amount_width);
    let r = c.concat(a.as_str());
    proof {
        assert(r@ =~= spec_total_commodity_amount(
            commodity@,
            amount@,
            commodity_width as nat,
            amount_width as nat,
        ));
    }
    r
}

/// Renders a wrapped running-total cell, on its own indented line.
pub fn format_total_commodity_amount_offset(
    commodity: &str,
    amount: &str,
    header_width: usize,
    account_width: usize,
    commodity_width: usize,
    amount_width: usize,
) -> (r: String)
    requires
        header_width + account_width + commodity_width + amount_width + 16 <= usize::MAX,
    ensures
        r@ == spec_total_commodity_amount_offset(
            commodity@,
            amount@,
            header_width as nat,
            account_width as nat,
            commodity_width as nat,
            amount_width as nat,
        ),
{
    proof {
        reveal_strlit("\n");
    }
    let offset = header_width + WIDTH_OFFSET + account_width + WIDTH_OFFSET + commodity_width
        + amount_width + WIDTH_OFFSET * 2;
    let indented = append_spaces(String::from_str("\n"), offset);
    let c = pad_left(commodity, commodity_width);
    let a = pad_left(amount, amount_width);
    let r = indented.concat(c.as_str()).concat(a.as_str());
    proof {
        assert(r@ =~= spec_total_commodity_amount_offset(
            commodity@,
            amount@,
            header_width as nat,
            account_width as nat,
            commodity_width as nat,
            amount_width as nat,
        ));
    }
    r
}

/// One running-total entry of a register row: commodity, rendered amount,
/// and whether the amount is negative (the highlight decision).
pub struct RegisterTotal {
    pub commodity: String,
    pub amount: String,
    pub negative: bool,
}

/// One account line of a register row.
pub struct RegisterAccount {
    pub name: String,
    pub commodity: String,
    pub amount: String,
    pub negative: bool,
    pub totals: Vec<RegisterTotal>,
}

/// One register row: a transaction header and its account lines.
pub struct RegisterRow {
    pub header: String,
    pub accounts: Vec<RegisterAccount>,
}

/// The view of a running-total entry list.
pub open spec fn total_views(v: Seq<RegisterTotal>) -> Seq<(Seq<char>, Seq<char>, bool)> {
    v.map_values(|t: RegisterTotal| (t.commodity@, t.amount@, t.negative))
}

/// The view of an account line list.
pub open spec fn account_views(v: Seq<RegisterAccount>) -> Seq<
    (Seq<char>, Seq<char>, Seq<char>, bool, Seq<(Seq<char>, Seq<char>, bool)>),
> {
    v.map_values(
        |a: RegisterAccount|
            (a.name@, a.commodity@, a.amount@, a.negative, total_views(a.totals@)),
    )
}

/// The view of a row list.
pub open spec fn row_views(v: Seq<RegisterRow>) -> Seq<
    (Seq<char>, Seq<(Seq<char>, Seq<char>, Seq<char>, bool, Seq<(Seq<char>, Seq<char>, bool)>)>),
> {
    v.map_values(|r: RegisterRow| (r.header@, account_views(r.accounts@)))
}

/// The clearing mark between date and description.
pub open spec fn state_text(s: State) -> Seq<char> {
    match s {
        State::Cleared => seq![' ', '*', ' '],
        State::Uncleared => seq![' '],
        State::Pending => seq![' ', '!', ' '],
    }
}

/// A row's header: date, clearing mark, description.
pub open spec fn header_of(t: Transaction) -> Seq<char> {
    t.date@ + state_text(t.state) + t.description@
}

/// The rendered snapshot of the running totals at one posting: the whole
/// mapping, every commodity accumulated so far, not just the one touched.
pub open spec fn snapshot_of(m: Seq<(Seq<char>, Rational)>) -> Seq<(Seq<char>, Seq<char>, bool)> {
    m.map_values(
        |e: (Seq<char>, Rational)|
            (e.0, spec_format_amount(e.1.num as int, e.1.den as int), e.1.num < 0),
    )
}

/// The view of one account line for posting `p`, with running totals `m`.
pub open spec fn account_of(p: Posting, m: Seq<(Seq<char>, Rational)>) -> (
    Seq<char>,
    Seq<char>,
    Seq<char>,
    bool,
    Seq<(Seq<char>, Seq<char>, bool)>,
) {
    match p.balanced_amount {
        Option::Some(b) => (
            p.account@,
            b.commodity@,
            spec_format_amount(b.amount.num as int, b.amount.den as int),
            b.amount.num < 0,
            snapshot_of(m),
        ),
        Option::None => (p.account@, Seq::empty(), Seq::empty(), false, snapshot_of(m)),
    }
}

/// The account lines of one transaction's postings, starting from the
/// running totals `m0` reached before the transaction; each line snapshots
/// the totals after its own posting.
pub open spec fn accounts_of_postings(ps: Seq<Posting>, m0: Seq<(Seq<char>, Rational)>) -> Seq<
    (Seq<char>, Seq<char>, Seq<char>, bool, Seq<(Seq<char>, Seq<char>, bool)>),
>
    decreases ps.len(),
{
    if ps.len() == 0 {
        Seq::empty()
    } else {
        accounts_of_postings(ps.drop_last(), m0).push(
            account_of(ps.last(), apply_postings(m0, ps)),
        )
    }
}

/// All register rows of a transaction stream, in stream order.
pub open spec fn rows_of_txns(ts: Seq<Transaction>) -> Seq<
    (Seq<char>, Seq<(Seq<char>, Seq<char>, Seq<char>, bool, Seq<(Seq<char>, Seq<char>, bool)>)>),
>
    decreases ts.len(),
{
    if ts.len() == 0 {
        Seq::empty()
    } else {
        rows_of_txns(ts.drop_last()).push(
            (
                header_of(ts.last()),
                accounts_of_postings(
                    ts.last().postings@,
                    totals_of(postings_of_txns(ts.drop_last())),
                ),
            ),
        )
    }
}

/// Builds a row header.
fn header_string(t: &Transaction) -> (r: String)
    ensures
        r@ == header_of(*t),
{
    proof {
        reveal_strlit(" * ");
        reveal_strlit(" ");
        reveal_strlit(" ! ");
    }
    let mark: &str = match t.state {
        State::Cleared => " * ",
        State::Uncleared => " ",
        State::Pending => " ! ",
    };
    let r = String::from_str(t.date.as_str()).concat(mark).concat(t.description.as_str());
    proof {
        assert(r@ =~= header_of(*t));
    }
    r
}

/// Renders the current running totals as a row snapshot.
fn snapshot_totals(totals: &Vec<(String, Rational)>) -> (r: Vec<RegisterTotal>)
    requires
        entries_wf(views_of(totals@)),
    ensures
        total_views(r@) == snapshot_of(views_of(totals@)),
{
    let ghost tt = views_of(totals@);
    let mut r: Vec<RegisterTotal> = Vec::new();
    let mut i: usize = 0;
    proof {
        assert(tt.take(0) =~= Seq::<(Seq<char>, Rational)>::empty());
        assert(total_views(r@) =~~= snapshot_of(tt.take(0)));
    }
    while i < totals.len()
        invariant
            0 <= i <= totals.len(),
            tt == views_of(totals@),
            entries_wf(tt),
            total_views(r@) == snapshot_of(tt.take(i as int)),
        decreases totals.len() - i,
    {
        proof {
            assert(tt[i as int] == (totals@[i as int].0@, totals@[i as int].1));
        }
        let amount = format_amount(&totals[i].1);
        let entry = RegisterTotal {
            commodity: totals[i].0.clone(),
            amount,
            negative: totals[i].1.is_negative(),
        };
        let ghost ev = (entry.commodity@, entry.amount@, entry.negative);
        let ghost prev = total_views(r@);
        r.push(entry);
        proof {
            assert(total_views(r@) =~~= prev + seq![ev]);
            assert(tt.take(i + 1).drop_last() =~= tt.take(i as int));
            assert(tt.take(i + 1).last() == tt[i as int]);
            assert(total_views(r@) =~~= snapshot_of(tt.take(i + 1)));
        }
        i = i + 1;
    }
    proof {
        assert(tt.take(totals@.len() as int) =~= tt);
    }
    r
}

/// Builds one register row per transaction of the ledger, maintaining the
/// per-commodity running totals across the whole stream; fails precisely
/// when some posting lacks its balanced amount.
pub fn build_rows(ledger: &Ledger) -> (r: Result<Vec<RegisterRow>, AggregationError>)
    requires
        amounts_wf(postings_of_txns(txns_of_ledger(*ledger))),
        totals_fit(postings_of_txns(txns_of_ledger(*ledger))),
    ensures
        match r {
            Ok(rows) => all_balanced(postings_of_txns(txns_of_ledger(*ledger))) && row_views(
                rows@,
            ) == rows_of_txns(txns_of_ledger(*ledger)),
            Err(e) => !all_balanced(postings_of_txns(txns_of_ledger(*ledger))) && e
                == AggregationError::MissingBalancedAmount,
        },
{
    let ghost txns = txns_of_ledger(*ledger);
    let ghost stream = postings_of_txns(txns);
    let mut rows: Vec<RegisterRow> = Vec::new();
    let mut totals: Vec<(String, Rational)> = Vec::new();
    let ghost mut k: int = 0;
    let ghost mut n: int = 0;
    proof {
        assert(txns.take(0) =~= Seq::<Transaction>::empty());
        assert(stream.take(0) =~= Seq::<Posting>::empty());
        assert(row_views(rows@) =~~= rows_of_txns(txns.take(0)));
        assert(views_of(totals@) =~= apply_postings(Seq::empty(), stream.take(0)));
    }
    let mut ji: usize = 0;
    while ji < ledger.journals.len()
        invariant
            0 <= ji <= ledger.journals.len(),
            txns == txns_of_ledger(*ledger),
            stream == postings_of_txns(txns),
            amounts_wf(stream),
            apply_fits(Seq::empty(), stream),
            k == txns_of_journals(ledger.journals@.take(ji as int)).len(),
            0 <= k <= txns.len(),
            n == postings_of_txns(txns.take(k)).len(),
            0 <= n <= stream.len(),
            views_of(totals@) == totals_of(stream.take(n)),
            sorted_keys(views_of(totals@)),
            entries_wf(views_of(totals@)),
            row_views(rows@) == rows_of_txns(txns.take(k)),
            all_balanced(stream.take(n)),
        decreases ledger.journals.len() - ji,
    {
        let j = &ledger.journals[ji];
        let ghost k0 = k;
        proof {
            crate::model::lemma_journal_prefix(ledger.journals@, ji as int, 0);
            assert(txns_of_journals(ledger.journals@.take(ji as int)) + j.transactions@.take(0)
                =~= txns_of_journals(ledger.journals@.take(ji as int)));
        }
        let mut ti: usize = 0;
        while ti < j.transactions.len()
            invariant
                0 <= ti <= j.transactions.len(),
                txns == txns_of_ledger(*ledger),
                stream == postings_of_txns(txns),
                amounts_wf(stream),
                apply_fits(Seq::empty(), stream),
                0 <= ji < ledger.journals@.len(),
                j == ledger.journals@[ji as int],
                k0 == txns_of_journals(ledger.journals@.take(ji as int)).len(),
                k == k0 + ti,
                0 <= k <= txns.len(),
                txns.take(k) =~= txns_of_journals(ledger.journals@.take(ji as int))
                    + j.transactions@.take(ti as int),
                n == postings_of_txns(txns.take(k)).len(),
                0 <= n <= stream.len(),
                views_of(totals@) == totals_of(stream.take(n)),
                sorted_keys(views_of(totals@)),
                entries_wf(views_of(totals@)),
                row_views(rows@) == rows_of_txns(txns.take(k)),
                all_balanced(stream.take(n)),
            decreases j.transactions.len() - ti,
        {
            let t = &j.transactions[ti];
            proof {
                crate::model::lemma_journal_prefix(ledger.journals@, ji as int, ti + 1);
                assert(txns.take(k + 1) =~= txns_of_journals(ledger.journals@.take(ji as int))
                    + j.transactions@.take(ti + 1));
                assert(txns.take(k + 1).last() == j.transactions@[ti as int]);
                assert(txns[k] == j.transactions@[ti as int]);
            }
            let ghost n0 = n;
            let ghost m0 = totals_of(stream.take(n0));
            let mut accs: Vec<RegisterAccount> = Vec::new();
            let mut pi: usize = 0;
            proof {
                crate::model::lemma_stream_prefix(txns, k, 0);
                assert(postings_of_txns(txns.take(k)) + t.postings@.take(0) =~= postings_of_txns(
                    txns.take(k),
                ));
                assert(t.postings@.take(0) =~= Seq::<Posting>::empty());
                assert(account_views(accs@) =~~= accounts_of_postings(t.postings@.take(0), m0));
            }
            while pi < t.postings.len()
                invariant
                    0 <= pi <= t.postings.len(),
                    txns == txns_of_ledger(*ledger),
                    stream == postings_of_txns(txns),
                    amounts_wf(stream),
                    apply_fits(Seq::empty(), stream),
                    0 <= k < txns.len(),
                    t == txns[k],
                    n0 == postings_of_txns(txns.take(k)).len(),
                    n == n0 + pi,
                    0 <= n <= stream.len(),
                    m0 == totals_of(stream.take(n0)),
                    stream.take(n) =~= postings_of_txns(txns.take(k)) + t.postings@.take(
                        pi as int,
                    ),
                    views_of(totals@) == totals_of(stream.take(n)),
                    sorted_keys(views_of(totals@)),
                    entries_wf(views_of(totals@)),
                    account_views(accs@) == accounts_of_postings(t.postings@.take(pi as int), m0),
                    all_balanced(stream.take(n)),
                decreases t.postings.len() - pi,
            {
                proof {
                    crate::model::lemma_stream_prefix(txns, k, pi + 1);
                    assert(stream.take(n + 1) =~= postings_of_txns(txns.take(k))
                        + t.postings@.take(pi + 1));
                    assert(stream.take(n + 1).drop_last() =~= stream.take(n));
                    assert(stream.take(n + 1).last() == t.postings@[pi as int]);
                    assert(stream[n] == t.postings@[pi as int]);
                    lemma_fits_take(Seq::empty(), stream, n + 1);
                }
                match &t.postings[pi].balanced_amount {
                    Option::None => {
                        proof {
                            assert(!all_balanced(stream));
                        }
                        return Err(AggregationError::MissingBalancedAmount);
                    },
                    Option::Some(b) => {
                        add_amount(&mut totals, &b.commodity, &b.amount);
                        let snap = snapshot_totals(&totals);
                        let amount = format_amount(&b.amount);
                        let entry = RegisterAccount {
                            name: t.postings[pi].account.clone(),
                            commodity: b.commodity.clone(),
                            amount,
                            negative: b.amount.is_negative(),
                            totals: snap,
                        };
                        let ghost ev = (
                            entry.name@,
                            entry.commodity@,
                            entry.amount@,
                            entry.negative,
                            total_views(entry.totals@),
                        );
                        let ghost prev = account_views(accs@);
                        accs.push(entry);
                        proof {
                            assert(account_views(accs@) =~~= prev + seq![ev]);
                            crate::totals::lemma_apply_append(
                                Seq::empty(),
                                stream.take(n0),
                                t.postings@.take(pi + 1),
                            );
                            assert(stream.take(n0) + t.postings@.take(pi + 1) =~= stream.take(
                                n + 1,
                            ));
                            assert(apply_postings(m0, t.postings@.take(pi + 1)) == totals_of(
                                stream.take(n + 1),
                            ));
                            assert(t.postings@.take(pi + 1).drop_last() =~= t.postings@.take(
                                pi as int,
                            ));
                            assert(t.postings@.take(pi + 1).last() == t.postings@[pi as int]);
                            assert(ev =~~= account_of(
                                t.postings@[pi as int],
                                apply_postings(m0, t.postings@.take(pi + 1)),
                            ));
                            assert(account_views(accs@) =~~= accounts_of_postings(
                                t.postings@.take(pi + 1),
                                m0,
                            ));
                            assert(all_balanced(stream.take(n + 1))) by {
                                assert(forall|x: int|
                                    0 <= x < n ==> stream.take(n + 1)[x] == stream.take(n)[x]);
                            };
                        }
                    },
                }
                proof {
                    n = n + 1;
                }
                pi = pi + 1;
            }
            let header = header_string(t);
            let ghost rv = (header@, account_views(accs@));
            let ghost prevrows = row_views(rows@);
            rows.push(RegisterRow { header, accounts: accs });
            proof {
                assert(row_views(rows@) =~~= prevrows + seq![rv]);
                assert(t.postings@.take(t.postings@.len() as int) =~= t.postings@);
                assert(txns.take(k + 1).drop_last() =~= txns.take(k));
                assert(stream.take(n0) =~= postings_of_txns(txns.take(k)));
                assert(rv =~~= (
                    header_of(txns[k]),
                    accounts_of_postings(
                        txns[k].postings@,
                        totals_of(postings_of_txns(txns.take(k))),
                    ),
                ));
                assert(row_views(rows@) =~~= rows_of_txns(txns.take(k + 1)));
                crate::model::lemma_stream_prefix(txns, k, txns[k].postings@.len() as int);
                assert(stream.take(n) =~= postings_of_txns(txns.take(k)) + txns[k].postings@);
                assert(postings_of_txns(txns.take(k + 1)) =~= postings_of_txns(txns.take(k))
                    + txns[k].postings@) by {
                    crate::model::lemma_postings_decompose(txns.take(k + 1), k);
                    assert(txns.take(k + 1).take(k) =~= txns.take(k));
                    assert(txns.take(k + 1).skip(k) =~= seq![txns[k]]);
                    assert(seq![txns[k]].skip(1) =~= Seq::<Transaction>::empty());
                    assert(seq![txns[k]][0] == txns[k]);
                    assert(postings_of_txns(seq![txns[k]]) =~= txns[k].postings@
                        + postings_of_txns(Seq::<Transaction>::empty()));
                };
                assert(n == postings_of_txns(txns.take(k + 1)).len());
                k = k + 1;
            }
            ti = ti + 1;
        }
        proof {
            crate::model::lemma_journal_prefix(
                ledger.journals@,
                ji as int,
                j.transactions@.len() as int,
            );
            assert(j.transactions@.take(j.transactions@.len() as int) =~= j.transactions@);
            crate::model::lemma_txns_decompose(ledger.journals@.take(ji + 1), ji as int);
            assert(ledger.journals@.take(ji + 1).take(ji as int) =~= ledger.journals@.take(
                ji as int,
            ));
            assert(ledger.journals@.take(ji + 1).skip(ji as int) =~= seq![
                ledger.journals@[ji as int],
            ]);
            assert(seq![ledger.journals@[ji as int]].skip(1) =~= Seq::<
                crate::model::Journal,
            >::empty());
            assert(seq![ledger.journals@[ji as int]][0] == ledger.journals@[ji as int]);
            assert(txns_of_journals(seq![ledger.journals@[ji as int]])
                =~= ledger.journals@[ji as int].transactions@ + txns_of_journals(Seq::<
                crate::model::Journal,
            >::empty()));
            assert(txns_of_journals(ledger.journals@.take(ji + 1)) =~= txns_of_journals(
                ledger.journals@.take(ji as int),
            ) + j.transactions@);
            assert(txns.take(k) =~= txns_of_journals(ledger.journals@.take(ji + 1)));
            assert(k == txns_of_journals(ledger.journals@.take(ji + 1)).len());
        }
        ji = ji + 1;
    }
    proof {
        assert(ledger.journals@.take(ledger.journals@.len() as int) =~= ledger.journals@);
        assert(txns.take(k) =~= txns);
        assert(stream.take(n) =~= stream) by {
            assert(k == txns.len());
            assert(n == postings_of_txns(txns.take(k)).len());
            assert(txns.take(k) =~= txns);
        };
    }
    Ok(rows)
}

/// The widest header across the rows.
pub open spec fn header_width_of(
    rows: Seq<
        (
            Seq<char>,
            Seq<(Seq<char>, Seq<char>, Seq<char>, bool, Seq<(Seq<char>, Seq<char>, bool)>)>,
        ),
    >,
) -> nat
    decreases rows.len(),
{
    if rows.len() == 0 {
        0
    } else {
        vstd::math::max(header_width_of(rows.drop_last()) as int, rows.last().0.len() as int) as nat
    }
}

/// The widest account name within one row.
pub open spec fn accs_name_width(
    accs: Seq<(Seq<char>, Seq<char>, Seq<char>, bool, Seq<(Seq<char>, Seq<char>, bool)>)>,
) -> nat
    decreases accs.len(),
{
    if accs.len() == 0 {
        0
    } else {
        vstd::math::max(accs_name_width(accs.drop_last()) as int, accs.last().0.len() as int) as nat
    }
}

/// The widest account name across the rows.
pub open spec fn name_width_of(
    rows: Seq<
        (
            Seq<char>,
            Seq<(Seq<char>, Seq<char>, Seq<char>, bool, Seq<(Seq<char>, Seq<char>, bool)>)>,
        ),
    >,
) -> nat
    decreases rows.len(),
{
    if rows.len() == 0 {
        0
    } else {
        vstd::math::max(
            name_width_of(rows.drop_last()) as int,
            accs_name_width(rows.last().1) as int,
        ) as nat
    }
}

/// The widest commodity symbol within one row.
pub open spec fn accs_commodity_width(
    accs: Seq<(Seq<char>, Seq<char>, Seq<char>, bool, Seq<(Seq<char>, Seq<char>, bool)>)>,
) -> nat
    decreases accs.len(),
{
    if accs.len() == 0 {
        0
    } else {
        vstd::math::max(
            accs_commodity_width(accs.drop_last()) as int,
            accs.last().1.len() as int,
        ) as nat
    }
}

/// The widest commodity symbol across the rows.
pub open spec fn commodity_width_of(
    rows: Seq<
        (
            Seq<char>,
            Seq<(Seq<char>, Seq<char>, Seq<char>, bool, Seq<(Seq<char>, Seq<char>, bool)>)>,
        ),
    >,
) -> nat
    decreases rows.len(),
{
    if rows.len() == 0 {
        0
    } else {
        vstd::math::max(
            commodity_width_of(rows.drop_last()) as int,
            accs_commodity_width(rows.last().1) as int,
        ) as nat
    }
}

/// The widest primary amount within one row.
pub open spec fn accs_amount_width(
    accs: Seq<(Seq<char>, Seq<char>, Seq<char>, bool, Seq<(Seq<char>, Seq<char>, bool)>)>,
) -> nat
    decreases accs.len(),
{
    if accs.len() == 0 {
        0
    } else {
        vstd::math::max(
            accs_amount_width(accs.drop_last()) as int,
            accs.last().2.len() as int,
        ) as nat
    }
}

/// The widest primary amount across the rows.
pub open spec fn amount_width_of(
    rows: Seq<
        (
            Seq<char>,
            Seq<(Seq<char>, Seq<char>, Seq<char>, bool, Seq<(Seq<char>, Seq<char>, bool)>)>,
        ),
    >,
) -> nat
    decreases rows.len(),
{
    if rows.len() == 0 {
        0
    } else {
        vstd::math::max(
            amount_width_of(rows.drop_last()) as int,
            accs_amount_width(rows.last().1) as int,
        ) as nat
    }
}

/// The widest rendered running total within one snapshot.
pub open spec fn tots_amount_width(tots: Seq<(Seq<char>, Seq<char>, bool)>) -> nat
    decreases tots.len(),
{
    if tots.len() == 0 {
        0
    } else {
        vstd::math::max(
            tots_amount_width(tots.drop_last()) as int,
            tots.last().1.len() as int,
        ) as nat
    }
}

/// The widest rendered running total within one row.
pub open spec fn accs_total_width(
    accs: Seq<(Seq<char>, Seq<char>, Seq<char>, bool, Seq<(Seq<char>, Seq<char>, bool)>)>,
) -> nat
    decreases accs.len(),
{
    if accs.len() == 0 {
        0
    } else {
        vstd::math::max(
            accs_total_width(accs.drop_last()) as int,
            tots_amount_width(accs.last().4) as int,
        ) as nat
    }
}

/// The widest rendered running total across the rows.
pub open spec fn total_width_of(
    rows: Seq<
        (
            Seq<char>,
            Seq<(Seq<char>, Seq<char>, Seq<char>, bool, Seq<(Seq<char>, Seq<char>, bool)>)>,
        ),
    >,
) -> nat
    decreases rows.len(),
{
    if rows.len() == 0 {
        0
    } else {
        vstd::math::max(
            total_width_of(rows.drop_last()) as int,
            accs_total_width(rows.last().1) as int,
        ) as nat
    }
}

/// The Running-Total Tracker and the Balance Aggregator agree: the running
/// totals snapshot attached to the last posting of the stream is exactly the
/// rendered grand total of the same stream.
pub proof fn lemma_final_snapshot_is_grand_total(ts: Seq<Transaction>)
    requires
        ts.len() > 0,
        ts.last().postings@.len() > 0,
    ensures
        rows_of_txns(ts).last().1.last().4 == snapshot_of(totals_of(postings_of_txns(ts))),
{
    let last_t = ts.last();
    let m0 = totals_of(postings_of_txns(ts.drop_last()));
    assert(rows_of_txns(ts).last() == (
        header_of(last_t),
        accounts_of_postings(last_t.postings@, m0),
    ));
    let accs = accounts_of_postings(last_t.postings@, m0);
    assert(accs.last() == account_of(
        last_t.postings@.last(),
        apply_postings(m0, last_t.postings@),
    ));
    crate::model::lemma_postings_decompose(ts, ts.len() - 1);
    assert(ts.take(ts.len() - 1) =~= ts.drop_last());
    assert(ts.skip(ts.len() - 1) =~= seq![last_t]);
    assert(seq![last_t].skip(1) =~= Seq::<Transaction>::empty());
    assert(seq![last_t][0] == last_t);
    assert(postings_of_txns(seq![last_t]) =~= last_t.postings@ + postings_of_txns(Seq::<
        Transaction,
    >::empty()));
    assert(postings_of_txns(ts) =~= postings_of_txns(ts.drop_last()) + last_t.postings@);
    crate::totals::lemma_apply_append(
        Seq::empty(),
        postings_of_txns(ts.drop_last()),
        last_t.postings@,
    );
    assert(apply_postings(m0, last_t.postings@) == totals_of(postings_of_txns(ts)));
}

/// How an amount is presented: negative amounts are flagged, nothing else.
pub open spec fn style_of(neg: bool) -> Style {
    if neg {
        Style::Negative
    } else {
        Style::Plain
    }
}

/// The indent of an additional account line: a new line, then blanks under
/// the whole header column.
pub open spec fn cont_indent(hw: nat) -> Seq<char> {
    seq!['\n'] + repeat_char(' ', hw + 4)
}

/// The blanks that left-align an account name to its column.
pub open spec fn name_pad(namelen: nat, acw: nat) -> Seq<char> {
    if namelen >= acw + 4 {
        Seq::empty()
    } else {
        repeat_char(' ', (acw + 4 - namelen) as nat)
    }
}

/// The running-total cells of one account line: the first inline, the rest
/// wrapped under the running-total column.
pub open spec fn tot_spans(
    tots: Seq<(Seq<char>, Seq<char>, bool)>,
    hw: nat,
    acw: nat,
    cw: nat,
    taw: nat,
) -> Seq<(Seq<char>, Style)>
    decreases tots.len(),
{
    if tots.len() == 0 {
        Seq::empty()
    } else if tots.len() == 1 {
        seq![
            (spec_total_commodity_amount(tots[0].0, tots[0].1, cw, taw), style_of(tots[0].2)),
        ]
    } else {
        tot_spans(tots.drop_last(), hw, acw, cw, taw) + seq![
            (
                spec_total_commodity_amount_offset(
                    tots.last().0,
                    tots.last().1,
                    hw,
                    acw,
                    cw,
                    taw,
                ),
                style_of(tots.last().2),
            ),
        ]
    }
}

/// The spans of one account line: name, its padding, the amount cell, then
/// the running totals.
pub open spec fn one_account_spans(
    a: (Seq<char>, Seq<char>, Seq<char>, bool, Seq<(Seq<char>, Seq<char>, bool)>),
    hw: nat,
    acw: nat,
    cw: nat,
    amw: nat,
    taw: nat,
) -> Seq<(Seq<char>, Style)> {
    seq![
        (a.0, Style::Account),
        (name_pad(a.0.len(), acw), Style::Plain),
        (spec_commodity_amount(a.1, a.2, cw, amw), style_of(a.3)),
    ] + tot_spans(a.4, hw, acw, cw, taw)
}

/// The spans of a row's account lines, later accounts on indented lines.
pub open spec fn acc_spans(
    accs: Seq<(Seq<char>, Seq<char>, Seq<char>, bool, Seq<(Seq<char>, Seq<char>, bool)>)>,
    hw: nat,
    acw: nat,
    cw: nat,
    amw: nat,
    taw: nat,
) -> Seq<(Seq<char>, Style)>
    decreases accs.len(),
{
    if accs.len() == 0 {
        Seq::empty()
    } else if accs.len() == 1 {
        one_account_spans(accs[0], hw, acw, cw, amw, taw)
    } else {
        acc_spans(accs.drop_last(), hw, acw, cw, amw, taw) + seq![
            (cont_indent(hw), Style::Plain),
        ] + one_account_spans(accs.last(), hw, acw, cw, amw, taw)
    }
}

/// The spans of one register row: padded header, account lines, newline.
pub open spec fn row_spans(
    row: (
        Seq<char>,
        Seq<(Seq<char>, Seq<char>, Seq<char>, bool, Seq<(Seq<char>, Seq<char>, bool)>)>,
    ),
    hw: nat,
    acw: nat,
    cw: nat,
    amw: nat,
    taw: nat,
) -> Seq<(Seq<char>, Style)> {
    seq![(spec_pad_right(row.0, hw + 4), Style::Plain)] + acc_spans(row.1, hw, acw, cw, amw, taw)
        + seq![(seq!['\n'], Style::Plain)]
}

/// The spans of the whole register, row after row.
pub open spec fn rows_spans(
    rows: Seq<
        (
            Seq<char>,
            Seq<(Seq<char>, Seq<char>, Seq<char>, bool, Seq<(Seq<char>, Seq<char>, bool)>)>,
        ),
    >,
    hw: nat,
    acw: nat,
    cw: nat,
    amw: nat,
    taw: nat,
) -> Seq<(Seq<char>, Style)>
    decreases rows.len(),
{
    if rows.len() == 0 {
        Seq::empty()
    } else {
        rows_spans(rows.drop_last(), hw, acw, cw, amw, taw) + row_spans(
            rows.last(),
            hw,
            acw,
            cw,
            amw,
            taw,
        )
    }
}

/// The register report of a transaction stream, fully determined by the
/// stream: rows in stream order, on the grid measured over all rows.
pub open spec fn spec_register_report(ts: Seq<Transaction>) -> Seq<(Seq<char>, Style)> {
    let rows = rows_of_txns(ts);
    rows_spans(
        rows,
        header_width_of(rows),
        name_width_of(rows),
        commodity_width_of(rows),
        amount_width_of(rows),
        total_width_of(rows),
    )
}

/// Measures the five column widths over the complete row set.
fn compute_widths(rows: &Vec<RegisterRow>) -> (w: (usize, usize, usize, usize, usize))
    ensures
        w.0 as nat == header_width_of(row_views(rows@)),
        w.1 as nat == name_width_of(row_views(rows@)),
        w.2 as nat == commodity_width_of(row_views(rows@)),
        w.3 as nat == amount_width_of(row_views(rows@)),
        w.4 as nat == total_width_of(row_views(rows@)),
{
    let ghost rv = row_views(rows@);
    let mut hw: usize = 0;
    let mut nw: usize = 0;
    let mut cw: usize = 0;
    let mut aw: usize = 0;
    let mut tw: usize = 0;
    let mut i: usize = 0;
    proof {
        assert(rv.take(0) =~= Seq::<
            (
                Seq<char>,
                Seq<(Seq<char>, Seq<char>, Seq<char>, bool, Seq<(Seq<char>, Seq<char>, bool)>)>,
            ),
        >::empty());
    }
    while i < rows.len()
        invariant
            0 <= i <= rows.len(),
            rv == row_views(rows@),
            hw as nat == header_width_of(rv.take(i as int)),
            nw as nat == name_width_of(rv.take(i as int)),
            cw as nat == commodity_width_of(rv.take(i as int)),
            aw as nat == amount_width_of(rv.take(i as int)),
            tw as nat == total_width_of(rv.take(i as int)),
        decreases rows.len() - i,
    {
        proof {
            assert(rv[i as int] == (rows@[i as int].header@, account_views(
                rows@[i as int].accounts@,
            )));
        }
        let row = &rows[i];
        let hl = row.header.as_str().unicode_len();
        if hl > hw {
            hw = hl;
        }
        let ghost av = account_views(row.accounts@);
        let mut j: usize = 0;
        proof {
            assert(av.take(0) =~= Seq::<
                (Seq<char>, Seq<char>, Seq<char>, bool, Seq<(Seq<char>, Seq<char>, bool)>),
            >::empty());
        }
        while j < row.accounts.len()
            invariant
                0 <= j <= row.accounts.len(),
                av == account_views(row.accounts@),
                rv == row_views(rows@),
                0 <= i < rv.len(),
                av == rv[i as int].1,
                nw as nat == vstd::math::max(
                    name_width_of(rv.take(i as int)) as int,
                    accs_name_width(av.take(j as int)) as int,
                ) as nat,
                cw as nat == vstd::math::max(
                    commodity_width_of(rv.take(i as int)) as int,
                    accs_commodity_width(av.take(j as int)) as int,
                ) as nat,
                aw as nat == vstd::math::max(
                    amount_width_of(rv.take(i as int)) as int,
                    accs_amount_width(av.take(j as int)) as int,
                ) as nat,
                tw as nat == vstd::math::max(
                    total_width_of(rv.take(i as int)) as int,
                    accs_total_width(av.take(j as int)) as int,
                ) as nat,
            decreases row.accounts.len() - j,
        {
            proof {
                assert(av[j as int] == (
                    row.accounts@[j as int].name@,
                    row.accounts@[j as int].commodity@,
                    row.accounts@[j as int].amount@,
                    row.accounts@[j as int].negative,
                    total_views(row.accounts@[j as int].totals@),
                ));
            }
            let acc = &row.accounts[j];
            let nl_ = acc.name.as_str().unicode_len();
            if nl_ > nw {
                nw = nl_;
            }
            let cl = acc.commodity.as_str().unicode_len();
            if cl > cw {
                cw = cl;
            }
            let al = acc.amount.as_str().unicode_len();
            if al > aw {
                aw = al;
            }
            let ghost tv = total_views(acc.totals@);
            let mut l: usize = 0;
            proof {
                assert(tv.take(0) =~= Seq::<(Seq<char>, Seq<char>, bool)>::empty());
            }
            while l < acc.totals.len()
                invariant
                    0 <= l <= acc.totals.len(),
                    tv == total_views(acc.totals@),
                    av == account_views(row.accounts@),
                    0 <= j < av.len(),
                    tv == av[j as int].4,
                    rv == row_views(rows@),
                    0 <= i < rv.len(),
                    av == rv[i as int].1,
                    tw as nat == vstd::math::max(
                        vstd::math::max(
                            total_width_of(rv.take(i as int)) as int,
                            accs_total_width(av.take(j as int)) as int,
                        ),
                        tots_amount_width(tv.take(l as int)) as int,
                    ) as nat,
                decreases acc.totals.len() - l,
            {
                proof {
                    assert(tv[l as int] == (
                        acc.totals@[l as int].commodity@,
                        acc.totals@[l as int].amount@,
                        acc.totals@[l as int].negative,
                    ));
                }
                let tl = acc.totals[l].amount.as_str().unicode_len();
                if tl > tw {
                    tw = tl;
                }
                proof {
                    assert(tv.take(l + 1).drop_last() =~= tv.take(l as int));
                    assert(tv.take(l + 1).last() == tv[l as int]);
                }
                l = l + 1;
            }
            proof {
                assert(tv.take(acc.totals@.len() as int) =~= tv);
                assert(av.take(j + 1).drop_last() =~= av.take(j as int));
                assert(av.take(j + 1).last() == av[j as int]);
            }
            j = j + 1;
        }
        proof {
            assert(av.take(row.accounts@.len() as int) =~= av);
            assert(rv.take(i + 1).drop_last() =~= rv.take(i as int));
            assert(rv.take(i + 1).last() == rv[i as int]);
        }
        i = i + 1;
    }
    proof {
        assert(rv.take(rows@.len() as int) =~= rv);
    }
    (hw, nw, cw, aw, tw)
}

/// Renders the rows on the measured grid.
fn render_rows(
    rows: &Vec<RegisterRow>,
    hw: usize,
    acw: usize,
    cw: usize,
    amw: usize,
    taw: usize,
) -> (spans: Vec<Span>)
    requires
        hw + acw + cw + taw + 16 <= usize::MAX,
    ensures
        span_views(spans@) == rows_spans(
            row_views(rows@),
            hw as nat,
            acw as nat,
            cw as nat,
            amw as nat,
            taw as nat,
        ),
{
    let ghost rv = row_views(rows@);
    let mut spans: Vec<Span> = Vec::new();
    let mut i: usize = 0;
    proof {
        assert(rv.take(0) =~= Seq::<
            (
                Seq<char>,
                Seq<(Seq<char>, Seq<char>, Seq<char>, bool, Seq<(Seq<char>, Seq<char>, bool)>)>,
            ),
        >::empty());
        assert(span_views(spans@) =~~= rows_spans(
            rv.take(0),
            hw as nat,
            acw as nat,
            cw as nat,
            amw as nat,
            taw as nat,
        ));
    }
    while i < rows.len()
        invariant
            0 <= i <= rows.len(),
            rv == row_views(rows@),
            hw + acw + cw + taw + 16 <= usize::MAX,
            span_views(spans@) == rows_spans(
                rv.take(i as int),
                hw as nat,
                acw as nat,
                cw as nat,
                amw as nat,
                taw as nat,
            ),
        decreases rows.len() - i,
    {
        proof {
            assert(rv[i as int] == (rows@[i as int].header@, account_views(
                rows@[i as int].accounts@,
            )));
        }
        let row = &rows[i];
        let ghost before = span_views(spans@);
        let header = pad_right(row.header.as_str(), hw + WIDTH_OFFSET);
        let ghost hv = header@;
        spans.push(Span { text: header, style: Style::Plain });
        proof {
            assert(span_views(spans@) =~~= before + seq![(hv, Style::Plain)]);
        }
        let ghost av = account_views(row.accounts@);
        let ghost afterheader = span_views(spans@);
        let mut j: usize = 0;
        proof {
            assert(av.take(0) =~= Seq::<
                (Seq<char>, Seq<char>, Seq<char>, bool, Seq<(Seq<char>, Seq<char>, bool)>),
            >::empty());
            assert(acc_spans(av.take(0), hw as nat, acw as nat, cw as nat, amw as nat, taw as nat)
                =~~= Seq::<(Seq<char>, Style)>::empty());
            assert(span_views(spans@) =~~= afterheader + acc_spans(
                av.take(0),
                hw as nat,
                acw as nat,
                cw as nat,
                amw as nat,
                taw as nat,
            ));
        }
        while j < row.accounts.len()
            invariant
                0 <= j <= row.accounts.len(),
                av == account_views(row.accounts@),
                rv == row_views(rows@),
                0 <= i < rv.len(),
                av == rv[i as int].1,
                hw + acw + cw + taw + 16 <= usize::MAX,
                span_views(spans@) == afterheader + acc_spans(
                    av.take(j as int),
                    hw as nat,
                    acw as nat,
                    cw as nat,
                    amw as nat,
                    taw as nat,
                ),
            decreases row.accounts.len() - j,
        {
            proof {
                assert(av[j as int] == (
                    row.accounts@[j as int].name@,
                    row.accounts@[j as int].commodity@,
                    row.accounts@[j as int].amount@,
                    row.accounts@[j as int].negative,
                    total_views(row.accounts@[j as int].totals@),
                ));
            }
            let acc = &row.accounts[j];
            if j > 0 {
                let cont = append_spaces(String::from_str("\n"), hw + WIDTH_OFFSET);
                let ghost cv = cont@;
                let ghost prev = span_views(spans@);
                spans.push(Span { text: cont, style: Style::Plain });
                proof {
                    reveal_strlit("\n");
                    assert(cv =~~= cont_indent(hw as nat));
                    assert(span_views(spans@) =~~= prev + seq![(cont_indent(hw as nat), Style::Plain)]);
                }
            }
            let name = acc.name.clone();
            let ghost prevn = span_views(spans@);
            spans.push(Span { text: name, style: Style::Account });
            proof {
                assert(span_views(spans@) =~~= prevn + seq![(av[j as int].0, Style::Account)]);
            }
            let nl_ = acc.name.as_str().unicode_len();
            let padlen: usize = if nl_ >= acw + WIDTH_OFFSET {
                0
            } else {
                acw + WIDTH_OFFSET - nl_
            };
            let pad = append_spaces(String::new(), padlen);
            let ghost pv = pad@;
            let ghost prevp = span_views(spans@);
            spans.push(Span { text: pad, style: Style::Plain });
            proof {
                assert(pv =~~= name_pad(av[j as int].0.len(), acw as nat));
                assert(span_views(spans@) =~~= prevp + seq![
                    (name_pad(av[j as int].0.len(), acw as nat), Style::Plain),
                ]);
            }
            let cell = format_commodity_amount(
                acc.commodity.as_str(),
                acc.amount.as_str(),
                cw,
                amw,
            );
            let cellstyle = if acc.negative {
                Style::Negative
            } else {
                Style::Plain
            };
            let ghost cellv = (cell@, cellstyle);
            let ghost prevc = span_views(spans@);
            spans.push(Span { text: cell, style: cellstyle });
            proof {
                assert(span_views(spans@) =~~= prevc + seq![cellv]);
            }
            let ghost tv = total_views(acc.totals@);
            let ghost beforetots = span_views(spans@);
            let mut l: usize = 0;
            proof {
                assert(tv.take(0) =~= Seq::<(Seq<char>, Seq<char>, bool)>::empty());
                assert(tot_spans(tv.take(0), hw as nat, acw as nat, cw as nat, taw as nat)
                    =~~= Seq::<(Seq<char>, Style)>::empty());
                assert(span_views(spans@) =~~= beforetots + tot_spans(
                    tv.take(0),
                    hw as nat,
                    acw as nat,
                    cw as nat,
                    taw as nat,
                ));
            }
            while l < acc.totals.len()
                invariant
                    0 <= l <= acc.totals.len(),
                    tv == total_views(acc.totals@),
                    av == account_views(row.accounts@),
                    0 <= j < av.len(),
                    tv == av[j as int].4,
                    hw + acw + cw + taw + 16 <= usize::MAX,
                    span_views(spans@) == beforetots + tot_spans(
                        tv.take(l as int),
                        hw as nat,
                        acw as nat,
                        cw as nat,
                        taw as nat,
                    ),
                decreases acc.totals.len() - l,
            {
                proof {
                    assert(tv[l as int] == (
                        acc.totals@[l as int].commodity@,
                        acc.totals@[l as int].amount@,
                        acc.totals@[l as int].negative,
                    ));
                }
                let tot = &acc.totals[l];
                let text = if l == 0 {
                    format_total_commodity_amount(
                        tot.commodity.as_str(),
                        tot.amount.as_str(),
                        cw,
                        taw,
                    )
                } else {
                    format_total_commodity_amount_offset(
                        tot.commodity.as_str(),
                        tot.amount.as_str(),
                        hw,
                        acw,
                        cw,
                        taw,
                    )
                };
                let style = if tot.negative {
                    Style::Negative
                } else {
                    Style::Plain
                };
                let ghost sv = (text@, style);
                let ghost prevt = span_views(spans@);
                spans.push(Span { text, style });
                proof {
                    assert(span_views(spans@) =~~= prevt + seq![sv]);
                    assert(tv.take(l + 1).drop_last() =~= tv.take(l as int));
                    assert(tv.take(l + 1).last() == tv[l as int]);
                    if l == 0 {
                        assert(tv.take(1)[0] == tv[0]);
                        assert(span_views(spans@) =~~= beforetots + tot_spans(
                            tv.take(l + 1),
                            hw as nat,
                            acw as nat,
                            cw as nat,
                            taw as nat,
                        ));
                    } else {
                        assert(span_views(spans@) =~~= beforetots + tot_spans(
                            tv.take(l + 1),
                            hw as nat,
                            acw as nat,
                            cw as nat,
                            taw as nat,
                        ));
                    }
                }
                l = l + 1;
            }
            proof {
                assert(tv.take(acc.totals@.len() as int) =~= tv);
                assert(span_views(spans@) =~~= afterheader + acc_spans(
                    av.take(j as int),
                    hw as nat,
                    acw as nat,
                    cw as nat,
                    amw as nat,
                    taw as nat,
                ) + (if j == 0 {
                    Seq::<(Seq<char>, Style)>::empty()
                } else {
                    seq![(cont_indent(hw as nat), Style::Plain)]
                }) + one_account_spans(
                    av[j as int],
                    hw as nat,
                    acw as nat,
                    cw as nat,
                    amw as nat,
                    taw as nat,
                ));
                assert(av.take(j + 1).drop_last() =~= av.take(j as int));
                assert(av.take(j + 1).last() == av[j as int]);
                if j == 0 {
                    assert(av.take(1)[0] == av[0]);
                }
                assert(span_views(spans@) =~~= afterheader + acc_spans(
                    av.take(j + 1),
                    hw as nat,
                    acw as nat,
                    cw as nat,
                    amw as nat,
                    taw as nat,
                ));
            }
            j = j + 1;
        }
        let nl2 = String::from_str("\n");
        let ghost prevr = span_views(spans@);
        spans.push(Span { text: nl2, style: Style::Plain });
        proof {
            reveal_strlit("\n");
            assert(span_views(spans@) =~~= prevr + seq![(seq!['\n'], Style::Plain)]);
            assert(av.take(row.accounts@.len() as int) =~= av);
            assert(span_views(spans@) =~~= before + row_spans(
                rv[i as int],
                hw as nat,
                acw as nat,
                cw as nat,
                amw as nat,
                taw as nat,
            ));
            assert(rv.take(i + 1).drop_last() =~= rv.take(i as int));
            assert(rv.take(i + 1).last() == rv[i as int]);
            assert(span_views(spans@) =~~= rows_spans(
                rv.take(i + 1),
                hw as nat,
                acw as nat,
                cw as nat,
                amw as nat,
                taw as nat,
            ));
        }
        i = i + 1;
    }
    proof {
        assert(rv.take(rows@.len() as int) =~= rv);
    }
    spans
}

/// Renders the register report of the ledger as styled spans: one row per
/// transaction in stream order, each with its per-commodity running totals;
/// fails precisely when some posting lacks its balanced amount, and then
/// renders nothing.
pub fn register_report(ledger: &Ledger) -> (r: Result<Vec<Span>, AggregationError>)
    requires
        amounts_wf(postings_of_txns(txns_of_ledger(*ledger))),
        totals_fit(postings_of_txns(txns_of_ledger(*ledger))),
        header_width_of(rows_of_txns(txns_of_ledger(*ledger))) + name_width_of(
            rows_of_txns(txns_of_ledger(*ledger)),
        ) + commodity_width_of(rows_of_txns(txns_of_ledger(*ledger))) + total_width_of(
            rows_of_txns(txns_of_ledger(*ledger)),
        ) + 16 <= usize::MAX,
    ensures
        match r {
            Ok(spans) => all_balanced(postings_of_txns(txns_of_ledger(*ledger))) && span_views(
                spans@,
            ) == spec_register_report(txns_of_ledger(*ledger)),
            Err(e) => !all_balanced(postings_of_txns(txns_of_ledger(*ledger))) && e
                == AggregationError::MissingBalancedAmount,
        },
{
    let rows = match build_rows(ledger) {
        Ok(rows) => rows,
        Err(e) => {
            return Err(e);
        },
    };
    let (hw, nw, cw, aw, tw) = compute_widths(&rows);
    let spans = render_rows(&rows, hw, nw, cw, aw, tw);
    Ok(spans)
}

} // verus!
