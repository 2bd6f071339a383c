//! The balance aggregator: postings grouped by account, each account holding
//! sorted per-commodity sums, plus the cross-account grand total.
//!
//! Accounts and commodities are kept in lexicographic order so the balance
//! report is deterministic. The aggregator is a pure fold over the ordered
//! posting stream; the only error is a posting without a balanced amount.

use crate::model::{
    all_balanced, amounts_wf, postings_of_txns, AggregationError, Posting, Transaction,
};
use crate::rational::Rational;
use crate::text::{lemma_lex_cmp_antisymmetric, lemma_lex_cmp_transitive, lex_cmp, str_cmp};
use crate::totals::{
    add_amount, add_entry, apply_fits, apply_postings, entries_wf, entry_fits, lemma_fits_take,
    sorted_keys, totals_fit, totals_of, views_of,
};
use vstd::prelude::*;

verus! {

/// The view of grouped balances: account label and its sorted totals list.
pub open spec fn gviews_of(v: Seq<(String, Vec<(String, Rational)>)>) -> Seq<
    (Seq<char>, Seq<(Seq<char>, Rational)>),
> {
    v.map_values(|p: (String, Vec<(String, Rational)>)| (p.0@, views_of(p.1@)))
}

/// Account labels strictly ascending.
pub open spec fn sorted_accounts(g: Seq<(Seq<char>, Seq<(Seq<char>, Rational)>)>) -> bool {
    forall|i: int, j: int|
        0 <= i < j < g.len() ==> lex_cmp((#[trigger] g[i]).0, (#[trigger] g[j]).0) < 0
}

/// Every account's totals list is sorted with well-formed amounts.
pub open spec fn groups_wf(g: Seq<(Seq<char>, Seq<(Seq<char>, Rational)>)>) -> bool {
    forall|i: int|
        0 <= i < g.len() ==> sorted_keys((#[trigger] g[i]).1) && entries_wf(g[i].1)
}

/// One aggregation step: accumulate amount `a` of commodity `c` under
/// account `acct`.
pub open spec fn add_posting_entry(
    g: Seq<(Seq<char>, Seq<(Seq<char>, Rational)>)>,
    acct: Seq<char>,
    c: Seq<char>,
    a: Rational,
) -> Seq<(Seq<char>, Seq<(Seq<char>, Rational)>)>
    decreases g.len(),
{
    if g.len() == 0 {
        seq![(acct, seq![(c, a)])]
    } else if lex_cmp(acct, g[0].0) < 0 {
        seq![(acct, seq![(c, a)])] + g
    } else if lex_cmp(acct, g[0].0) == 0 {
        seq![(g[0].0, add_entry(g[0].1, c, a))] + g.skip(1)
    } else {
        seq![g[0]] + add_posting_entry(g.skip(1), acct, c, a)
    }
}

/// The aggregation step stays within the machine range.
pub open spec fn posting_fits(
    g: Seq<(Seq<char>, Seq<(Seq<char>, Rational)>)>,
    acct: Seq<char>,
    c: Seq<char>,
    a: Rational,
) -> bool
    decreases g.len(),
{
    if g.len() == 0 {
        true
    } else if lex_cmp(acct, g[0].0) < 0 {
        true
    } else if lex_cmp(acct, g[0].0) == 0 {
        entry_fits(g[0].1, c, a)
    } else {
        posting_fits(g.skip(1), acct, c, a)
    }
}

/// Where the account lands in the group list.
pub open spec fn gfind_pos(g: Seq<(Seq<char>, Seq<(Seq<char>, Rational)>)>, acct: Seq<char>) -> int
    decreases g.len(),
{
    if g.len() == 0 {
        0
    } else if lex_cmp(acct, g[0].0) <= 0 {
        0
    } else {
        1 + gfind_pos(g.skip(1), acct)
    }
}

/// `gfind_pos` is the insertion point among the accounts.
pub proof fn lemma_gfind_pos(g: Seq<(Seq<char>, Seq<(Seq<char>, Rational)>)>, acct: Seq<char>)
    ensures
        0 <= gfind_pos(g, acct) <= g.len(),
        forall|j: int| 0 <= j < gfind_pos(g, acct) ==> lex_cmp((#[trigger] g[j]).0, acct) < 0,
        gfind_pos(g, acct) < g.len() ==> lex_cmp(acct, g[gfind_pos(g, acct)].0) <= 0,
    decreases g.len(),
{
    if g.len() > 0 && lex_cmp(acct, g[0].0) > 0 {
        lemma_lex_cmp_antisymmetric(acct, g[0].0);
        lemma_gfind_pos(g.skip(1), acct);
        let t = g.skip(1);
        assert forall|j: int| 0 <= j < gfind_pos(g, acct) implies lex_cmp(
            (#[trigger] g[j]).0,
            acct,
        ) < 0 by {
            if j > 0 {
                assert(t[j - 1] == g[j]);
                assert(lex_cmp(t[j - 1].0, acct) < 0);
            }
        };
    }
}

/// The aggregation step either updates the account at the insertion point or
/// inserts a fresh one there.
pub proof fn lemma_add_posting_at(
    g: Seq<(Seq<char>, Seq<(Seq<char>, Rational)>)>,
    acct: Seq<char>,
    c: Seq<char>,
    a: Rational,
    i: int,
)
    requires
        sorted_accounts(g),
        0 <= i <= g.len(),
        forall|j: int| 0 <= j < i ==> lex_cmp((#[trigger] g[j]).0, acct) < 0,
        i < g.len() ==> lex_cmp(acct, g[i].0) <= 0,
    ensures
        i < g.len() && lex_cmp(acct, g[i].0) == 0 ==> add_posting_entry(g, acct, c, a)
            == g.update(i, (g[i].0, add_entry(g[i].1, c, a))) && posting_fits(g, acct, c, a)
            == entry_fits(g[i].1, c, a),
        !(i < g.len() && lex_cmp(acct, g[i].0) == 0) ==> add_posting_entry(g, acct, c, a)
            == g.insert(i, (acct, seq![(c, a)])) && posting_fits(g, acct, c, a),
    decreases g.len(),
{
    if g.len() == 0 {
        assert(add_posting_entry(g, acct, c, a) =~= g.insert(0, (acct, seq![(c, a)])));
    } else if i == 0 {
        if lex_cmp(acct, g[0].0) == 0 {
            assert(add_posting_entry(g, acct, c, a) =~= g.update(
                0,
                (g[0].0, add_entry(g[0].1, c, a)),
            ));
        } else {
            assert(lex_cmp(acct, g[0].0) < 0);
            assert(add_posting_entry(g, acct, c, a) =~= g.insert(0, (acct, seq![(c, a)])));
        }
    } else {
        lemma_lex_cmp_antisymmetric(g[0].0, acct);
        assert(lex_cmp(acct, g[0].0) > 0);
        let t = g.skip(1);
        assert(sorted_accounts(t)) by {
            assert(forall|p: int, q: int|
                0 <= p < q < t.len() ==> t[p] == g[p + 1] && t[q] == g[q + 1]);
        };
        assert(forall|j: int| 0 <= j < i - 1 ==> lex_cmp((#[trigger] t[j]).0, acct) < 0) by {
            assert(forall|j: int| 0 <= j < i - 1 ==> t[j] == g[j + 1]);
        };
        lemma_add_posting_at(t, acct, c, a, i - 1);
        if i < g.len() && lex_cmp(acct, g[i].0) == 0 {
            assert(t[i - 1] == g[i]);
            assert(add_posting_entry(g, acct, c, a) =~= g.update(
                i,
                (g[i].0, add_entry(g[i].1, c, a)),
            )) by {
                assert(add_posting_entry(g, acct, c, a) == seq![g[0]] + add_posting_entry(
                    t,
                    acct,
                    c,
                    a,
                ));
            };
        } else {
            assert(add_posting_entry(g, acct, c, a) =~= g.insert(i, (acct, seq![(c, a)]))) by {
                assert(add_posting_entry(g, acct, c, a) == seq![g[0]] + add_posting_entry(
                    t,
                    acct,
                    c,
                    a,
                ));
            };
        }
    }
}

/// Aggregation keeps the accounts sorted and every totals list well-formed.
pub proof fn lemma_add_posting_keeps(
    g: Seq<(Seq<char>, Seq<(Seq<char>, Rational)>)>,
    acct: Seq<char>,
    c: Seq<char>,
    a: Rational,
)
    requires
        sorted_accounts(g),
        groups_wf(g),
        a.wf(),
        posting_fits(g, acct, c, a),
    ensures
        sorted_accounts(add_posting_entry(g, acct, c, a)),
        groups_wf(add_posting_entry(g, acct, c, a)),
{
    let i = gfind_pos(g, acct);
    lemma_gfind_pos(g, acct);
    lemma_add_posting_at(g, acct, c, a, i);
    if i < g.len() && lex_cmp(acct, g[i].0) == 0 {
        let r = g.update(i, (g[i].0, add_entry(g[i].1, c, a)));
        assert(forall|j: int| 0 <= j < r.len() ==> (#[trigger] r[j]).0 == g[j].0);
        crate::totals::lemma_add_entry_keeps(g[i].1, c, a);
        assert(groups_wf(r)) by {
            assert(forall|j: int| 0 <= j < r.len() && j != i ==> (#[trigger] r[j]) == g[j]);
        };
    } else {
        let r = g.insert(i, (acct, seq![(c, a)]));
        assert forall|p: int, q: int| 0 <= p < q < r.len() implies lex_cmp(
            (#[trigger] r[p]).0,
            (#[trigger] r[q]).0,
        ) < 0 by {
            if p == i {
                assert(r[q] == g[q - 1]);
                assert(lex_cmp(acct, g[i].0) < 0);
                if q - 1 > i {
                    lemma_lex_cmp_transitive(acct, g[i].0, g[q - 1].0);
                }
            } else if q == i {
                assert(r[p] == g[p]);
            } else {
                assert(r[p] == if p < i {
                    g[p]
                } else {
                    g[p - 1]
                });
                assert(r[q] == if q < i {
                    g[q]
                } else {
                    g[q - 1]
                });
            }
        };
        assert(groups_wf(r)) by {
            assert(forall|j: int|
                0 <= j < r.len() && j != i ==> (#[trigger] r[j]) == if j < i {
                    g[j]
                } else {
                    g[j - 1]
                });
        };
    }
}

/// Accumulates one posting into the grouped balances, in place.
pub fn add_posting(
    groups: &mut Vec<(String, Vec<(String, Rational)>)>,
    account: &String,
    commodity: &String,
    amount: &Rational,
)
    requires
        sorted_accounts(gviews_of(old(groups)@)),
        groups_wf(gviews_of(old(groups)@)),
        amount.wf(),
        posting_fits(gviews_of(old(groups)@), account@, commodity@, *amount),
    ensures
        gviews_of(final(groups)@) == add_posting_entry(
            gviews_of(old(groups)@),
            account@,
            commodity@,
            *amount,
        ),
        sorted_accounts(gviews_of(final(groups)@)),
        groups_wf(gviews_of(final(groups)@)),
{
    let ghost g = gviews_of(old(groups)@);
    let mut i: usize = 0;
    while i < groups.len() && str_cmp(groups[i].0.as_str(), account.as_str()) < 0
        invariant
            0 <= i <= groups.len(),
            groups@ == old(groups)@,
            forall|j: int| 0 <= j < i ==> lex_cmp((#[trigger] g[j]).0, account@) < 0,
            g == gviews_of(groups@),
        decreases groups.len() - i,
    {
        proof {
            assert(g[i as int].0 == groups@[i as int].0@);
        }
        i = i + 1;
    }
    proof {
        if i < groups.len() {
            assert(g[i as int].0 == groups@[i as int].0@);
            lemma_lex_cmp_antisymmetric(groups@[i as int].0@, account@);
        }
        lemma_add_posting_at(g, account@, commodity@, *amount, i as int);
        lemma_add_posting_keeps(g, account@, commodity@, *amount);
    }
    if i < groups.len() {
        let r = str_cmp(groups[i].0.as_str(), account.as_str());
        if r == 0 {
            let mut entry = groups.remove(i);
            add_amount(&mut entry.1, commodity, amount);
            groups.insert(i, entry);
            proof {
                assert(gviews_of(groups@) =~= g.update(
                    i as int,
                    (g[i as int].0, add_entry(g[i as int].1, commodity@, *amount)),
                ));
            }
        } else {
            let inner: Vec<(String, Rational)> = vec![(commodity.clone(), *amount)];
            proof {
                assert(views_of(inner@) =~= seq![(commodity@, *amount)]);
            }
            groups.insert(i, (account.clone(), inner));
            proof {
                assert(gviews_of(groups@) =~= g.insert(
                    i as int,
                    (account@, seq![(commodity@, *amount)]),
                ));
            }
        }
    } else {
        let inner: Vec<(String, Rational)> = vec![(commodity.clone(), *amount)];
        proof {
            assert(views_of(inner@) =~= seq![(commodity@, *amount)]);
        }
        groups.insert(i, (account.clone(), inner));
        proof {
            assert(gviews_of(groups@) =~= g.insert(i as int, (account@, seq![(commodity@, *amount)])));
        }
    }
}

/// The grouped balances of a posting stream, processed in order.
pub open spec fn groups_of(ps: Seq<Posting>) -> Seq<(Seq<char>, Seq<(Seq<char>, Rational)>)>
    decreases ps.len(),
{
    if ps.len() == 0 {
        Seq::empty()
    } else {
        match ps.last().balanced_amount {
            Option::Some(b) => add_posting_entry(
                groups_of(ps.drop_last()),
                ps.last().account@,
                b.commodity@,
                b.amount,
            ),
            Option::None => groups_of(ps.drop_last()),
        }
    }
}

/// Every intermediate account total along the stream is in range.
pub open spec fn groups_fit(ps: Seq<Posting>) -> bool
    decreases ps.len(),
{
    if ps.len() == 0 {
        true
    } else {
        groups_fit(ps.drop_last()) && match ps.last().balanced_amount {
            Option::Some(b) => posting_fits(
                groups_of(ps.drop_last()),
                ps.last().account@,
                b.commodity@,
                b.amount,
            ),
            Option::None => true,
        }
    }
}

/// If the whole stream stays in range, so does every prefix of it.
pub proof fn lemma_groups_fit_take(ps: Seq<Posting>, k: int)
    requires
        groups_fit(ps),
        0 <= k <= ps.len(),
    ensures
        groups_fit(ps.take(k)),
    decreases ps.len() - k,
{
    if k == ps.len() {
        assert(ps.take(k) =~= ps);
    } else {
        lemma_groups_fit_take(ps, k + 1);
        assert(ps.take(k + 1).drop_last() =~= ps.take(k));
        assert(groups_fit(ps.take(k + 1)));
    }
}

/// The grouped balances of a stream are sorted and well-formed throughout.
pub proof fn lemma_groups_keeps(ps: Seq<Posting>)
    requires
        amounts_wf(ps),
        groups_fit(ps),
    ensures
        sorted_accounts(groups_of(ps)),
        groups_wf(groups_of(ps)),
    decreases ps.len(),
{
    if ps.len() > 0 {
        assert(amounts_wf(ps.drop_last())) by {
            assert(forall|i: int| 0 <= i < ps.len() - 1 ==> ps.drop_last()[i] == ps[i]);
        };
        lemma_groups_keeps(ps.drop_last());
        match ps.last().balanced_amount {
            Option::Some(b) => {
                lemma_add_posting_keeps(
                    groups_of(ps.drop_last()),
                    ps.last().account@,
                    b.commodity@,
                    b.amount,
                );
            },
            Option::None => {},
        }
    }
}

/// Groups the posting stream of the given transactions by account, summing
/// exactly per commodity; fails precisely when some posting lacks its
/// balanced amount.
pub fn group_postings_by_account(transactions: &Vec<Transaction>) -> (r: Result<
    Vec<(String, Vec<(String, Rational)>)>,
    AggregationError,
>)
    requires
        amounts_wf(postings_of_txns(transactions@)),
        groups_fit(postings_of_txns(transactions@)),
    ensures
        match r {
            Ok(g) => all_balanced(postings_of_txns(transactions@)) && gviews_of(g@) == groups_of(
                postings_of_txns(transactions@),
            ) && sorted_accounts(gviews_of(g@)) && groups_wf(gviews_of(g@)),
            Err(e) => !all_balanced(postings_of_txns(transactions@)) && e
                == AggregationError::MissingBalancedAmount,
        },
{
    let ghost stream = postings_of_txns(transactions@);
    let mut groups: Vec<(String, Vec<(String, Rational)>)> = Vec::new();
    let ghost mut n: int = 0;
    proof {
        assert(stream.take(0) =~= Seq::empty());
        assert(gviews_of(groups@) =~= groups_of(stream.take(0)));
    }
    let mut ti: usize = 0;
    while ti < transactions.len()
        invariant
            0 <= ti <= transactions.len(),
            amounts_wf(stream),
            groups_fit(stream),
            stream == postings_of_txns(transactions@),
            n == postings_of_txns(transactions@.take(ti as int)).len(),
            0 <= n <= stream.len(),
            gviews_of(groups@) == groups_of(stream.take(n)),
            sorted_accounts(gviews_of(groups@)),
            groups_wf(gviews_of(groups@)),
            all_balanced(stream.take(n)),
        decreases transactions.len() - ti,
    {
        let t = &transactions[ti];
        let ghost n0 = n;
        let mut pi: usize = 0;
        proof {
            crate::model::lemma_stream_prefix(transactions@, ti as int, 0);
            assert(postings_of_txns(transactions@.take(ti as int)) + t.postings@.take(0)
                =~= postings_of_txns(transactions@.take(ti as int)));
        }
        while pi < t.postings.len()
            invariant
                0 <= pi <= t.postings.len(),
                amounts_wf(stream),
                groups_fit(stream),
                stream == postings_of_txns(transactions@),
                0 <= ti < transactions.len(),
                t == transactions@[ti as int],
                n0 == postings_of_txns(transactions@.take(ti as int)).len(),
                n == n0 + pi,
                0 <= n <= stream.len(),
                stream.take(n) =~= postings_of_txns(transactions@.take(ti as int))
                    + t.postings@.take(pi as int),
                gviews_of(groups@) == groups_of(stream.take(n)),
                sorted_accounts(gviews_of(groups@)),
                groups_wf(gviews_of(groups@)),
                all_balanced(stream.take(n)),
            decreases t.postings.len() - pi,
        {
            proof {
                crate::model::lemma_stream_prefix(transactions@, ti as int, pi + 1);
                assert(stream.take(n + 1) =~= postings_of_txns(transactions@.take(ti as int))
                    + t.postings@.take(pi + 1));
                assert(stream.take(n + 1).drop_last() =~= stream.take(n));
                assert(stream.take(n + 1).last() == t.postings@[pi as int]);
                lemma_groups_fit_take(stream, n + 1);
                assert(amounts_wf(stream.take(n + 1))) by {
                    assert(forall|i: int|
                        0 <= i < n + 1 ==> stream.take(n + 1)[i] == stream[i]);
                };
            }
            match &t.postings[pi].balanced_amount {
                Option::None => {
                    proof {
                        assert(stream[n] == t.postings@[pi as int]);
                        assert(!all_balanced(stream));
                    }
                    return Err(AggregationError::MissingBalancedAmount);
                },
                Option::Some(b) => {
                    add_posting(&mut groups, &t.postings[pi].account, &b.commodity, &b.amount);
                    proof {
                        assert(groups_of(stream.take(n + 1)) == add_posting_entry(
                            groups_of(stream.take(n)),
                            t.postings@[pi as int].account@,
                            b.commodity@,
                            b.amount,
                        ));
                        assert(all_balanced(stream.take(n + 1))) by {
                            assert(forall|i: int|
                                0 <= i < n ==> stream.take(n + 1)[i] == stream.take(n)[i]);
                        };
                    }
                },
            }
            proof {
                n = n + 1;
            }
            pi = pi + 1;
        }
        proof {
            crate::model::lemma_stream_prefix(transactions@, ti as int, t.postings@.len() as int);
            assert(t.postings@.take(t.postings@.len() as int) =~= t.postings@);
            crate::model::lemma_postings_decompose(transactions@.take(ti + 1), ti as int);
            assert(transactions@.take(ti + 1).take(ti as int) =~= transactions@.take(ti as int));
            assert(transactions@.take(ti + 1).skip(ti as int) =~= seq![
                transactions@[ti as int],
            ]);
            assert(seq![transactions@[ti as int]].skip(1) =~= Seq::<Transaction>::empty());
            assert(seq![transactions@[ti as int]][0] == transactions@[ti as int]);
            assert(postings_of_txns(seq![transactions@[ti as int]]) =~= t.postings@ +
                postings_of_txns(Seq::<Transaction>::empty()));
            assert(postings_of_txns(transactions@.take(ti + 1)) =~= postings_of_txns(
                transactions@.take(ti as int),
            ) + t.postings@);
            assert(stream.take(n) =~= postings_of_txns(transactions@.take(ti + 1)));
        }
        ti = ti + 1;
    }
    proof {
        assert(transactions@.take(transactions@.len() as int) =~= transactions@);
        assert(stream.take(n) =~= stream);
    }
    Ok(groups)
}

/// The grand total of the posting stream of the given transactions: one
/// exact sum per commodity, across all accounts; fails precisely when some
/// posting lacks its balanced amount.
pub fn grand_totals(transactions: &Vec<Transaction>) -> (r: Result<
    Vec<(String, Rational)>,
    AggregationError,
>)
    requires
        amounts_wf(postings_of_txns(transactions@)),
        totals_fit(postings_of_txns(transactions@)),
    ensures
        match r {
            Ok(t) => all_balanced(postings_of_txns(transactions@)) && views_of(t@) == totals_of(
                postings_of_txns(transactions@),
            ) && sorted_keys(views_of(t@)) && entries_wf(views_of(t@)),
            Err(e) => !all_balanced(postings_of_txns(transactions@)) && e
                == AggregationError::MissingBalancedAmount,
        },
{
    let ghost stream = postings_of_txns(transactions@);
    let mut totals: Vec<(String, Rational)> = Vec::new();
    let ghost mut n: int = 0;
    proof {
        assert(stream.take(0) =~= Seq::empty());
        assert(views_of(totals@) =~= apply_postings(Seq::empty(), stream.take(0)));
    }
    let mut ti: usize = 0;
    while ti < transactions.len()
        invariant
            0 <= ti <= transactions.len(),
            amounts_wf(stream),
            apply_fits(Seq::empty(), stream),
            stream == postings_of_txns(transactions@),
            n == postings_of_txns(transactions@.take(ti as int)).len(),
            0 <= n <= stream.len(),
            views_of(totals@) == apply_postings(Seq::empty(), stream.take(n)),
            sorted_keys(views_of(totals@)),
            entries_wf(views_of(totals@)),
            all_balanced(stream.take(n)),
        decreases transactions.len() - ti,
    {
        let t = &transactions[ti];
        let ghost n0 = n;
        let mut pi: usize = 0;
        proof {
            crate::model::lemma_stream_prefix(transactions@, ti as int, 0);
            assert(postings_of_txns(transactions@.take(ti as int)) + t.postings@.take(0)
                =~= postings_of_txns(transactions@.take(ti as int)));
        }
        while pi < t.postings.len()
            invariant
                0 <= pi <= t.postings.len(),
                amounts_wf(stream),
                apply_fits(Seq::empty(), stream),
                stream == postings_of_txns(transactions@),
                0 <= ti < transactions.len(),
                t == transactions@[ti as int],
                n0 == postings_of_txns(transactions@.take(ti as int)).len(),
                n == n0 + pi,
                0 <= n <= stream.len(),
                stream.take(n) =~= postings_of_txns(transactions@.take(ti as int))
                    + t.postings@.take(pi as int),
                views_of(totals@) == apply_postings(Seq::empty(), stream.take(n)),
                sorted_keys(views_of(totals@)),
                entries_wf(views_of(totals@)),
                all_balanced(stream.take(n)),
            decreases t.postings.len() - pi,
        {
            proof {
                crate::model::lemma_stream_prefix(transactions@, ti as int, pi + 1);
                assert(stream.take(n + 1) =~= postings_of_txns(transactions@.take(ti as int))
                    + t.postings@.take(pi + 1));
                assert(stream.take(n + 1).drop_last() =~= stream.take(n));
                assert(stream.take(n + 1).last() == t.postings@[pi as int]);
                lemma_fits_take(Seq::empty(), stream, n + 1);
            }
            match &t.postings[pi].balanced_amount {
                Option::None => {
                    proof {
                        assert(stream[n] == t.postings@[pi as int]);
                        assert(!all_balanced(stream));
                    }
                    return Err(AggregationError::MissingBalancedAmount);
                },
                Option::Some(b) => {
                    add_amount(&mut totals, &b.commodity, &b.amount);
                    proof {
                        assert(all_balanced(stream.take(n + 1))) by {
                            assert(forall|i: int|
                                0 <= i < n ==> stream.take(n + 1)[i] == stream.take(n)[i]);
                        };
                    }
                },
            }
            proof {
                n = n + 1;
            }
            pi = pi + 1;
        }
        proof {
            crate::model::lemma_stream_prefix(transactions@, ti as int, t.postings@.len() as int);
            assert(t.postings@.take(t.postings@.len() as int) =~= t.postings@);
            crate::model::lemma_postings_decompose(transactions@.take(ti + 1), ti as int);
            assert(transactions@.take(ti + 1).take(ti as int) =~= transactions@.take(ti as int));
            assert(transactions@.take(ti + 1).skip(ti as int) =~= seq![
                transactions@[ti as int],
            ]);
            assert(seq![transactions@[ti as int]].skip(1) =~= Seq::<Transaction>::empty());
            assert(seq![transactions@[ti as int]][0] == transactions@[ti as int]);
            assert(postings_of_txns(seq![transactions@[ti as int]]) =~= t.postings@ +
                postings_of_txns(Seq::<Transaction>::empty()));
            assert(postings_of_txns(transactions@.take(ti + 1)) =~= postings_of_txns(
                transactions@.take(ti as int),
            ) + t.postings@);
            assert(stream.take(n) =~= postings_of_txns(transactions@.take(ti + 1)));
        }
        ti = ti + 1;
    }
    proof {
        assert(transactions@.take(transactions@.len() as int) =~= transactions@);
        assert(stream.take(n) =~= stream);
    }
    Ok(totals)
}

} // verus!
