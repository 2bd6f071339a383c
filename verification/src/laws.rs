//! Order laws of aggregation.
//!
//! The accumulated total of each commodity is, in value, the exact sum of
//! that commodity's posted amounts — so re-ordering the stream can change
//! the intermediate snapshots, but never the final per-commodity totals.

use crate::model::{amounts_wf, lemma_postings_append, postings_of_txns, Posting, Transaction};
use crate::rational::{
    frac_eq, lemma_frac_eq_transitive, lemma_spec_plus_exact, lemma_sum_congruent, sum_den,
    sum_num, Rational,
};
use crate::text::lex_cmp;
use crate::totals::{
    lemma_apply_keeps, lemma_lookup_add_other, lemma_lookup_add_same, lookup, totals_fit,
    totals_of,
};
use vstd::prelude::*;

verus! {

/// The exact raw sum of two fractions.
pub open spec fn frac_add(p: (int, int), q: (int, int)) -> (int, int) {
    (sum_num(p.0, p.1, q.0, q.1), sum_den(p.1, q.1))
}

/// The exact sum, as one fraction, of every amount posted under commodity
/// `c` in the stream, in order.
pub open spec fn commodity_sum(ps: Seq<Posting>, c: Seq<char>) -> (int, int)
    decreases ps.len(),
{
    if ps.len() == 0 {
        (0, 1)
    } else {
        let rest = commodity_sum(ps.drop_last(), c);
        match ps.last().balanced_amount {
            Option::Some(b) => if lex_cmp(b.commodity@, c) == 0 {
                frac_add(rest, (b.amount.num as int, b.amount.den as int))
            } else {
                rest
            },
            Option::None => rest,
        }
    }
}

/// Some posting of the stream posts commodity `c`.
pub open spec fn appears(ps: Seq<Posting>, c: Seq<char>) -> bool
    decreases ps.len(),
{
    if ps.len() == 0 {
        false
    } else {
        (match ps.last().balanced_amount {
            Option::Some(b) => lex_cmp(b.commodity@, c) == 0,
            Option::None => false,
        }) || appears(ps.drop_last(), c)
    }
}

/// The commodity sum keeps a positive denominator.
pub proof fn lemma_commodity_sum_pos(ps: Seq<Posting>, c: Seq<char>)
    requires
        amounts_wf(ps),
    ensures
        commodity_sum(ps, c).1 > 0,
    decreases ps.len(),
{
    if ps.len() > 0 {
        assert(amounts_wf(ps.drop_last())) by {
            assert(forall|i: int| 0 <= i < ps.len() - 1 ==> ps.drop_last()[i] == ps[i]);
        };
        lemma_commodity_sum_pos(ps.drop_last(), c);
        let rest = commodity_sum(ps.drop_last(), c);
        match ps.last().balanced_amount {
            Option::Some(b) => {
                if lex_cmp(b.commodity@, c) == 0 {
                    assert(b.amount.wf());
                    assert(rest.1 * b.amount.den as int > 0) by (nonlinear_arith)
                        requires
                            rest.1 > 0,
                            b.amount.den > 0,
                    ;
                }
            },
            Option::None => {},
        }
    }
}

/// The entry that aggregation keeps under each commodity denotes exactly the
/// sum of that commodity's posted amounts: the exactness of the Balance
/// Aggregator and the Running-Total Tracker in one statement.
pub proof fn lemma_totals_value(ps: Seq<Posting>, c: Seq<char>)
    requires
        amounts_wf(ps),
        totals_fit(ps),
    ensures
        lookup(totals_of(ps), c) is Some <==> appears(ps, c),
        !appears(ps, c) ==> commodity_sum(ps, c) == (0int, 1int),
        lookup(totals_of(ps), c) matches Option::Some(v) ==> v.wf() && frac_eq(
            v.num as int,
            v.den as int,
            commodity_sum(ps, c).0,
            commodity_sum(ps, c).1,
        ),
    decreases ps.len(),
{
    if ps.len() == 0 {
        assert(totals_of(ps) =~= Seq::<(Seq<char>, Rational)>::empty());
        assert(lookup(totals_of(ps), c) is None);
    } else {
        let pre = ps.drop_last();
        assert(amounts_wf(pre)) by {
            assert(forall|i: int| 0 <= i < ps.len() - 1 ==> pre[i] == ps[i]);
        };
        assert(totals_fit(pre));
        lemma_totals_value(pre, c);
        lemma_commodity_sum_pos(pre, c);
        let m = totals_of(pre);
        lemma_apply_keeps(Seq::empty(), pre);
        match ps.last().balanced_amount {
            Option::None => {
                assert(totals_of(ps) == m);
            },
            Option::Some(b) => {
                let k = b.commodity@;
                let a = b.amount;
                assert(a.wf());
                assert(totals_of(ps) == crate::totals::add_entry(m, k, a));
                assert(crate::totals::entry_fits(m, k, a));
                if lex_cmp(k, c) == 0 {
                    lemma_lookup_add_same(m, k, a, c);
                    let rest = commodity_sum(pre, c);
                    let apair = (a.num as int, a.den as int);
                    assert(commodity_sum(ps, c) == frac_add(rest, apair));
                    match lookup(m, c) {
                        Option::None => {
                            assert(!appears(pre, c));
                            assert(rest == (0int, 1int));
                            assert(lookup(totals_of(ps), c) == Option::Some(a));
                            assert(frac_add(rest, apair) == (
                                a.num as int,
                                a.den as int,
                            ));
                            assert(frac_eq(
                                a.num as int,
                                a.den as int,
                                a.num as int,
                                a.den as int,
                            ));
                        },
                        Option::Some(v) => {
                            assert(v.wf());
                            assert(v.plus_fits(a));
                            lemma_spec_plus_exact(v, a);
                            let s = v.spec_plus(a);
                            assert(lookup(totals_of(ps), c) == Option::Some(s));
                            // s ~ v + a ~ rest + a
                            lemma_sum_congruent(
                                v.num as int,
                                v.den as int,
                                rest.0,
                                rest.1,
                                a.num as int,
                                a.den as int,
                            );
                            let va = frac_add((v.num as int, v.den as int), apair);
                            let ra = frac_add(rest, apair);
                            assert(va.1 > 0) by (nonlinear_arith)
                                requires
                                    v.den > 0,
                                    a.den > 0,
                                    va.1 == v.den as int * a.den as int,
                            ;
                            assert(ra.1 > 0) by (nonlinear_arith)
                                requires
                                    rest.1 > 0,
                                    a.den > 0,
                                    ra.1 == rest.1 * a.den as int,
                            ;
                            lemma_frac_eq_transitive(
                                s.num as int,
                                s.den as int,
                                va.0,
                                va.1,
                                ra.0,
                                ra.1,
                            );
                        },
                    }
                } else {
                    lemma_lookup_add_other(m, k, a, c);
                    assert(commodity_sum(ps, c) == commodity_sum(pre, c));
                    assert(appears(ps, c) == appears(pre, c));
                }
            },
        }
    }
}

/// A commodity appears in a concatenation exactly when it appears in a part.
pub proof fn lemma_appears_append(x: Seq<Posting>, y: Seq<Posting>, c: Seq<char>)
    ensures
        appears(x + y, c) == (appears(x, c) || appears(y, c)),
    decreases y.len(),
{
    if y.len() == 0 {
        assert(x + y =~= x);
    } else {
        lemma_appears_append(x, y.drop_last(), c);
        assert((x + y).drop_last() =~= x + y.drop_last());
        assert((x + y).last() == y.last());
    }
}

/// The commodity sum over a concatenation is, in value, the sum of the
/// parts' commodity sums.
pub proof fn lemma_commodity_sum_append(x: Seq<Posting>, y: Seq<Posting>, c: Seq<char>)
    requires
        amounts_wf(x),
        amounts_wf(y),
    ensures
        frac_eq(
            commodity_sum(x + y, c).0,
            commodity_sum(x + y, c).1,
            frac_add(commodity_sum(x, c), commodity_sum(y, c)).0,
            frac_add(commodity_sum(x, c), commodity_sum(y, c)).1,
        ),
    decreases y.len(),
{
    lemma_commodity_sum_pos(x, c);
    if y.len() == 0 {
        assert(x + y =~= x);
        let cs = commodity_sum(x, c);
        assert(frac_add(cs, (0int, 1int)) == (cs.0 * 1 + 0 * cs.1, cs.1 * 1));
        assert(frac_eq(cs.0, cs.1, cs.0 * 1 + 0 * cs.1, cs.1 * 1));
    } else {
        assert(amounts_wf(x + y)) by {
            assert(forall|i: int|
                0 <= i < x.len() + y.len() ==> (x + y)[i] == if i < x.len() {
                    x[i]
                } else {
                    y[i - x.len()]
                });
        };
        assert(amounts_wf(y.drop_last())) by {
            assert(forall|i: int| 0 <= i < y.len() - 1 ==> y.drop_last()[i] == y[i]);
        };
        lemma_commodity_sum_append(x, y.drop_last(), c);
        lemma_commodity_sum_pos(y.drop_last(), c);
        lemma_commodity_sum_pos(x + y, c);
        assert((x + y).drop_last() =~= x + y.drop_last());
        assert((x + y).last() == y.last());
        let cx = commodity_sum(x, c);
        let cyd = commodity_sum(y.drop_last(), c);
        let whole_pre = commodity_sum(x + y.drop_last(), c);
        lemma_commodity_sum_pos(x + y.drop_last(), c);
        match y.last().balanced_amount {
            Option::None => {},
            Option::Some(b) => {
                if lex_cmp(b.commodity@, c) == 0 {
                    assert(b.amount.wf());
                    let apair = (b.amount.num as int, b.amount.den as int);
                    assert(frac_add(cx, cyd).1 > 0) by (nonlinear_arith)
                        requires
                            cx.1 > 0,
                            cyd.1 > 0,
                            frac_add(cx, cyd).1 == cx.1 * cyd.1,
                    ;
                    // whole = whole_pre + a ~ (cx + cyd) + a ~ cx + (cyd + a)
                    lemma_sum_congruent(
                        whole_pre.0,
                        whole_pre.1,
                        frac_add(cx, cyd).0,
                        frac_add(cx, cyd).1,
                        apair.0,
                        apair.1,
                    );
                    crate::rational::lemma_sum_associative(
                        cx.0,
                        cx.1,
                        cyd.0,
                        cyd.1,
                        apair.0,
                        apair.1,
                    );
                    let lhs = frac_add(whole_pre, apair);
                    let mid = frac_add(frac_add(cx, cyd), apair);
                    let rhs = frac_add(cx, frac_add(cyd, apair));
                    assert(lhs.1 > 0 && mid.1 > 0 && rhs.1 > 0) by (nonlinear_arith)
                        requires
                            whole_pre.1 > 0,
                            cx.1 > 0,
                            cyd.1 > 0,
                            apair.1 > 0,
                            lhs.1 == whole_pre.1 * apair.1,
                            mid.1 == (cx.1 * cyd.1) * apair.1,
                            rhs.1 == cx.1 * (cyd.1 * apair.1),
                    ;
                    lemma_frac_eq_transitive(lhs.0, lhs.1, mid.0, mid.1, rhs.0, rhs.1);
                    assert(commodity_sum(x + y, c) == lhs);
                    assert(commodity_sum(y, c) == frac_add(cyd, apair));
                }
            },
        }
    }
}

/// Re-ordering two blocks of the posting stream leaves every commodity's
/// final total the same, in value: the intermediate snapshots may change,
/// the final one does not.
pub proof fn lemma_swap_blocks_preserves_final_totals(
    a: Seq<Posting>,
    p: Seq<Posting>,
    q: Seq<Posting>,
    b: Seq<Posting>,
    c: Seq<char>,
)
    requires
        amounts_wf(a + p + q + b),
        amounts_wf(a + q + p + b),
        totals_fit(a + p + q + b),
        totals_fit(a + q + p + b),
    ensures
        lookup(totals_of(a + p + q + b), c) is Some <==> lookup(totals_of(a + q + p + b), c)
            is Some,
        (lookup(totals_of(a + p + q + b), c) is Some && lookup(totals_of(a + q + p + b), c)
            is Some) ==> lookup(totals_of(a + p + q + b), c)->Some_0.same_value(
            lookup(totals_of(a + q + p + b), c)->Some_0,
        ),
{
    let s1 = a + p + q + b;
    let s2 = a + q + p + b;
    assert(amounts_wf(a) && amounts_wf(p) && amounts_wf(q) && amounts_wf(b)) by {
        assert(forall|i: int| 0 <= i < a.len() ==> a[i] == s1[i]);
        assert(forall|i: int| 0 <= i < p.len() ==> p[i] == s1[a.len() + i]);
        assert(forall|i: int| 0 <= i < q.len() ==> q[i] == s1[a.len() + p.len() + i]);
        assert(forall|i: int| 0 <= i < b.len() ==> b[i] == s1[a.len() + p.len() + q.len() + i]);
    };
    lemma_totals_value(s1, c);
    lemma_totals_value(s2, c);
    // both sides appear alike
    lemma_appears_append(a + p + q, b, c);
    lemma_appears_append(a + p, q, c);
    lemma_appears_append(a, p, c);
    lemma_appears_append(a + q + p, b, c);
    lemma_appears_append(a + q, p, c);
    lemma_appears_append(a, q, c);
    // and their commodity sums are equal in value
    let ca = commodity_sum(a, c);
    let cp = commodity_sum(p, c);
    let cq = commodity_sum(q, c);
    let cb = commodity_sum(b, c);
    lemma_commodity_sum_pos(a, c);
    lemma_commodity_sum_pos(p, c);
    lemma_commodity_sum_pos(q, c);
    lemma_commodity_sum_pos(b, c);
    lemma_commodity_sum_pos(s1, c);
    lemma_commodity_sum_pos(s2, c);
    assert(amounts_wf(a + p) && amounts_wf(a + q) && amounts_wf(a + p + q) && amounts_wf(
        a + q + p,
    )) by {
        assert(forall|i: int|
            0 <= i < a.len() + p.len() ==> (a + p)[i] == if i < a.len() {
                a[i]
            } else {
                p[i - a.len()]
            });
        assert(forall|i: int|
            0 <= i < a.len() + q.len() ==> (a + q)[i] == if i < a.len() {
                a[i]
            } else {
                q[i - a.len()]
            });
        assert(forall|i: int|
            0 <= i < a.len() + p.len() + q.len() ==> (a + p + q)[i] == s1[i]);
        assert(forall|i: int|
            0 <= i < a.len() + q.len() + p.len() ==> (a + q + p)[i] == s2[i]);
    };
    lemma_commodity_sum_append(a + p + q, b, c);
    lemma_commodity_sum_append(a + p, q, c);
    lemma_commodity_sum_append(a, p, c);
    lemma_commodity_sum_append(a + q + p, b, c);
    lemma_commodity_sum_append(a + q, p, c);
    lemma_commodity_sum_append(a, q, c);
    lemma_commodity_sum_pos(a + p, c);
    lemma_commodity_sum_pos(a + q, c);
    lemma_commodity_sum_pos(a + p + q, c);
    lemma_commodity_sum_pos(a + q + p, c);
    // positivity of every denominator in the chains
    let capp = commodity_sum(a + p, c);
    let caqq = commodity_sum(a + q, c);
    let capq = commodity_sum(a + p + q, c);
    let caqp = commodity_sum(a + q + p, c);
    let i1 = frac_add(frac_add(ca, cp), cq);
    let i2 = frac_add(frac_add(ca, cq), cp);
    let l3 = frac_add(i1, cb);
    let r3 = frac_add(i2, cb);
    let m1 = frac_add(capq, cb);
    let m2 = frac_add(caqp, cb);
    let j1 = frac_add(capp, cq);
    let j2 = frac_add(caqq, cp);
    let w1 = commodity_sum(s1, c);
    let w2 = commodity_sum(s2, c);
    assert(frac_add(ca, cp).1 > 0 && frac_add(ca, cq).1 > 0 && frac_add(cp, cq).1 > 0 && i1.1 > 0
        && i2.1 > 0 && l3.1 > 0 && r3.1 > 0 && m1.1 > 0 && m2.1 > 0 && j1.1 > 0 && j2.1 > 0
        && frac_add(ca, frac_add(cp, cq)).1 > 0) by (nonlinear_arith)
        requires
            ca.1 > 0,
            cp.1 > 0,
            cq.1 > 0,
            cb.1 > 0,
            capp.1 > 0,
            caqq.1 > 0,
            capq.1 > 0,
            caqp.1 > 0,
            frac_add(ca, cp).1 == ca.1 * cp.1,
            frac_add(ca, cq).1 == ca.1 * cq.1,
            frac_add(cp, cq).1 == cp.1 * cq.1,
            i1.1 == (ca.1 * cp.1) * cq.1,
            i2.1 == (ca.1 * cq.1) * cp.1,
            l3.1 == i1.1 * cb.1,
            r3.1 == i2.1 * cb.1,
            m1.1 == capq.1 * cb.1,
            m2.1 == caqp.1 * cb.1,
            j1.1 == capp.1 * cq.1,
            j2.1 == caqq.1 * cp.1,
            frac_add(ca, frac_add(cp, cq)).1 == ca.1 * (cp.1 * cq.1),
    ;
    // i1 and i2 are equal in value: reassociate and commute the middle
    crate::rational::lemma_sum_associative(ca.0, ca.1, cp.0, cp.1, cq.0, cq.1);
    crate::rational::lemma_sum_associative(ca.0, ca.1, cq.0, cq.1, cp.0, cp.1);
    crate::rational::lemma_sum_commutative(cp.0, cp.1, cq.0, cq.1);
    let napq = frac_add(ca, frac_add(cp, cq));
    let naqp = frac_add(ca, frac_add(cq, cp));
    assert(napq == naqp);
    assert(frac_eq(i1.0, i1.1, napq.0, napq.1));
    assert(frac_eq(napq.0, napq.1, i2.0, i2.1)) by {
        assert(frac_eq(i2.0, i2.1, naqp.0, naqp.1));
    };
    lemma_frac_eq_transitive(i1.0, i1.1, napq.0, napq.1, i2.0, i2.1);
    // csum(a+p+q) ~ i1 and csum(a+q+p) ~ i2
    lemma_sum_congruent(capp.0, capp.1, frac_add(ca, cp).0, frac_add(ca, cp).1, cq.0, cq.1);
    lemma_frac_eq_transitive(capq.0, capq.1, j1.0, j1.1, i1.0, i1.1);
    lemma_sum_congruent(caqq.0, caqq.1, frac_add(ca, cq).0, frac_add(ca, cq).1, cp.0, cp.1);
    lemma_frac_eq_transitive(caqp.0, caqp.1, j2.0, j2.1, i2.0, i2.1);
    // append the trailing block on each side
    lemma_sum_congruent(capq.0, capq.1, i1.0, i1.1, cb.0, cb.1);
    lemma_sum_congruent(caqp.0, caqp.1, i2.0, i2.1, cb.0, cb.1);
    lemma_frac_eq_transitive(w1.0, w1.1, m1.0, m1.1, l3.0, l3.1);
    lemma_frac_eq_transitive(w2.0, w2.1, m2.0, m2.1, r3.0, r3.1);
    // put the two chains together
    lemma_sum_congruent(i1.0, i1.1, i2.0, i2.1, cb.0, cb.1);
    lemma_frac_eq_transitive(w1.0, w1.1, l3.0, l3.1, r3.0, r3.1);
    assert(frac_eq(r3.0, r3.1, w2.0, w2.1)) by {
        assert(frac_eq(w2.0, w2.1, r3.0, r3.1));
    };
    lemma_frac_eq_transitive(w1.0, w1.1, r3.0, r3.1, w2.0, w2.1);
    // conclude for the stored entries
    if lookup(totals_of(s1), c) is Some {
        let v1 = lookup(totals_of(s1), c)->Some_0;
        let v2 = lookup(totals_of(s2), c)->Some_0;
        lemma_frac_eq_transitive(v1.num as int, v1.den as int, w1.0, w1.1, w2.0, w2.1);
        assert(frac_eq(w2.0, w2.1, v2.num as int, v2.den as int)) by {
            assert(frac_eq(v2.num as int, v2.den as int, w2.0, w2.1));
        };
        lemma_frac_eq_transitive(v1.num as int, v1.den as int, w2.0, w2.1, v2.num as int,
            v2.den as int);
    }
}

/// Re-ordering two adjacent transactions of the stream leaves every
/// commodity's final running total the same, in value — though the
/// intermediate snapshots between them may change.
pub proof fn lemma_swap_adjacent_transactions(
    x: Seq<Transaction>,
    t: Transaction,
    u: Transaction,
    y: Seq<Transaction>,
    c: Seq<char>,
)
    requires
        amounts_wf(postings_of_txns(x + seq![t, u] + y)),
        amounts_wf(postings_of_txns(x + seq![u, t] + y)),
        totals_fit(postings_of_txns(x + seq![t, u] + y)),
        totals_fit(postings_of_txns(x + seq![u, t] + y)),
    ensures
        lookup(totals_of(postings_of_txns(x + seq![t, u] + y)), c) is Some <==> lookup(
            totals_of(postings_of_txns(x + seq![u, t] + y)),
            c,
        ) is Some,
        (lookup(totals_of(postings_of_txns(x + seq![t, u] + y)), c) is Some && lookup(
            totals_of(postings_of_txns(x + seq![u, t] + y)),
            c,
        ) is Some) ==> lookup(totals_of(postings_of_txns(x + seq![t, u] + y)), c)
            ->Some_0.same_value(lookup(totals_of(postings_of_txns(x + seq![u, t] + y)), c)->Some_0),
{
    let a = postings_of_txns(x);
    let p = t.postings@;
    let q = u.postings@;
    let b = postings_of_txns(y);
    lemma_postings_append(x + seq![t, u], y);
    lemma_postings_append(x, seq![t, u]);
    lemma_postings_append(x + seq![u, t], y);
    lemma_postings_append(x, seq![u, t]);
    assert(seq![t, u].skip(1) =~= seq![u]);
    assert(seq![u].skip(1) =~= Seq::<Transaction>::empty());
    assert(postings_of_txns(seq![t, u]) =~= p + q) by {
        assert(seq![t, u][0] == t);
        assert(seq![u][0] == u);
        assert(postings_of_txns(seq![u]) =~= q + postings_of_txns(Seq::<Transaction>::empty()));
    };
    assert(seq![u, t].skip(1) =~= seq![t]);
    assert(seq![t].skip(1) =~= Seq::<Transaction>::empty());
    assert(postings_of_txns(seq![u, t]) =~= q + p) by {
        assert(seq![u, t][0] == u);
        assert(seq![t][0] == t);
        assert(postings_of_txns(seq![t]) =~= p + postings_of_txns(Seq::<Transaction>::empty()));
    };
    assert(postings_of_txns(x + seq![t, u] + y) =~= a + p + q + b);
    assert(postings_of_txns(x + seq![u, t] + y) =~= a + q + p + b);
    lemma_swap_blocks_preserves_final_totals(a, p, q, b, c);
}

} // verus!
