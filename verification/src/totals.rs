//! Per-commodity totals as an ordered association list.
//!
//! Totals are kept sorted by commodity label (lexicographic by code point),
//! with one entry per commodity, so every report walks commodities in the
//! same deterministic order. Accumulation into the list is the one exact
//! addition of the crate, threaded over the posting stream as a fold.

use crate::model::Posting;
use crate::rational::{lemma_spec_plus_wf, Rational};
use crate::text::{lemma_lex_cmp_antisymmetric, lemma_lex_cmp_transitive, lex_cmp, str_cmp};
use vstd::prelude::*;

verus! {

/// The view of a totals list: each commodity label as its character sequence.
pub open spec fn views_of(v: Seq<(String, Rational)>) -> Seq<(Seq<char>, Rational)> {
    v.map_values(|p: (String, Rational)| (p.0@, p.1))
}

/// Keys strictly ascending in lexicographic order: sorted, and no duplicate.
pub open spec fn sorted_keys(m: Seq<(Seq<char>, Rational)>) -> bool {
    forall|i: int, j: int|
        0 <= i < j < m.len() ==> lex_cmp((#[trigger] m[i]).0, (#[trigger] m[j]).0) < 0
}

/// Every accumulated amount is well-formed.
pub open spec fn entries_wf(m: Seq<(Seq<char>, Rational)>) -> bool {
    forall|i: int| 0 <= i < m.len() ==> (#[trigger] m[i]).1.wf()
}

/// One step of accumulation: add `a` under commodity `c`, keeping the list
/// sorted; an absent commodity starts at `a`, a present one is summed
/// exactly.
pub open spec fn add_entry(m: Seq<(Seq<char>, Rational)>, c: Seq<char>, a: Rational) -> Seq<
    (Seq<char>, Rational),
>
    decreases m.len(),
{
    if m.len() == 0 {
        seq![(c, a)]
    } else if lex_cmp(c, m[0].0) < 0 {
        seq![(c, a)] + m
    } else if lex_cmp(c, m[0].0) == 0 {
        seq![(m[0].0, m[0].1.spec_plus(a))] + m.skip(1)
    } else {
        seq![m[0]] + add_entry(m.skip(1), c, a)
    }
}

/// The accumulation step stays within the machine range.
pub open spec fn entry_fits(m: Seq<(Seq<char>, Rational)>, c: Seq<char>, a: Rational) -> bool
    decreases m.len(),
{
    if m.len() == 0 {
        true
    } else if lex_cmp(c, m[0].0) < 0 {
        true
    } else if lex_cmp(c, m[0].0) == 0 {
        m[0].1.plus_fits(a)
    } else {
        entry_fits(m.skip(1), c, a)
    }
}

/// Where the new commodity lands: `add_entry` either updates the entry at
/// the insertion point `i` or inserts a fresh one there.
pub proof fn lemma_add_entry_at(m: Seq<(Seq<char>, Rational)>, c: Seq<char>, a: Rational, i: int)
    requires
        sorted_keys(m),
        0 <= i <= m.len(),
        forall|j: int| 0 <= j < i ==> lex_cmp((#[trigger] m[j]).0, c) < 0,
        i < m.len() ==> lex_cmp(c, m[i].0) <= 0,
    ensures
        i < m.len() && lex_cmp(c, m[i].0) == 0 ==> add_entry(m, c, a) == m.update(
            i,
            (m[i].0, m[i].1.spec_plus(a)),
        ) && entry_fits(m, c, a) == m[i].1.plus_fits(a),
        !(i < m.len() && lex_cmp(c, m[i].0) == 0) ==> add_entry(m, c, a) == m.insert(i, (c, a))
            && entry_fits(m, c, a),
    decreases m.len(),
{
    if m.len() == 0 {
        assert(add_entry(m, c, a) =~= m.insert(0, (c, a)));
    } else if i == 0 {
        if lex_cmp(c, m[0].0) == 0 {
            assert(add_entry(m, c, a) =~= m.update(0, (m[0].0, m[0].1.spec_plus(a))));
        } else {
            assert(lex_cmp(c, m[0].0) < 0);
            assert(add_entry(m, c, a) =~= m.insert(0, (c, a)));
        }
    } else {
        lemma_lex_cmp_antisymmetric(m[0].0, c);
        assert(lex_cmp(c, m[0].0) > 0);
        let t = m.skip(1);
        assert(sorted_keys(t)) by {
            assert(forall|p: int, q: int|
                0 <= p < q < t.len() ==> lex_cmp((#[trigger] t[p]).0, (#[trigger] t[q]).0)
                    < 0) by {
                assert(forall|p: int, q: int|
                    0 <= p < q < t.len() ==> t[p] == m[p + 1] && t[q] == m[q + 1]);
            };
        };
        assert(forall|j: int| 0 <= j < i - 1 ==> lex_cmp((#[trigger] t[j]).0, c) < 0) by {
            assert(forall|j: int| 0 <= j < i - 1 ==> t[j] == m[j + 1]);
        };
        lemma_add_entry_at(t, c, a, i - 1);
        if i < m.len() && lex_cmp(c, m[i].0) == 0 {
            assert(t[i - 1] == m[i]);
            assert(add_entry(m, c, a) =~= m.update(i, (m[i].0, m[i].1.spec_plus(a)))) by {
                assert(add_entry(m, c, a) == seq![m[0]] + add_entry(t, c, a));
                assert(add_entry(t, c, a) == t.update(i - 1, (t[i - 1].0, t[i - 1].1.spec_plus(a))));
            };
        } else {
            assert(add_entry(m, c, a) =~= m.insert(i, (c, a))) by {
                assert(add_entry(m, c, a) == seq![m[0]] + add_entry(t, c, a));
                assert(add_entry(t, c, a) == t.insert(i - 1, (c, a)));
            };
        }
    }
}

/// Accumulation keeps the list sorted and its amounts well-formed.
pub proof fn lemma_add_entry_props(m: Seq<(Seq<char>, Rational)>, c: Seq<char>, a: Rational, i: int)
    requires
        sorted_keys(m),
        entries_wf(m),
        a.wf(),
        entry_fits(m, c, a),
        0 <= i <= m.len(),
        forall|j: int| 0 <= j < i ==> lex_cmp((#[trigger] m[j]).0, c) < 0,
        i < m.len() ==> lex_cmp(c, m[i].0) <= 0,
    ensures
        sorted_keys(add_entry(m, c, a)),
        entries_wf(add_entry(m, c, a)),
{
    lemma_add_entry_at(m, c, a, i);
    if i < m.len() && lex_cmp(c, m[i].0) == 0 {
        let r = m.update(i, (m[i].0, m[i].1.spec_plus(a)));
        assert(forall|j: int| 0 <= j < r.len() ==> (#[trigger] r[j]).0 == m[j].0);
        lemma_spec_plus_wf(m[i].1, a);
        assert(entries_wf(r));
    } else {
        let r = m.insert(i, (c, a));
        assert forall|p: int, q: int| 0 <= p < q < r.len() implies lex_cmp(
            (#[trigger] r[p]).0,
            (#[trigger] r[q]).0,
        ) < 0 by {
            if p == i {
                assert(r[q] == m[q - 1]);
                assert(lex_cmp(c, m[i].0) < 0);
                if q - 1 > i {
                    lemma_lex_cmp_transitive(c, m[i].0, m[q - 1].0);
                }
            } else if q == i {
                assert(r[p] == m[p]);
            } else {
                assert(r[p] == if p < i {
                    m[p]
                } else {
                    m[p - 1]
                });
                assert(r[q] == if q < i {
                    m[q]
                } else {
                    m[q - 1]
                });
            }
        };
        assert(entries_wf(r)) by {
            assert(forall|j: int|
                0 <= j < r.len() && j != i ==> (#[trigger] r[j]) == if j < i {
                    m[j]
                } else {
                    m[j - 1]
                });
        };
    }
}

/// Adds one posting amount into a sorted totals list, in place.
pub fn add_amount(totals: &mut Vec<(String, Rational)>, commodity: &String, amount: &Rational)
    requires
        sorted_keys(views_of(old(totals)@)),
        entries_wf(views_of(old(totals)@)),
        amount.wf(),
        entry_fits(views_of(old(totals)@), commodity@, *amount),
    ensures
        views_of(final(totals)@) == add_entry(views_of(old(totals)@), commodity@, *amount),
        sorted_keys(views_of(final(totals)@)),
        entries_wf(views_of(final(totals)@)),
{
    let ghost m = views_of(old(totals)@);
    let mut i: usize = 0;
    while i < totals.len() && str_cmp(totals[i].0.as_str(), commodity.as_str()) < 0
        invariant
            0 <= i <= totals.len(),
            totals@ == old(totals)@,
            forall|j: int| 0 <= j < i ==> lex_cmp((#[trigger] m[j]).0, commodity@) < 0,
            m == views_of(totals@),
        decreases totals.len() - i,
    {
        proof {
            assert(m[i as int].0 == totals@[i as int].0@);
        }
        i = i + 1;
    }
    proof {
        assert(i < totals.len() ==> lex_cmp(totals@[i as int].0@, commodity@) >= 0);
        if i < totals.len() {
            lemma_lex_cmp_antisymmetric(totals@[i as int].0@, commodity@);
        }
        assert(i < m.len() ==> lex_cmp(commodity@, m[i as int].0) <= 0);
        lemma_add_entry_at(m, commodity@, *amount, i as int);
        lemma_add_entry_props(m, commodity@, *amount, i as int);
    }
    if i < totals.len() {
        let r = str_cmp(totals[i].0.as_str(), commodity.as_str());
        if r == 0 {
            let entry = totals.remove(i);
            let sum = entry.1.plus(amount);
            totals.insert(i, (entry.0, sum));
            proof {
                assert(views_of(totals@) =~= m.update(
                    i as int,
                    (m[i as int].0, m[i as int].1.spec_plus(*amount)),
                ));
            }
        } else {
            totals.insert(i, (commodity.clone(), *amount));
            proof {
                assert(views_of(totals@) =~= m.insert(i as int, (commodity@, *amount)));
            }
        }
    } else {
        totals.insert(i, (commodity.clone(), *amount));
        proof {
            assert(views_of(totals@) =~= m.insert(i as int, (commodity@, *amount)));
        }
    }
}

/// The position in a sorted list at or before which a key belongs.
pub open spec fn find_pos(m: Seq<(Seq<char>, Rational)>, c: Seq<char>) -> int
    decreases m.len(),
{
    if m.len() == 0 {
        0
    } else if lex_cmp(c, m[0].0) <= 0 {
        0
    } else {
        1 + find_pos(m.skip(1), c)
    }
}

/// `find_pos` is the insertion point: everything before it is strictly below
/// the key, and the entry at it (if any) is at or above the key.
pub proof fn lemma_find_pos(m: Seq<(Seq<char>, Rational)>, c: Seq<char>)
    ensures
        0 <= find_pos(m, c) <= m.len(),
        forall|j: int| 0 <= j < find_pos(m, c) ==> lex_cmp((#[trigger] m[j]).0, c) < 0,
        find_pos(m, c) < m.len() ==> lex_cmp(c, m[find_pos(m, c)].0) <= 0,
    decreases m.len(),
{
    if m.len() > 0 && lex_cmp(c, m[0].0) > 0 {
        lemma_lex_cmp_antisymmetric(c, m[0].0);
        lemma_find_pos(m.skip(1), c);
        let t = m.skip(1);
        assert forall|j: int| 0 <= j < find_pos(m, c) implies lex_cmp((#[trigger] m[j]).0, c)
            < 0 by {
            if j > 0 {
                assert(t[j - 1] == m[j]);
                assert(lex_cmp(t[j - 1].0, c) < 0);
            }
        };
    }
}

/// Accumulation keeps the list sorted and its amounts well-formed, stated
/// without naming the insertion point.
pub proof fn lemma_add_entry_keeps(m: Seq<(Seq<char>, Rational)>, c: Seq<char>, a: Rational)
    requires
        sorted_keys(m),
        entries_wf(m),
        a.wf(),
        entry_fits(m, c, a),
    ensures
        sorted_keys(add_entry(m, c, a)),
        entries_wf(add_entry(m, c, a)),
{
    lemma_find_pos(m, c);
    lemma_add_entry_props(m, c, a, find_pos(m, c));
}

/// The totals reached from a starting state after consuming a posting
/// stream, in order; a posting without a balanced amount contributes nothing
/// (the engine rejects such a stream before using this).
pub open spec fn apply_postings(m0: Seq<(Seq<char>, Rational)>, ps: Seq<Posting>) -> Seq<
    (Seq<char>, Rational),
>
    decreases ps.len(),
{
    if ps.len() == 0 {
        m0
    } else {
        match ps.last().balanced_amount {
            Option::Some(b) => add_entry(
                apply_postings(m0, ps.drop_last()),
                b.commodity@,
                b.amount,
            ),
            Option::None => apply_postings(m0, ps.drop_last()),
        }
    }
}

/// Every intermediate total along the stream stays in the machine range.
pub open spec fn apply_fits(m0: Seq<(Seq<char>, Rational)>, ps: Seq<Posting>) -> bool
    decreases ps.len(),
{
    if ps.len() == 0 {
        true
    } else {
        apply_fits(m0, ps.drop_last()) && match ps.last().balanced_amount {
            Option::Some(b) => entry_fits(apply_postings(m0, ps.drop_last()), b.commodity@, b.amount),
            Option::None => true,
        }
    }
}

/// The per-commodity totals of a whole posting stream.
pub open spec fn totals_of(ps: Seq<Posting>) -> Seq<(Seq<char>, Rational)> {
    apply_postings(Seq::empty(), ps)
}

/// Every intermediate total of a whole posting stream is in range.
pub open spec fn totals_fit(ps: Seq<Posting>) -> bool {
    apply_fits(Seq::empty(), ps)
}

/// The amount accumulated under a commodity, if any.
pub open spec fn lookup(m: Seq<(Seq<char>, Rational)>, c: Seq<char>) -> Option<Rational>
    decreases m.len(),
{
    if m.len() == 0 {
        Option::None
    } else if lex_cmp(c, m[0].0) == 0 {
        Option::Some(m[0].1)
    } else {
        lookup(m.skip(1), c)
    }
}

/// A key below every stored key is absent.
pub proof fn lemma_lookup_below(m: Seq<(Seq<char>, Rational)>, c: Seq<char>)
    requires
        sorted_keys(m),
        m.len() > 0 ==> lex_cmp(c, m[0].0) < 0,
    ensures
        lookup(m, c) is None,
    decreases m.len(),
{
    if m.len() > 0 {
        let t = m.skip(1);
        assert(sorted_keys(t)) by {
            assert(forall|p: int, q: int|
                0 <= p < q < t.len() ==> t[p] == m[p + 1] && t[q] == m[q + 1]);
        };
        if t.len() > 0 {
            assert(t[0] == m[1]);
            lemma_lex_cmp_transitive(c, m[0].0, m[1].0);
        }
        lemma_lookup_below(t, c);
    }
}

/// Accumulating under a commodity sets exactly that commodity's entry: a
/// fresh entry starts at the amount, an existing one is summed; and the step
/// fits exactly when that one sum fits.
pub proof fn lemma_lookup_add_same(
    m: Seq<(Seq<char>, Rational)>,
    k: Seq<char>,
    a: Rational,
    c: Seq<char>,
)
    requires
        sorted_keys(m),
        lex_cmp(k, c) == 0,
    ensures
        lookup(add_entry(m, k, a), c) == Option::Some(
            match lookup(m, c) {
                Option::None => a,
                Option::Some(v) => v.spec_plus(a),
            },
        ),
        lookup(m, c) matches Option::Some(v) ==> entry_fits(m, k, a) == v.plus_fits(a),
        lookup(m, c) is None ==> entry_fits(m, k, a),
    decreases m.len(),
{
    crate::text::lemma_lex_cmp_antisymmetric(k, c);
    if m.len() == 0 {
        assert(lookup(add_entry(m, k, a), c) == Option::Some(a)) by {
            assert(add_entry(m, k, a) == seq![(k, a)]);
            assert(lex_cmp(c, k) == 0);
        };
    } else {
        assert(lex_cmp(c, k) == 0);
        crate::text::lemma_lex_cmp_congruent(c, k, m[0].0);
        let t = m.skip(1);
        assert(sorted_keys(t)) by {
            assert(forall|p: int, q: int|
                0 <= p < q < t.len() ==> t[p] == m[p + 1] && t[q] == m[q + 1]);
        };
        if lex_cmp(k, m[0].0) < 0 {
            let r = seq![(k, a)] + m;
            assert(add_entry(m, k, a) == r);
            assert(r[0] == (k, a));
            assert(lex_cmp(c, r[0].0) == 0);
            assert(lookup(r, c) == Option::Some(a));
            assert(lex_cmp(c, m[0].0) < 0);
            lemma_lookup_below(m, c);
        } else if lex_cmp(k, m[0].0) == 0 {
            let r = seq![(m[0].0, m[0].1.spec_plus(a))] + m.skip(1);
            assert(add_entry(m, k, a) == r);
            assert(r[0] == (m[0].0, m[0].1.spec_plus(a)));
            assert(lex_cmp(c, m[0].0) == 0);
            assert(lex_cmp(c, r[0].0) == 0);
            assert(lookup(r, c) == Option::Some(m[0].1.spec_plus(a)));
            assert(lookup(m, c) == Option::Some(m[0].1));
        } else {
            let r = seq![m[0]] + add_entry(t, k, a);
            assert(add_entry(m, k, a) == r);
            assert(r[0] == m[0]);
            assert(lex_cmp(c, m[0].0) > 0);
            lemma_lookup_add_same(t, k, a, c);
            assert(r.skip(1) =~= add_entry(t, k, a));
            assert(lookup(r, c) == lookup(add_entry(t, k, a), c));
            assert(lookup(m, c) == lookup(t, c));
        }
    }
}

/// Accumulating under one commodity leaves every other commodity's entry
/// unchanged.
pub proof fn lemma_lookup_add_other(
    m: Seq<(Seq<char>, Rational)>,
    k: Seq<char>,
    a: Rational,
    c: Seq<char>,
)
    requires
        sorted_keys(m),
        lex_cmp(k, c) != 0,
    ensures
        lookup(add_entry(m, k, a), c) == lookup(m, c),
    decreases m.len(),
{
    crate::text::lemma_lex_cmp_antisymmetric(k, c);
    if m.len() == 0 {
        assert(add_entry(m, k, a) == seq![(k, a)]);
        assert(seq![(k, a)][0] == (k, a));
        assert(lex_cmp(c, k) != 0);
        let e: Seq<(Seq<char>, Rational)> = Seq::empty();
        assert(lookup(e, c) is None);
        assert(seq![(k, a)].skip(1) =~= e);
        assert(lookup(seq![(k, a)], c) == lookup(e, c));
    } else {
        let t = m.skip(1);
        assert(sorted_keys(t)) by {
            assert(forall|p: int, q: int|
                0 <= p < q < t.len() ==> t[p] == m[p + 1] && t[q] == m[q + 1]);
        };
        if lex_cmp(k, m[0].0) < 0 {
            let r = seq![(k, a)] + m;
            assert(add_entry(m, k, a) == r);
            assert(r[0] == (k, a));
            assert(lex_cmp(c, r[0].0) != 0);
            assert(r.skip(1) =~= m);
            assert(lookup(r, c) == lookup(m, c));
        } else if lex_cmp(k, m[0].0) == 0 {
            let r = seq![(m[0].0, m[0].1.spec_plus(a))] + m.skip(1);
            assert(add_entry(m, k, a) == r);
            assert(r[0] == (m[0].0, m[0].1.spec_plus(a)));
            crate::text::lemma_lex_cmp_congruent(k, m[0].0, c);
            assert(lex_cmp(c, m[0].0) != 0) by {
                crate::text::lemma_lex_cmp_antisymmetric(c, m[0].0);
            };
            assert(lex_cmp(c, r[0].0) != 0);
            assert(r.skip(1) =~= m.skip(1));
            assert(lookup(r, c) == lookup(m.skip(1), c));
            assert(lookup(m, c) == lookup(m.skip(1), c));
        } else {
            let r = seq![m[0]] + add_entry(t, k, a);
            assert(add_entry(m, k, a) == r);
            lemma_lookup_add_other(t, k, a, c);
            assert(r[0] == m[0]);
            assert(r.len() > 0);
            assert(r.skip(1) =~= add_entry(t, k, a));
            if lex_cmp(c, m[0].0) == 0 {
                assert(lookup(r, c) == Option::Some(m[0].1));
                assert(lookup(m, c) == Option::Some(m[0].1));
            } else {
                assert(lookup(r, c) == lookup(add_entry(t, k, a), c));
                assert(lookup(m, c) == lookup(t, c));
            }
        }
    }
}

/// Consuming a concatenation is consuming the parts in turn.
pub proof fn lemma_apply_append(
    m0: Seq<(Seq<char>, Rational)>,
    a: Seq<Posting>,
    b: Seq<Posting>,
)
    ensures
        apply_postings(m0, a + b) == apply_postings(apply_postings(m0, a), b),
    decreases b.len(),
{
    if b.len() == 0 {
        assert(a + b =~= a);
        assert(apply_postings(m0, b) == m0);
    } else {
        lemma_apply_append(m0, a, b.drop_last());
        assert((a + b).drop_last() =~= a + b.drop_last());
        assert((a + b).last() == b.last());
    }
}

/// If the whole stream stays in range, so does every prefix of it.
pub proof fn lemma_fits_take(m0: Seq<(Seq<char>, Rational)>, ps: Seq<Posting>, k: int)
    requires
        apply_fits(m0, ps),
        0 <= k <= ps.len(),
    ensures
        apply_fits(m0, ps.take(k)),
    decreases ps.len() - k,
{
    if k == ps.len() {
        assert(ps.take(k) =~= ps);
    } else {
        lemma_fits_take(m0, ps, k + 1);
        assert(ps.take(k + 1).drop_last() =~= ps.take(k));
        assert(apply_fits(m0, ps.take(k + 1)));
    }
}

/// The totals of a stream are sorted with well-formed amounts throughout.
pub proof fn lemma_apply_keeps(m0: Seq<(Seq<char>, Rational)>, ps: Seq<Posting>)
    requires
        sorted_keys(m0),
        entries_wf(m0),
        crate::model::amounts_wf(ps),
        apply_fits(m0, ps),
    ensures
        sorted_keys(apply_postings(m0, ps)),
        entries_wf(apply_postings(m0, ps)),
    decreases ps.len(),
{
    if ps.len() > 0 {
        assert(crate::model::amounts_wf(ps.drop_last())) by {
            assert(forall|i: int| 0 <= i < ps.len() - 1 ==> ps.drop_last()[i] == ps[i]);
        };
        lemma_apply_keeps(m0, ps.drop_last());
        match ps.last().balanced_amount {
            Option::Some(b) => {
                assert(b.amount.wf());
                lemma_add_entry_keeps(apply_postings(m0, ps.drop_last()), b.commodity@, b.amount);
            },
            Option::None => {},
        }
    }
}

} // verus!
