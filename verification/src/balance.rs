//! The flat balance report: every account's per-commodity sums, a separator
//! rule, and the grand total — all aligned to one measured column width.
//!
//! The width is the true maximum, over all account cells and all grand-total
//! cells, of commodity length plus rendered amount length; it is computed
//! over the complete row set before anything is rendered, so every cell and
//! the separator rule meet the same grid.

use crate::aggregate::{
    grand_totals, group_postings_by_account, groups_fit, groups_of, groups_wf, gviews_of,
};
use crate::format::{format_amount, spec_format_amount};
use crate::model::{all_balanced, amounts_wf, postings_of_txns, AggregationError, Transaction};
use crate::rational::Rational;
use crate::span::{span_views, Span, Style};
use crate::text::{pad_left, repeat_char, spec_pad_left};
use crate::totals::{entries_wf, totals_fit, totals_of, views_of};
use vstd::math::max;
use vstd::prelude::*;

verus! {

/// The rendered width of one cell: commodity label plus exact amount string.
pub open spec fn cell_len(c: Seq<char>, a: Rational) -> nat {
    c.len() + spec_format_amount(a.num as int, a.den as int).len()
}

/// The widest cell of one totals list.
pub open spec fn inner_width(m: Seq<(Seq<char>, Rational)>) -> nat
    decreases m.len(),
{
    if m.len() == 0 {
        0
    } else {
        max(inner_width(m.drop_last()) as int, cell_len(m.last().0, m.last().1) as int) as nat
    }
}

/// The widest cell across all accounts.
pub open spec fn groups_width(g: Seq<(Seq<char>, Seq<(Seq<char>, Rational)>)>) -> nat
    decreases g.len(),
{
    if g.len() == 0 {
        0
    } else {
        max(groups_width(g.drop_last()) as int, inner_width(g.last().1) as int) as nat
    }
}

/// The balance report's single column width: the maximum over all account
/// cells and all grand-total cells.
pub open spec fn balance_width(
    g: Seq<(Seq<char>, Seq<(Seq<char>, Rational)>)>,
    tot: Seq<(Seq<char>, Rational)>,
) -> nat {
    max(groups_width(g) as int, inner_width(tot) as int) as nat
}

/// No cell of a totals list is wider than `inner_width`: the computed width
/// is the true maximum of the rendered content.
pub proof fn lemma_inner_width_bound(m: Seq<(Seq<char>, Rational)>, j: int)
    requires
        0 <= j < m.len(),
    ensures
        cell_len(m[j].0, m[j].1) <= inner_width(m),
    decreases m.len(),
{
    if j < m.len() - 1 {
        lemma_inner_width_bound(m.drop_last(), j);
        assert(m.drop_last()[j] == m[j]);
    }
}

/// No account's cells are wider than `groups_width`.
pub proof fn lemma_groups_width_bound(g: Seq<(Seq<char>, Seq<(Seq<char>, Rational)>)>, i: int)
    requires
        0 <= i < g.len(),
    ensures
        inner_width(g[i].1) <= groups_width(g),
    decreases g.len(),
{
    if i < g.len() - 1 {
        lemma_groups_width_bound(g.drop_last(), i);
        assert(g.drop_last()[i] == g[i]);
    }
}

/// A cell whose content fits the width renders to exactly `w + 1`
/// characters (the cell plus its separating space): nothing is truncated and
/// nothing misaligns with the separator rule of width `w`.
pub proof fn lemma_cell_aligned(c: Seq<char>, a: Rational, w: nat)
    requires
        cell_len(c, a) <= w,
    ensures
        bal_cell(c, a, w).0.len() == w + 1,
{
    crate::text::lemma_repeat_char_len(' ', (w - (c
        + spec_format_amount(a.num as int, a.den as int)).len()) as nat);
}

/// With the measured width, every account cell renders to exactly
/// `width + 1` characters: no content is truncated, and every line meets the
/// separator rule's grid.
pub proof fn lemma_account_cells_aligned(
    g: Seq<(Seq<char>, Seq<(Seq<char>, Rational)>)>,
    tot: Seq<(Seq<char>, Rational)>,
    i: int,
    j: int,
)
    requires
        0 <= i < g.len(),
        0 <= j < g[i].1.len(),
    ensures
        bal_cell(g[i].1[j].0, g[i].1[j].1, balance_width(g, tot)).0.len() == balance_width(g, tot)
            + 1,
{
    lemma_inner_width_bound(g[i].1, j);
    lemma_groups_width_bound(g, i);
    lemma_cell_aligned(g[i].1[j].0, g[i].1[j].1, balance_width(g, tot));
}

/// With the measured width, every grand-total cell renders to exactly
/// `width + 1` characters as well.
pub proof fn lemma_total_cells_aligned(
    g: Seq<(Seq<char>, Seq<(Seq<char>, Rational)>)>,
    tot: Seq<(Seq<char>, Rational)>,
    j: int,
)
    requires
        0 <= j < tot.len(),
    ensures
        bal_cell(tot[j].0, tot[j].1, balance_width(g, tot)).0.len() == balance_width(g, tot) + 1,
{
    lemma_inner_width_bound(tot, j);
    lemma_cell_aligned(tot[j].0, tot[j].1, balance_width(g, tot));
}

/// One rendered cell: the commodity and amount right-aligned in the column,
/// followed by one space; negative amounts are flagged for highlighting.
pub open spec fn bal_cell(c: Seq<char>, a: Rational, w: nat) -> (Seq<char>, Style) {
    (
        spec_pad_left(c + spec_format_amount(a.num as int, a.den as int), w) + seq![' '],
        if a.num < 0 {
            Style::Negative
        } else {
            Style::Plain
        },
    )
}

/// The stacked commodity cells of one account, later cells on new lines.
pub open spec fn account_lines(m: Seq<(Seq<char>, Rational)>, w: nat) -> Seq<(Seq<char>, Style)>
    decreases m.len(),
{
    if m.len() == 0 {
        Seq::empty()
    } else if m.len() == 1 {
        seq![bal_cell(m[0].0, m[0].1, w)]
    } else {
        account_lines(m.drop_last(), w) + seq![
            (seq!['\n'], Style::Plain),
            bal_cell(m.last().0, m.last().1, w),
        ]
    }
}

/// One account's block: its cells, the account label on the last cell line,
/// and a blank separator line after a multi-commodity group.
pub open spec fn account_block(acct: Seq<char>, m: Seq<(Seq<char>, Rational)>, w: nat) -> Seq<
    (Seq<char>, Style),
> {
    account_lines(m, w) + seq![(acct, Style::Account), (seq!['\n'], Style::Plain)] + if m.len()
        > 1 {
        seq![(seq!['\n'], Style::Plain)]
    } else {
        Seq::empty()
    }
}

/// All account blocks, in account order.
pub open spec fn accounts_section(g: Seq<(Seq<char>, Seq<(Seq<char>, Rational)>)>, w: nat) -> Seq<
    (Seq<char>, Style),
>
    decreases g.len(),
{
    if g.len() == 0 {
        Seq::empty()
    } else {
        accounts_section(g.drop_last(), w) + account_block(g.last().0, g.last().1, w)
    }
}

/// Every grand total is exactly zero.
pub open spec fn all_zero(m: Seq<(Seq<char>, Rational)>) -> bool {
    forall|i: int| 0 <= i < m.len() ==> (#[trigger] m[i]).1.num == 0
}

/// The grand-total cells, one line each.
pub open spec fn totals_lines(tot: Seq<(Seq<char>, Rational)>, w: nat) -> Seq<(Seq<char>, Style)>
    decreases tot.len(),
{
    if tot.len() == 0 {
        Seq::empty()
    } else {
        totals_lines(tot.drop_last(), w) + seq![
            bal_cell(tot.last().0, tot.last().1, w),
            (seq!['\n'], Style::Plain),
        ]
    }
}

/// The trailing total: one literal `0` line when every commodity's grand
/// total is exactly zero — the balanced-ledger shortcut — else one line per
/// commodity.
pub open spec fn totals_section(tot: Seq<(Seq<char>, Rational)>, w: nat) -> Seq<
    (Seq<char>, Style),
> {
    if all_zero(tot) {
        seq![(spec_pad_left(seq!['0'], w) + seq![' ', '\n'], Style::Plain)]
    } else {
        totals_lines(tot, w)
    }
}

/// The whole balance report: account blocks, a separator rule exactly as
/// wide as the column, then the grand total.
pub open spec fn spec_balance_spans(
    g: Seq<(Seq<char>, Seq<(Seq<char>, Rational)>)>,
    tot: Seq<(Seq<char>, Rational)>,
) -> Seq<(Seq<char>, Style)> {
    let w = balance_width(g, tot);
    accounts_section(g, w) + seq![(repeat_char('-', w) + seq!['\n'], Style::Plain)]
        + totals_section(tot, w)
}

/// When the ledger balances — every grand total exactly zero — the report
/// ends in exactly one total line, reading `0` right-aligned in the column.
pub proof fn lemma_zero_total_shortcut(
    g: Seq<(Seq<char>, Seq<(Seq<char>, Rational)>)>,
    tot: Seq<(Seq<char>, Rational)>,
)
    requires
        all_zero(tot),
    ensures
        totals_section(tot, balance_width(g, tot)).len() == 1,
        totals_section(tot, balance_width(g, tot))[0].0 == spec_pad_left(
            seq!['0'],
            balance_width(g, tot),
        ) + seq![' ', '\n'],
{
}

/// Builds one rendered cell.
fn balance_cell(commodity: &String, amount: &Rational, w: usize) -> (s: Span)
    requires
        amount.wf(),
    ensures
        (s.text@, s.style) == bal_cell(commodity@, *amount, w as nat),
{
    proof {
        reveal_strlit(" ");
    }
    let f = format_amount(amount);
    let joined = String::from_str(commodity.as_str()).concat(f.as_str());
    let padded = pad_left(joined.as_str(), w);
    let text = padded.concat(" ");
    let style = if amount.is_negative() {
        Style::Negative
    } else {
        Style::Plain
    };
    proof {
        assert(joined@ =~~= commodity@ + spec_format_amount(amount.num as int, amount.den as int));
        assert(text@ =~~= spec_pad_left(
            commodity@ + spec_format_amount(amount.num as int, amount.den as int),
            w as nat,
        ) + seq![' ']);
    }
    Span { text, style }
}

/// Renders the flat balance report of the given transaction stream as styled
/// spans; fails precisely when some posting lacks its balanced amount, and
/// then renders nothing.
pub fn balance_report(transactions: &Vec<Transaction>) -> (r: Result<Vec<Span>, AggregationError>)
    requires
        amounts_wf(postings_of_txns(transactions@)),
        groups_fit(postings_of_txns(transactions@)),
        totals_fit(postings_of_txns(transactions@)),
        balance_width(
            groups_of(postings_of_txns(transactions@)),
            totals_of(postings_of_txns(transactions@)),
        ) <= usize::MAX,
    ensures
        match r {
            Ok(spans) => all_balanced(postings_of_txns(transactions@)) && span_views(spans@)
                == spec_balance_spans(
                groups_of(postings_of_txns(transactions@)),
                totals_of(postings_of_txns(transactions@)),
            ),
            Err(e) => !all_balanced(postings_of_txns(transactions@)) && e
                == AggregationError::MissingBalancedAmount,
        },
{
    let groups = match group_postings_by_account(transactions) {
        Ok(g) => g,
        Err(e) => {
            return Err(e);
        },
    };
    let totals = match grand_totals(transactions) {
        Ok(t) => t,
        Err(e) => {
            return Err(e);
        },
    };
    let ghost gg = gviews_of(groups@);
    let ghost tt = views_of(totals@);

    // First pass: measure.
    let mut w: usize = 0;
    let mut i: usize = 0;
    proof {
        assert(gg.take(0) =~~= Seq::<(Seq<char>, Seq<(Seq<char>, Rational)>)>::empty());
    }
    while i < groups.len()
        invariant
            0 <= i <= groups.len(),
            gg == gviews_of(groups@),
            tt == views_of(totals@),
            groups_wf(gg),
            crate::totals::entries_wf(tt),
            balance_width(gg, tt) <= usize::MAX,
            w as nat == groups_width(gg.take(i as int)),
            w as nat <= groups_width(gg),
        decreases groups.len() - i,
    {
        proof {
            assert(gg[i as int] == (groups@[i as int].0@, views_of(groups@[i as int].1@)));
            lemma_groups_width_bound(gg, i as int);
        }
        let m = &groups[i].1;
        let mut j: usize = 0;
        let ghost mm = views_of(m@);
        proof {
            assert(mm.take(0) =~~= Seq::<(Seq<char>, Rational)>::empty());
        }
        while j < m.len()
            invariant
                0 <= j <= m.len(),
                mm == views_of(m@),
                entries_wf(mm),
                inner_width(mm) <= groups_width(gg),
                groups_width(gg) <= balance_width(gg, tt) <= usize::MAX,
                w as nat == max(
                    groups_width(gg.take(i as int)) as int,
                    inner_width(mm.take(j as int)) as int,
                ) as nat,
                w as nat <= groups_width(gg),
            decreases m.len() - j,
        {
            proof {
                assert(mm[j as int] == (m@[j as int].0@, m@[j as int].1));
                lemma_inner_width_bound(mm, j as int);
            }
            let f = format_amount(&m[j].1);
            let kl = m[j].0.as_str().unicode_len();
            let fl = f.as_str().unicode_len();
            proof {
                assert(kl as nat + fl as nat == cell_len(mm[j as int].0, mm[j as int].1));
            }
            let cl = kl + fl;
            if cl > w {
                w = cl;
            }
            proof {
                assert(mm.take(j + 1).drop_last() =~~= mm.take(j as int));
                assert(mm.take(j + 1).last() == mm[j as int]);
            }
            j = j + 1;
        }
        proof {
            assert(mm.take(m@.len() as int) =~~= mm);
            assert(gg.take(i + 1).drop_last() =~~= gg.take(i as int));
            assert(gg.take(i + 1).last() == gg[i as int]);
        }
        i = i + 1;
    }
    proof {
        assert(gg.take(groups@.len() as int) =~~= gg);
    }
    let mut j: usize = 0;
    proof {
        assert(tt.take(0) =~~= Seq::<(Seq<char>, Rational)>::empty());
    }
    while j < totals.len()
        invariant
            0 <= j <= totals.len(),
            tt == views_of(totals@),
            entries_wf(tt),
            balance_width(gg, tt) <= usize::MAX,
            w as nat == max(groups_width(gg) as int, inner_width(tt.take(j as int)) as int) as nat,
        decreases totals.len() - j,
    {
        proof {
            assert(tt[j as int] == (totals@[j as int].0@, totals@[j as int].1));
            lemma_inner_width_bound(tt, j as int);
        }
        let f = format_amount(&totals[j].1);
        let kl = totals[j].0.as_str().unicode_len();
        let fl = f.as_str().unicode_len();
        proof {
            assert(kl as nat + fl as nat == cell_len(tt[j as int].0, tt[j as int].1));
        }
        let cl = kl + fl;
        if cl > w {
            w = cl;
        }
        proof {
            assert(tt.take(j + 1).drop_last() =~~= tt.take(j as int));
            assert(tt.take(j + 1).last() == tt[j as int]);
        }
        j = j + 1;
    }
    proof {
        assert(tt.take(totals@.len() as int) =~~= tt);
        assert(w as nat == balance_width(gg, tt));
    }

    // Exact zero test of the grand total.
    let mut zero = true;
    let mut j: usize = 0;
    while j < totals.len()
        invariant
            0 <= j <= totals.len(),
            tt == views_of(totals@),
            entries_wf(tt),
            zero <==> (forall|k: int| 0 <= k < j ==> (#[trigger] tt[k]).1.num == 0),
        decreases totals.len() - j,
    {
        proof {
            assert(tt[j as int] == (totals@[j as int].0@, totals@[j as int].1));
        }
        if !totals[j].1.is_zero() {
            zero = false;
        }
        j = j + 1;
    }
    proof {
        assert(zero <==> all_zero(tt));
    }

    // Second pass: render.
    let mut spans: Vec<Span> = Vec::new();
    let mut i: usize = 0;
    proof {
        assert(gg.take(0) =~~= Seq::<(Seq<char>, Seq<(Seq<char>, Rational)>)>::empty());
        assert(span_views(spans@) =~~= accounts_section(gg.take(0), w as nat));
        reveal_strlit("\n");
        reveal_strlit(" \n");
        reveal_strlit("0");
    }
    while i < groups.len()
        invariant
            0 <= i <= groups.len(),
            gg == gviews_of(groups@),
            tt == views_of(totals@),
            groups_wf(gg),
            span_views(spans@) == accounts_section(gg.take(i as int), w as nat),
        decreases groups.len() - i,
    {
        proof {
            assert(gg[i as int] == (groups@[i as int].0@, views_of(groups@[i as int].1@)));
        }
        let m = &groups[i].1;
        let ghost mm = views_of(m@);
        let ghost before = span_views(spans@);
        let mut j: usize = 0;
        proof {
            assert(mm.take(0) =~~= Seq::<(Seq<char>, Rational)>::empty());
            assert(account_lines(mm.take(0), w as nat) =~~= Seq::<(Seq<char>, Style)>::empty());
            assert(span_views(spans@) =~~= before + account_lines(mm.take(0), w as nat));
        }
        while j < m.len()
            invariant
                0 <= j <= m.len(),
                mm == views_of(m@),
                entries_wf(mm),
                span_views(spans@) == before + account_lines(mm.take(j as int), w as nat),
            decreases m.len() - j,
        {
            proof {
                reveal_strlit("\n");
                assert(mm[j as int] == (m@[j as int].0@, m@[j as int].1));
            }
            if j > 0 {
                let nl = String::from_str("\n");
                let ghost prev = span_views(spans@);
                spans.push(Span { text: nl, style: Style::Plain });
                proof {
                    reveal_strlit("\n");
                    assert(span_views(spans@) =~~= prev + seq![(seq!['\n'], Style::Plain)]);
                }
            }
            let cell = balance_cell(&m[j].0, &m[j].1, w);
            let ghost cellv = (cell.text@, cell.style);
            let ghost prev2 = span_views(spans@);
            spans.push(cell);
            proof {
                assert(span_views(spans@) =~~= prev2 + seq![cellv]);
                assert(mm.take(j + 1).drop_last() =~~= mm.take(j as int));
                assert(mm.take(j + 1).last() == mm[j as int]);
                if j == 0 {
                    assert(mm.take(1)[0] == mm[0]);
                    assert(account_lines(mm.take(1), w as nat) =~~= seq![
                        bal_cell(mm[0].0, mm[0].1, w as nat),
                    ]);
                    assert(span_views(spans@) =~~= before + account_lines(mm.take(j + 1), w as nat));
                } else {
                    assert(account_lines(mm.take(j + 1), w as nat) =~~= account_lines(
                        mm.take(j as int),
                        w as nat,
                    ) + seq![(seq!['\n'], Style::Plain), bal_cell(mm[j as int].0, mm[j as int].1, w as nat)]);
                    assert(span_views(spans@) =~~= before + account_lines(mm.take(j + 1), w as nat));
                }
            }
            j = j + 1;
        }
        let label = groups[i].0.clone();
        let ghost prev3 = span_views(spans@);
        spans.push(Span { text: label, style: Style::Account });
        proof {
            assert(span_views(spans@) =~~= prev3 + seq![(gg[i as int].0, Style::Account)]);
        }
        let nl = String::from_str("\n");
        let ghost prev4 = span_views(spans@);
        spans.push(Span { text: nl, style: Style::Plain });
        proof {
            reveal_strlit("\n");
            assert(span_views(spans@) =~~= prev4 + seq![(seq!['\n'], Style::Plain)]);
        }
        if m.len() > 1 {
            let blank = String::from_str("\n");
            let ghost prev5 = span_views(spans@);
            spans.push(Span { text: blank, style: Style::Plain });
            proof {
                reveal_strlit("\n");
                assert(span_views(spans@) =~~= prev5 + seq![(seq!['\n'], Style::Plain)]);
            }
        }
        proof {
            assert(mm.take(m@.len() as int) =~~= mm);
            assert(span_views(spans@) =~~= before + account_block(gg[i as int].0, gg[i as int].1, w as nat));
            assert(gg.take(i + 1).drop_last() =~~= gg.take(i as int));
            assert(gg.take(i + 1).last() == gg[i as int]);
            assert(span_views(spans@) =~~= accounts_section(gg.take(i + 1), w as nat));
        }
        i = i + 1;
    }
    proof {
        assert(gg.take(groups@.len() as int) =~~= gg);
    }

    // Separator rule of exactly the column width.
    let dashes = crate::text::append_dashes(String::new(), w);
    let sep = dashes.concat("\n");
    let ghost after_accounts = span_views(spans@);
    let ghost sepv = sep@;
    spans.push(Span { text: sep, style: Style::Plain });
    proof {
        reveal_strlit("\n");
        assert(sepv =~~= repeat_char('-', w as nat) + seq!['\n']);
        assert(span_views(spans@) =~~= after_accounts + seq![(sepv, Style::Plain)]);
        assert(span_views(spans@) =~~= after_accounts + seq![
            (repeat_char('-', w as nat) + seq!['\n'], Style::Plain),
        ]);
    }
    let ghost after_sep = span_views(spans@);

    // Grand total: the single `0` line when balanced, else one line per
    // commodity.
    if zero {
        let z = pad_left("0", w);
        let text = z.concat(" \n");
        let ghost textv = text@;
        spans.push(Span { text, style: Style::Plain });
        proof {
            reveal_strlit(" \n");
            reveal_strlit("0");
            assert(" \n"@ =~~= seq![' ', '\n']);
            assert("0"@ =~~= seq!['0']);
            assert(textv =~~= spec_pad_left(seq!['0'], w as nat) + seq![' ', '\n']);
            assert(span_views(spans@) =~~= after_sep + seq![(textv, Style::Plain)]);
            assert(span_views(spans@) =~~= after_sep + totals_section(tt, w as nat));
        }
    } else {
        let mut j: usize = 0;
        proof {
            assert(tt.take(0) =~~= Seq::<(Seq<char>, Rational)>::empty());
            assert(totals_lines(tt.take(0), w as nat) =~~= Seq::<(Seq<char>, Style)>::empty());
            assert(span_views(spans@) =~~= after_sep + totals_lines(tt.take(0), w as nat));
        }
        while j < totals.len()
            invariant
                0 <= j <= totals.len(),
                tt == views_of(totals@),
                entries_wf(tt),
                span_views(spans@) == after_sep + totals_lines(tt.take(j as int), w as nat),
            decreases totals.len() - j,
        {
            proof {
                reveal_strlit("\n");
                assert(tt[j as int] == (totals@[j as int].0@, totals@[j as int].1));
            }
            let cell = balance_cell(&totals[j].0, &totals[j].1, w);
            let ghost cellv = (cell.text@, cell.style);
            let ghost prev6 = span_views(spans@);
            spans.push(cell);
            proof {
                assert(span_views(spans@) =~~= prev6 + seq![cellv]);
            }
            let nl = String::from_str("\n");
            let ghost prev7 = span_views(spans@);
            spans.push(Span { text: nl, style: Style::Plain });
            proof {
                reveal_strlit("\n");
                assert(span_views(spans@) =~~= prev7 + seq![(seq!['\n'], Style::Plain)]);
                assert(tt.take(j + 1).drop_last() =~~= tt.take(j as int));
                assert(tt.take(j + 1).last() == tt[j as int]);
                assert(span_views(spans@) =~~= after_sep + totals_lines(tt.take(j + 1), w as nat));
            }
            j = j + 1;
        }
        proof {
            assert(tt.take(totals@.len() as int) =~~= tt);
            assert(span_views(spans@) =~~= after_sep + totals_section(tt, w as nat));
        }
    }
    proof {
        assert(span_views(spans@) =~~= spec_balance_spans(gg, tt));
    }
    Ok(spans)
}

} // verus!
