use ledger_reports::aggregate::{grand_totals, group_postings_by_account};
use ledger_reports::balance::balance_report;
use ledger_reports::format::format_amount;
use ledger_reports::model::{
    AggregationError, BalancedAmount, Journal, Ledger, Posting, State, Transaction,
};
use ledger_reports::rational::{gcd_u128, Rational};
use ledger_reports::register::{
    build_rows, format_commodity_amount, format_total_commodity_amount,
    format_total_commodity_amount_offset, register_report,
};
use ledger_reports::span::{Span, Style};

fn rat(num: i64, den: i64) -> Rational {
    Rational { num, den }
}

fn posting(account: &str, commodity: &str, num: i64, den: i64) -> Posting {
    Posting {
        account: account.to_string(),
        balanced_amount: Some(BalancedAmount {
            commodity: commodity.to_string(),
            amount: rat(num, den),
        }),
    }
}

fn txn(date: &str, state: State, desc: &str, postings: Vec<Posting>) -> Transaction {
    Transaction {
        date: date.to_string(),
        state,
        description: desc.to_string(),
        postings,
    }
}

fn ledger_of(transactions: Vec<Transaction>) -> Ledger {
    Ledger {
        journals: vec![Journal { transactions }],
    }
}

fn text_of(spans: &[Span]) -> String {
    let mut out = String::new();
    for s in spans {
        out.push_str(&s.text);
    }
    out
}

#[test]
fn gcd_small_values() {
    assert_eq!(gcd_u128(12, 18), 6);
    assert_eq!(gcd_u128(0, 7), 7);
    assert_eq!(gcd_u128(7, 0), 7);
    assert_eq!(gcd_u128(1, 1), 1);
}

#[test]
fn addition_is_exact_and_reduced() {
    let a = rat(1, 2);
    let b = rat(1, 3);
    let s = a.plus(&b);
    assert_eq!(s, rat(5, 6));
    let quarter = rat(1, 4);
    let half = quarter.plus(&quarter);
    assert_eq!(half, rat(1, 2));
    let n = rat(-1, 2).plus(&rat(1, 2));
    assert_eq!(n, rat(0, 1));
}

#[test]
fn addition_is_commutative() {
    let a = rat(7, 12);
    let b = rat(-5, 18);
    assert_eq!(a.plus(&b), b.plus(&a));
}

#[test]
fn addition_reassociates_exactly() {
    // (a + b) + c and a + (b + c) denote the same number exactly.
    let a = rat(1, 3);
    let b = rat(1, 6);
    let c = rat(1, 2);
    let left = a.plus(&b).plus(&c);
    let right = a.plus(&b.plus(&c));
    assert_eq!(left.num * right.den, right.num * left.den);
    assert_eq!(left, rat(1, 1));
}

#[test]
fn format_amount_exact_decimals() {
    assert_eq!(format_amount(&rat(1234, 100)), "12.34");
    assert_eq!(format_amount(&rat(-1, 2)), "-0.5");
    assert_eq!(format_amount(&rat(0, 1)), "0");
    assert_eq!(format_amount(&rat(100, 1)), "100");
    assert_eq!(format_amount(&rat(1, 8)), "0.125");
    // no finite decimal expansion: rendered as an exact fraction
    assert_eq!(format_amount(&rat(1, 3)), "1/3");
    assert_eq!(format_amount(&rat(-2, 3)), "-2/3");
}

#[test]
fn format_amount_no_trailing_zeros() {
    assert_eq!(format_amount(&rat(150, 100)), "1.5");
    assert_eq!(format_amount(&rat(-2500, 1000)), "-2.5");
}

#[test]
fn register_cell_formatting() {
    assert_eq!(format_commodity_amount("USD", "50", 3, 2), "USD50        ");
    assert_eq!(format_commodity_amount("EUR", "7", 5, 4), "  EUR   7        ");
    assert_eq!(format_total_commodity_amount("USD", "50", 3, 2), "USD50");
    assert_eq!(
        format_total_commodity_amount_offset("USD", "50", 12, 3, 3, 2),
        format!("\n{}USD50", " ".repeat(12 + 4 + 3 + 4 + 3 + 2 + 8))
    );
}

#[test]
fn balance_two_accounts_zero_total() {
    // Two accounts in one transaction; the ledger balances, so the grand
    // total is the single `0` line.
    let t = txn(
        "2024-01-01",
        State::Cleared,
        "groceries",
        vec![
            posting("Assets:Cash", "USD", 100, 1),
            posting("Expenses:Food", "USD", -100, 1),
        ],
    );
    let spans = balance_report(&vec![t]).unwrap();
    let text = text_of(&spans);
    assert_eq!(
        text,
        " USD100 Assets:Cash\nUSD-100 Expenses:Food\n-------\n      0 \n"
    );
}

#[test]
fn balance_mixed_totals_not_shortcut() {
    // One commodity sums to zero, another does not: every commodity total is
    // printed, zero ones included — no `0` shortcut.
    let t = txn(
        "2024-01-01",
        State::Uncleared,
        "mixed",
        vec![
            posting("A", "USD", 5, 1),
            posting("B", "USD", -5, 1),
            posting("A", "EUR", 2, 1),
        ],
    );
    let spans = balance_report(&vec![t]).unwrap();
    let text = text_of(&spans);
    // width: cells "EUR2"(4), "USD5"(4), "USD-5"(5); totals "EUR2", "USD0" -> 5
    assert_eq!(
        text,
        " EUR2 \n USD5 A\n\nUSD-5 B\n-----\n EUR2 \n USD0 \n"
    );
}

#[test]
fn balance_three_commodities_blank_line() {
    // An account holding three commodities: three stacked cells, the label
    // on the last, and a blank line before the next account's group.
    let t = txn(
        "2024-01-01",
        State::Uncleared,
        "multi",
        vec![
            posting("Assets:Multi", "EUR", 10, 1),
            posting("Assets:Multi", "GBP", 2, 1),
            posting("Assets:Multi", "USD", 3, 1),
            posting("Zed", "USD", -3, 1),
        ],
    );
    let spans = balance_report(&vec![t]).unwrap();
    let text = text_of(&spans);
    assert_eq!(
        text,
        "EUR10 \n GBP2 \n USD3 Assets:Multi\n\nUSD-3 Zed\n-----\nEUR10 \n GBP2 \n USD0 \n"
    );
}

#[test]
fn balance_missing_amount_is_error() {
    let t = Transaction {
        date: "2024-01-01".to_string(),
        state: State::Uncleared,
        description: "broken".to_string(),
        postings: vec![Posting {
            account: "A".to_string(),
            balanced_amount: None,
        }],
    };
    match balance_report(&vec![t]) {
        Err(e) => assert_eq!(e, AggregationError::MissingBalancedAmount),
        Ok(_) => panic!("expected an error"),
    }
}

#[test]
fn register_missing_amount_is_error() {
    let l = ledger_of(vec![Transaction {
        date: "2024-01-01".to_string(),
        state: State::Uncleared,
        description: "broken".to_string(),
        postings: vec![Posting {
            account: "A".to_string(),
            balanced_amount: None,
        }],
    }]);
    match register_report(&l) {
        Err(e) => assert_eq!(e, AggregationError::MissingBalancedAmount),
        Ok(_) => panic!("expected an error"),
    }
}

#[test]
fn register_two_commodity_running_totals() {
    // 50 USD, then a later transaction posting 20 EUR to the same account:
    // the second row shows the EUR total inline and the unchanged USD total
    // wrapped onto an aligned continuation line.
    let l = ledger_of(vec![
        txn(
            "2024-01-01",
            State::Uncleared,
            "a",
            vec![posting("Acc", "USD", 50, 1)],
        ),
        txn(
            "2024-01-02",
            State::Uncleared,
            "b",
            vec![posting("Acc", "EUR", 20, 1)],
        ),
    ]);
    let spans = register_report(&l).unwrap();
    let text = text_of(&spans);
    let expected = format!(
        "2024-01-01 a    Acc    USD50        USD50\n2024-01-02 b    Acc    EUR20        EUR20\n{}USD50\n",
        " ".repeat(12 + 4 + 3 + 4 + 3 + 2 + 8)
    );
    assert_eq!(text, expected);
}

#[test]
fn register_header_marks() {
    let l = ledger_of(vec![
        txn("d", State::Cleared, "x", vec![posting("A", "USD", 1, 1)]),
        txn("d", State::Pending, "y", vec![posting("A", "USD", 1, 1)]),
    ]);
    let rows = build_rows(&l).unwrap();
    assert_eq!(rows[0].header, "d * x");
    assert_eq!(rows[1].header, "d ! y");
}

#[test]
fn reordering_changes_intermediate_not_final() {
    // Re-ordering two transactions with overlapping commodities changes the
    // intermediate snapshots but not the final one.
    let t1 = txn("d1", State::Uncleared, "x", vec![posting("A", "USD", 10, 1)]);
    let t2 = txn("d2", State::Uncleared, "y", vec![posting("B", "USD", 5, 1)]);
    let l_ab = ledger_of(vec![clone_txn(&t1), clone_txn(&t2)]);
    let l_ba = ledger_of(vec![t2, t1]);
    let rows_ab = build_rows(&l_ab).unwrap();
    let rows_ba = build_rows(&l_ba).unwrap();
    // intermediate snapshots differ
    assert_eq!(rows_ab[0].accounts[0].totals[0].amount, "10");
    assert_eq!(rows_ba[0].accounts[0].totals[0].amount, "5");
    // the final snapshot is the same
    let fin_ab = &rows_ab[1].accounts[0].totals;
    let fin_ba = &rows_ba[1].accounts[0].totals;
    assert_eq!(fin_ab.len(), fin_ba.len());
    assert_eq!(fin_ab[0].commodity, fin_ba[0].commodity);
    assert_eq!(fin_ab[0].amount, fin_ba[0].amount);
    assert_eq!(fin_ab[0].amount, "15");
}

#[test]
fn tracker_final_equals_aggregator_total() {
    // The tracker's final snapshot carries the same commodities and amounts
    // as the aggregator's grand total for the same stream.
    let ts = vec![
        txn(
            "d1",
            State::Uncleared,
            "x",
            vec![posting("A", "USD", 1, 3), posting("B", "EUR", 7, 2)],
        ),
        txn(
            "d2",
            State::Uncleared,
            "y",
            vec![posting("C", "USD", 1, 6), posting("A", "USD", 1, 2)],
        ),
    ];
    let totals = grand_totals(&ts).unwrap();
    let l = Ledger {
        journals: vec![Journal { transactions: ts }],
    };
    let rows = build_rows(&l).unwrap();
    let last = rows.last().unwrap().accounts.last().unwrap();
    assert_eq!(last.totals.len(), totals.len());
    for (snap, tot) in last.totals.iter().zip(totals.iter()) {
        assert_eq!(snap.commodity, tot.0);
        assert_eq!(snap.amount, format_amount(&tot.1));
    }
    // USD: 1/3 + 1/6 + 1/2 == 1 exactly
    assert_eq!(totals[1].0, "USD");
    assert_eq!(totals[1].1, Rational { num: 1, den: 1 });
}

#[test]
fn rendering_is_deterministic() {
    // Rendering the same ledger twice produces byte-identical output.
    let make = || {
        ledger_of(vec![txn(
            "2024-02-02",
            State::Cleared,
            "z",
            vec![
                posting("A", "USD", 125, 100),
                posting("B", "EUR", -3, 1),
            ],
        )])
    };
    let a = register_report(&make()).unwrap();
    let b = register_report(&make()).unwrap();
    assert_eq!(text_of(&a), text_of(&b));
    let ta = {
        let mut l = make();
        l.journals.remove(0).transactions
    };
    let tb = {
        let mut l = make();
        l.journals.remove(0).transactions
    };
    let ba = balance_report(&ta).unwrap();
    let bb = balance_report(&tb).unwrap();
    assert_eq!(text_of(&ba), text_of(&bb));
}

#[test]
fn grouping_orders_accounts_and_commodities() {
    let ts = vec![txn(
        "d",
        State::Uncleared,
        "o",
        vec![
            posting("Zeta", "USD", 1, 1),
            posting("Alpha", "GBP", 2, 1),
            posting("Alpha", "EUR", 3, 1),
        ],
    )];
    let groups = group_postings_by_account(&ts).unwrap();
    assert_eq!(groups.len(), 2);
    assert_eq!(groups[0].0, "Alpha");
    assert_eq!(groups[0].1[0].0, "EUR");
    assert_eq!(groups[0].1[1].0, "GBP");
    assert_eq!(groups[1].0, "Zeta");
}

fn clone_txn(t: &Transaction) -> Transaction {
    Transaction {
        date: t.date.clone(),
        state: t.state,
        description: t.description.clone(),
        postings: t
            .postings
            .iter()
            .map(|p| Posting {
                account: p.account.clone(),
                balanced_amount: p.balanced_amount.as_ref().map(|b| BalancedAmount {
                    commodity: b.commodity.clone(),
                    amount: b.amount,
                }),
            })
            .collect(),
    }
}

#[test]
fn negative_amounts_are_highlighted() {
    let t = txn(
        "2024-01-01",
        State::Cleared,
        "groceries",
        vec![
            posting("Assets:Cash", "USD", 100, 1),
            posting("Expenses:Food", "USD", -100, 1),
        ],
    );
    let spans = balance_report(&vec![t]).unwrap();
    let neg: Vec<&Span> = spans.iter().filter(|s| s.style == Style::Negative).collect();
    assert_eq!(neg.len(), 1);
    assert!(neg[0].text.contains("USD-100"));
    let accounts: Vec<&Span> = spans.iter().filter(|s| s.style == Style::Account).collect();
    assert_eq!(accounts.len(), 2);
    assert_eq!(accounts[0].text, "Assets:Cash");
    assert_eq!(accounts[1].text, "Expenses:Food");
    // zero and positive amounts are unmarked
    assert!(spans
        .iter()
        .filter(|s| s.text.contains("USD100") || s.text.contains(" 0 "))
        .all(|s| s.style == Style::Plain));
}

#[test]
fn register_negative_running_total_highlighted() {
    let l = ledger_of(vec![txn(
        "2024-01-01",
        State::Uncleared,
        "fee",
        vec![posting("Expenses", "USD", -7, 1)],
    )]);
    let spans = register_report(&l).unwrap();
    let neg: Vec<&Span> = spans.iter().filter(|s| s.style == Style::Negative).collect();
    // the amount cell and the running-total cell are both negative
    assert_eq!(neg.len(), 2);
    assert!(neg[0].text.contains("-7"));
    assert!(neg[1].text.contains("-7"));
}

#[test]
fn separator_rule_matches_column_width() {
    let t = txn(
        "2024-01-01",
        State::Uncleared,
        "w",
        vec![posting("Account", "USD", 123456, 100)],
    );
    let spans = balance_report(&vec![t]).unwrap();
    let text = text_of(&spans);
    // widest cell: "USD1234.56" = 10 characters; the rule has that width
    let rule: Vec<&str> = text.lines().filter(|l| l.starts_with('-')).collect();
    assert_eq!(rule, vec!["----------"]);
    for line in text.lines().filter(|l| !l.starts_with('-')) {
        assert!(line.starts_with("USD1234.56 "));
    }
}

#[test]
fn empty_stream_reports() {
    // An empty ledger balances trivially: no accounts, a zero-width rule,
    // and the single `0` total line.
    let spans = balance_report(&vec![]).unwrap();
    assert_eq!(text_of(&spans), "\n0 \n");
    let l = Ledger { journals: vec![] };
    let spans = register_report(&l).unwrap();
    assert_eq!(text_of(&spans), "");
}

#[test]
fn format_amount_of_unreduced_zero() {
    assert_eq!(format_amount(&rat(0, 5)), "0");
}
