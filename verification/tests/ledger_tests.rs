use budget_tracker::date::is_valid_date;
use budget_tracker::ledger::{Ledger, OverrunStatus, DEFAULT_BUDGET_LIMIT};
use budget_tracker::money::Balance;

fn sample() -> Ledger {
    let mut l = Ledger::new(DEFAULT_BUDGET_LIMIT);
    l.add_income(200_000, "Salary".to_string(), "2024-01-15".to_string());
    l.add_expense(50_000, "Rent".to_string(), "2024-01-16".to_string());
    l.add_expense(70_000, "Food".to_string(), "2024-01-17".to_string());
    l
}

#[test]
fn default_budget_is_one_thousand() {
    assert_eq!(DEFAULT_BUDGET_LIMIT, 100_000);
    assert_eq!(Ledger::new(DEFAULT_BUDGET_LIMIT).budget_limit(), 100_000);
}

#[test]
fn salary_rent_food_scenario() {
    let l = sample();
    assert_eq!(l.total_income(), 200_000);
    assert_eq!(l.total_expenses(), 120_000);
    assert_eq!(l.remaining_budget(), Balance { negative: false, magnitude: 80_000 });
    assert_eq!(
        l.check_overrun(),
        OverrunStatus::Exceeded { total_expenses: 120_000, budget_limit: 100_000 }
    );
    assert_eq!(
        l.check_overrun().message(),
        "Warning: You have exceeded your budget! Total Expenses: $1200.00, Budget: $1000.00"
    );
}

#[test]
fn empty_ledger_has_zero_totals() {
    let l = Ledger::new(DEFAULT_BUDGET_LIMIT);
    assert_eq!(l.total_income(), 0);
    assert_eq!(l.total_expenses(), 0);
    assert_eq!(l.remaining_budget(), Balance { negative: false, magnitude: 0 });
    assert_eq!(
        l.check_overrun(),
        OverrunStatus::WithinBudget { total_expenses: 0, budget_limit: 100_000 }
    );
    assert!(l.income_entries().is_empty());
    assert!(l.expense_entries().is_empty());
}

#[test]
fn empty_ledger_is_within_a_zero_budget() {
    let l = Ledger::new(0);
    assert_eq!(l.check_overrun(), OverrunStatus::WithinBudget { total_expenses: 0, budget_limit: 0 });
}

#[test]
fn totals_are_exact_sums() {
    let amounts: [u64; 5] = [1, 99, 12_345, 0, 1_000_000_007];
    let mut l = Ledger::new(0);
    let mut expected: u128 = 0;
    for a in amounts {
        l.add_income(a, "x".to_string(), "2024-02-01".to_string());
        expected += a as u128;
        assert_eq!(l.total_income(), expected);
        assert_eq!(l.total_expenses(), 0);
    }
    for a in amounts {
        l.add_expense(a, "y".to_string(), "2024-02-02".to_string());
    }
    assert_eq!(l.total_expenses(), expected);
    assert_eq!(l.total_income(), expected);
}

#[test]
fn totals_do_not_overflow_on_largest_amounts() {
    let mut l = Ledger::new(0);
    l.add_expense(u64::MAX, "a".to_string(), "2024-02-01".to_string());
    l.add_expense(u64::MAX, "b".to_string(), "2024-02-01".to_string());
    assert_eq!(l.total_expenses(), 2 * (u64::MAX as u128));
    assert_eq!(
        l.remaining_budget(),
        Balance { negative: true, magnitude: 2 * (u64::MAX as u128) }
    );
}

#[test]
fn remaining_budget_can_be_negative() {
    let mut l = Ledger::new(DEFAULT_BUDGET_LIMIT);
    l.add_income(10_000, "Gift".to_string(), "2024-03-01".to_string());
    l.add_expense(25_050, "Bills".to_string(), "2024-03-02".to_string());
    let b = l.remaining_budget();
    assert_eq!(b, Balance { negative: true, magnitude: 15_050 });
    assert_eq!(b.to_fixed(), "-150.50");
}

#[test]
fn remaining_budget_ignores_the_limit() {
    let mut l = sample();
    let before = l.remaining_budget();
    l.set_budget_limit(5);
    assert_eq!(l.remaining_budget(), before);
}

#[test]
fn expenses_equal_to_limit_are_within_budget() {
    let mut l = Ledger::new(120_000);
    l.add_expense(50_000, "Rent".to_string(), "2024-01-16".to_string());
    l.add_expense(70_000, "Food".to_string(), "2024-01-17".to_string());
    assert_eq!(
        l.check_overrun(),
        OverrunStatus::WithinBudget { total_expenses: 120_000, budget_limit: 120_000 }
    );
    l.add_expense(1, "Gum".to_string(), "2024-01-18".to_string());
    assert_eq!(
        l.check_overrun(),
        OverrunStatus::Exceeded { total_expenses: 120_001, budget_limit: 120_000 }
    );
}

#[test]
fn new_limit_is_used_at_once() {
    let mut l = sample();
    assert!(matches!(l.check_overrun(), OverrunStatus::Exceeded { .. }));
    l.set_budget_limit(150_000);
    assert_eq!(l.budget_limit(), 150_000);
    assert_eq!(
        l.check_overrun(),
        OverrunStatus::WithinBudget { total_expenses: 120_000, budget_limit: 150_000 }
    );
    assert_eq!(
        l.check_overrun().message(),
        "Your expenses are within the budget. Total Expenses: $1200.00, Budget: $1500.00"
    );
    l.set_budget_limit(119_999);
    assert_eq!(
        l.check_overrun(),
        OverrunStatus::Exceeded { total_expenses: 120_000, budget_limit: 119_999 }
    );
}

#[test]
fn entries_keep_insertion_order() {
    let l = sample();
    let income = l.income_entries();
    assert_eq!(income.len(), 1);
    assert_eq!(income[0].amount(), 200_000);
    assert_eq!(income[0].label(), "Salary");
    assert_eq!(income[0].date(), "2024-01-15");
    let expenses = l.expense_entries();
    assert_eq!(expenses.len(), 2);
    assert_eq!(expenses[0].label(), "Rent");
    assert_eq!(expenses[0].amount(), 50_000);
    assert_eq!(expenses[1].label(), "Food");
    assert_eq!(expenses[1].date(), "2024-01-17");
}

#[test]
fn date_acceptance() {
    assert!(is_valid_date("2024-01-15"));
    assert!(!is_valid_date("2024/01/15"));
    assert!(!is_valid_date("24-1-15"));
}

#[test]
fn date_check_looks_at_length_and_hyphens_only() {
    assert!(is_valid_date("2024-13-32"));
    assert!(is_valid_date("abcd-ef-gh"));
    assert!(!is_valid_date(""));
    assert!(!is_valid_date("2024-01-155"));
    assert!(!is_valid_date("2024-0115-"));
    assert!(!is_valid_date("20240-1-15"));
}
