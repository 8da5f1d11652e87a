use budget_tracker::amount::parse_amount;
use budget_tracker::input::{
    parse_menu_choice, parse_yes_no, select_transaction_type, MenuChoice, TransactionType,
};
use budget_tracker::ledger::{Ledger, DEFAULT_BUDGET_LIMIT};
use budget_tracker::money::{
    format_fixed, format_plain, push_decimal, push_fixed, push_plain, Balance,
};
use budget_tracker::text::push_line;

fn sample() -> Ledger {
    let mut l = Ledger::new(DEFAULT_BUDGET_LIMIT);
    l.add_income(200_000, "Salary".to_string(), "2024-01-15".to_string());
    l.add_expense(50_000, "Rent".to_string(), "2024-01-16".to_string());
    l.add_expense(70_025, "Food".to_string(), "2024-01-17".to_string());
    l
}

#[test]
fn fixed_text_has_two_decimals() {
    assert_eq!(format_fixed(0), "0.00");
    assert_eq!(format_fixed(5), "0.05");
    assert_eq!(format_fixed(50), "0.50");
    assert_eq!(format_fixed(1250), "12.50");
    assert_eq!(format_fixed(120_000), "1200.00");
    assert_eq!(format_fixed(u128::MAX), "3402823669209384634633746074317682114.55");
}

#[test]
fn plain_text_is_shortest() {
    assert_eq!(format_plain(0), "0");
    assert_eq!(format_plain(200_000), "2000");
    assert_eq!(format_plain(1250), "12.5");
    assert_eq!(format_plain(1234), "12.34");
    assert_eq!(format_plain(5), "0.05");
    assert_eq!(format_plain(1005), "10.05");
}

#[test]
fn plain_text_agrees_with_float_display() {
    let cases: [(u128, f64); 5] = [(200_000, 2000.0), (1250, 12.5), (1234, 12.34), (5, 0.05), (0, 0.0)];
    for (cents, value) in cases {
        assert_eq!(format_plain(cents), format!("{}", value));
        assert_eq!(format_fixed(cents), format!("{:.2}", value));
    }
}

#[test]
fn pushing_appends_to_what_is_there() {
    let mut s = String::from("n=");
    push_decimal(&mut s, 1203);
    assert_eq!(s, "n=1203");
    push_fixed(&mut s, 7);
    assert_eq!(s, "n=12030.07");
    push_plain(&mut s, 300);
    assert_eq!(s, "n=12030.073");
    let mut lines = vec!["a".to_string()];
    push_line(&mut lines, s);
    assert_eq!(lines, vec!["a".to_string(), "n=12030.073".to_string()]);
}

#[test]
fn balance_between_and_text() {
    assert_eq!(Balance::between(5, 3), Balance { negative: false, magnitude: 2 });
    assert_eq!(Balance::between(3, 5), Balance { negative: true, magnitude: 2 });
    assert_eq!(Balance::between(4, 4), Balance { negative: false, magnitude: 0 });
    assert_eq!(Balance::between(80_000, 0).to_fixed(), "800.00");
    assert_eq!(Balance::between(0, 80_001).to_fixed(), "-800.01");
}

#[test]
fn amounts_are_read_as_cents() {
    assert_eq!(parse_amount("2000"), Some(200_000));
    assert_eq!(parse_amount("12.5"), Some(1250));
    assert_eq!(parse_amount("12.34"), Some(1234));
    assert_eq!(parse_amount("0.05"), Some(5));
    assert_eq!(parse_amount("0"), Some(0));
    assert_eq!(parse_amount("007"), Some(700));
    assert_eq!(parse_amount("184467440737095516.15"), Some(u64::MAX));
}

#[test]
fn amounts_with_sign_point_and_exponent() {
    assert_eq!(parse_amount(".5"), Some(50));
    assert_eq!(parse_amount("5."), Some(500));
    assert_eq!(parse_amount("12."), Some(1200));
    assert_eq!(parse_amount("+5"), Some(500));
    assert_eq!(parse_amount("+.25"), Some(25));
    assert_eq!(parse_amount("1e3"), Some(100_000));
    assert_eq!(parse_amount("1E3"), Some(100_000));
    assert_eq!(parse_amount("1e+3"), Some(100_000));
    assert_eq!(parse_amount("1.5e1"), Some(1500));
    assert_eq!(parse_amount("12.345e1"), Some(12_345));
    assert_eq!(parse_amount("1e-2"), Some(1));
    assert_eq!(parse_amount("100e-2"), Some(100));
    assert_eq!(parse_amount("12300e-4"), Some(123));
    assert_eq!(parse_amount("1.10"), Some(110));
    assert_eq!(parse_amount("1.2300"), Some(123));
    assert_eq!(parse_amount("1.230"), Some(123));
    assert_eq!(parse_amount("1e17"), Some(10_000_000_000_000_000_000));
    assert_eq!(parse_amount("0.000000000000000000000000000001e30"), Some(100));
    assert_eq!(parse_amount("1000000000000000000000000000000e-30"), Some(100));
    assert_eq!(parse_amount("00000000000000000000000000000000000000000001"), Some(100));
}

#[test]
fn zero_in_any_form() {
    assert_eq!(parse_amount("-0"), Some(0));
    assert_eq!(parse_amount("-0.00"), Some(0));
    assert_eq!(parse_amount("-.0e5"), Some(0));
    assert_eq!(parse_amount("0e99999999999999999999999999999999999999"), Some(0));
    assert_eq!(parse_amount("0e-99999999999999999999999999999999999999"), Some(0));
    assert_eq!(parse_amount("0.000"), Some(0));
}

#[test]
fn other_text_is_no_amount() {
    for text in [
        "", "+", "-", ".", "+.", "e5", ".e5", "1e", "1e+", "1e-", "abc", "1,5", "1.x", "1.2x",
        "1.2.3", "1e5.0", "1e5e5", "++5", "+-5", " 5", "5 ", "1_000", "0x10", "5f", "$5",
    ] {
        assert_eq!(parse_amount(text), None, "{:?}", text);
        assert!(text.parse::<f64>().is_err(), "{:?}", text);
    }
}

#[test]
fn negative_amounts_are_refused() {
    for text in ["-5", "-0.01", "-1e3", "-1e-2", "-.5"] {
        assert_eq!(parse_amount(text), None, "{:?}", text);
    }
}

#[test]
fn parts_of_a_cent_and_the_unbounded_are_refused() {
    for text in ["1.234", "1e-3", "0.001", "12345e-5", "1e-99999999999999999999999999", "inf", "+inf", "infinity", "NaN", "nan"] {
        assert_eq!(parse_amount(text), None, "{:?}", text);
    }
}

#[test]
fn amounts_beyond_64_bits_are_refused() {
    assert_eq!(parse_amount("184467440737095516.15"), Some(u64::MAX));
    assert_eq!(parse_amount("184467440737095516.16"), None);
    assert_eq!(parse_amount("1e18"), None);
    assert_eq!(parse_amount("1e99999"), None);
    assert_eq!(parse_amount("1e99999999999999999999999999999999999999"), None);
    assert_eq!(parse_amount("99999999999999999999999999999999999999999999"), None);
}

#[test]
fn accepted_amounts_agree_with_float_reading() {
    for text in [
        "2000", "12.5", "12.34", ".5", "5.", "+5", "1e3", "1.5e1", "100e-2", "-0", "1.10",
        "0.05", "007", "12.345e1",
    ] {
        let cents = parse_amount(text).unwrap();
        let value: f64 = text.parse().unwrap();
        assert!(value >= 0.0, "{:?}", text);
        assert_eq!(cents, (value * 100.0).round() as u64, "{:?}", text);
    }
}

#[test]
fn amount_text_round_trip() {
    for cents in [0u64, 1, 10, 99, 100, 101, 1250, 200_000, u64::MAX] {
        assert_eq!(parse_amount(&format_plain(cents as u128)), Some(cents));
        assert_eq!(parse_amount(&format_fixed(cents as u128)), Some(cents));
    }
}

#[test]
fn yes_and_no_in_any_case() {
    for s in ["y", "Y", "yes", "YES", "Yes", "yEs"] {
        assert_eq!(parse_yes_no(s), Some(true));
        assert_eq!(parse_yes_no(s), match s.to_lowercase().as_str() {
            "y" | "yes" => Some(true),
            "n" | "no" => Some(false),
            _ => None,
        });
    }
    for s in ["n", "N", "no", "NO", "No", "nO"] {
        assert_eq!(parse_yes_no(s), Some(false));
    }
    for s in ["", "ye", "yess", "nope", "maybe", "1", "on", "ny", "yno"] {
        assert_eq!(parse_yes_no(s), None);
    }
}

#[test]
fn transaction_type_selection() {
    assert_eq!(select_transaction_type("1"), Some(TransactionType::Income));
    assert_eq!(select_transaction_type("2"), Some(TransactionType::Expense));
    assert_eq!(select_transaction_type("3"), None);
    assert_eq!(select_transaction_type(""), None);
    assert_eq!(select_transaction_type("12"), None);
    assert_eq!(select_transaction_type("income"), None);
}

#[test]
fn menu_choices() {
    assert_eq!(parse_menu_choice("1"), Some(MenuChoice::AddIncome));
    assert_eq!(parse_menu_choice("2"), Some(MenuChoice::AddExpense));
    assert_eq!(parse_menu_choice("3"), Some(MenuChoice::Display));
    assert_eq!(parse_menu_choice("4"), Some(MenuChoice::Save));
    assert_eq!(parse_menu_choice("5"), Some(MenuChoice::EditEntry));
    assert_eq!(parse_menu_choice("6"), Some(MenuChoice::RemoveEntry));
    assert_eq!(parse_menu_choice("7"), Some(MenuChoice::CheckOverrun));
    assert_eq!(parse_menu_choice("8"), Some(MenuChoice::SetBudgetLimit));
    assert_eq!(parse_menu_choice("9"), Some(MenuChoice::Exit));
    assert_eq!(parse_menu_choice("0"), None);
    assert_eq!(parse_menu_choice("10"), None);
    assert_eq!(parse_menu_choice(""), None);
}

#[test]
fn summary_of_sample_ledger() {
    let lines = sample().render_summary();
    let expected = vec![
        "",
        "--- Income ---",
        "1: $2000.00 from 'Salary' on 2024-01-15",
        "",
        "--- Expenses ---",
        "1: $500.00 for 'Rent' on 2024-01-16",
        "2: $700.25 for 'Food' on 2024-01-17",
        "",
        "Total Income: $2000.00",
        "Total Expenses: $1200.25",
        "Remaining Budget: $799.75",
    ];
    assert_eq!(lines, expected);
}

#[test]
fn summary_of_empty_ledger() {
    let lines = Ledger::new(DEFAULT_BUDGET_LIMIT).render_summary();
    let expected = vec![
        "",
        "--- Income ---",
        "No income records.",
        "",
        "--- Expenses ---",
        "No expense records.",
        "",
        "Total Income: $0.00",
        "Total Expenses: $0.00",
        "Remaining Budget: $0.00",
    ];
    assert_eq!(lines, expected);
}

#[test]
fn summary_shows_a_deficit() {
    let mut l = Ledger::new(DEFAULT_BUDGET_LIMIT);
    l.add_expense(1, "Gum".to_string(), "2024-01-18".to_string());
    let lines = l.render_summary();
    assert_eq!(lines[2], "No income records.");
    assert_eq!(lines[5], "1: $0.01 for 'Gum' on 2024-01-18");
    assert_eq!(lines[9], "Remaining Budget: $-0.01");
}

#[test]
fn fresh_save_has_header_and_one_row_per_entry() {
    let l = sample();
    for append in [false, true] {
        let plan = l.save_plan(append, false);
        assert!(!plan.append);
        assert_eq!(plan.rows.len(), 1 + l.income_entries().len() + l.expense_entries().len());
        let expected = vec![
            "Type,Amount,Source/Category,Date",
            "Income,2000,Salary,2024-01-15",
            "Expense,500,Rent,2024-01-16",
            "Expense,700.25,Food,2024-01-17",
        ];
        assert_eq!(plan.rows, expected);
    }
}

#[test]
fn save_over_existing_file_without_append_rewrites_header() {
    let plan = sample().save_plan(false, true);
    assert!(!plan.append);
    assert_eq!(plan.rows.len(), 4);
    assert_eq!(plan.rows[0], "Type,Amount,Source/Category,Date");
}

#[test]
fn append_save_has_no_header_and_all_rows() {
    let l = sample();
    let plan = l.save_plan(true, true);
    assert!(plan.append);
    let expected = vec![
        "Income,2000,Salary,2024-01-15",
        "Expense,500,Rent,2024-01-16",
        "Expense,700.25,Food,2024-01-17",
    ];
    assert_eq!(plan.rows, expected);
    let again = l.save_plan(true, true);
    assert_eq!(again.rows, expected);
}

#[test]
fn save_of_empty_ledger() {
    let l = Ledger::new(DEFAULT_BUDGET_LIMIT);
    assert_eq!(l.save_plan(false, false).rows, vec!["Type,Amount,Source/Category,Date"]);
    assert!(l.save_plan(true, true).rows.is_empty());
}

#[test]
fn labels_are_written_as_they_are() {
    let mut l = Ledger::new(DEFAULT_BUDGET_LIMIT);
    l.add_income(150, "a,b".to_string(), "2024-01-15".to_string());
    let plan = l.save_plan(true, true);
    assert_eq!(plan.rows, vec!["Income,1.5,a,b,2024-01-15"]);
}

#[test]
fn saved_text_has_one_line_per_row() {
    let l = sample();
    let fresh = l.save_plan(false, false).text();
    assert_eq!(
        fresh,
        "Type,Amount,Source/Category,Date\nIncome,2000,Salary,2024-01-15\nExpense,500,Rent,2024-01-16\nExpense,700.25,Food,2024-01-17\n"
    );
    assert_eq!(fresh.lines().count(), 1 + 1 + 2);
    let added = l.save_plan(true, true).text();
    assert_eq!(
        added,
        "Income,2000,Salary,2024-01-15\nExpense,500,Rent,2024-01-16\nExpense,700.25,Food,2024-01-17\n"
    );
    assert_eq!(added.lines().count(), 1 + 2);
    assert!(!added.contains("Type,Amount"));
    assert_eq!(Ledger::new(DEFAULT_BUDGET_LIMIT).save_plan(true, true).text(), "");
}

#[test]
fn appending_twice_repeats_the_rows() {
    let l = sample();
    let mut file = l.save_plan(false, false).text();
    file.push_str(&l.save_plan(true, true).text());
    assert_eq!(file.lines().count(), 1 + 3 + 3);
    assert_eq!(file.lines().filter(|r| *r == "Type,Amount,Source/Category,Date").count(), 1);
    assert_eq!(file.lines().filter(|r| *r == "Expense,500,Rent,2024-01-16").count(), 2);
}
