//! What a line typed by the user means: an answer of yes or no, a kind of
//! transaction, a choice from the menu.

use vstd::prelude::*;
use vstd::string::StrSliceExecFns;

verus! {

/// Whether `c` is the letter `lower` or its capital `upper`.
pub open spec fn is_letter(c: char, lower: char, upper: char) -> bool {
    c == lower || c == upper
}

/// "y" or "yes", in capitals or small letters or both.
pub open spec fn says_yes(s: Seq<char>) -> bool {
    ||| s.len() == 1 && is_letter(s[0], 'y', 'Y')
    ||| s.len() == 3 && is_letter(s[0], 'y', 'Y') && is_letter(s[1], 'e', 'E') && is_letter(
        s[2],
        's',
        'S',
    )
}

/// "n" or "no", in capitals or small letters or both.
pub open spec fn says_no(s: Seq<char>) -> bool {
    ||| s.len() == 1 && is_letter(s[0], 'n', 'N')
    ||| s.len() == 2 && is_letter(s[0], 'n', 'N') && is_letter(s[1], 'o', 'O')
}

/// The answer that `s` gives, if it gives one.
pub open spec fn yes_no_of(s: Seq<char>) -> Option<bool> {
    if says_yes(s) {
        Some(true)
    } else if says_no(s) {
        Some(false)
    } else {
        None
    }
}

fn letter_at(s: &str, i: usize, lower: char, upper: char) -> (b: bool)
    requires
        i < s@.len(),
    ensures
        b == is_letter(s@[i as int], lower, upper),
{
    let c = s.get_char(i);
    c == lower || c == upper
}

/// Reads an answer of yes or no. Anything but "y", "yes", "n" or "no" is no
/// answer, and the caller asks again.
pub fn parse_yes_no(input: &str) -> (answer: Option<bool>)
    ensures
        answer == yes_no_of(input@),
{
    let n = input.unicode_len();
    if n == 1 {
        if letter_at(input, 0, 'y', 'Y') {
            Some(true)
        } else if letter_at(input, 0, 'n', 'N') {
            Some(false)
        } else {
            None
        }
    } else if n == 2 {
        if letter_at(input, 0, 'n', 'N') && letter_at(input, 1, 'o', 'O') {
            Some(false)
        } else {
            None
        }
    } else if n == 3 {
        if letter_at(input, 0, 'y', 'Y') && letter_at(input, 1, 'e', 'E') && letter_at(
            input,
            2,
            's',
            'S',
        ) {
            Some(true)
        } else {
            None
        }
    } else {
        None
    }
}

/// The two kinds of transaction.
#[derive(Clone, Copy, Debug, PartialEq, Eq, Structural)]
pub enum TransactionType {
    Income,
    Expense,
}

/// The kind that `s` selects: "1" is income, "2" is expense.
pub open spec fn transaction_type_of(s: Seq<char>) -> Option<TransactionType> {
    if s == seq!['1'] {
        Some(TransactionType::Income)
    } else if s == seq!['2'] {
        Some(TransactionType::Expense)
    } else {
        None
    }
}

/// Reads the choice of a kind of transaction. Anything but "1" or "2" is no
/// choice, and the caller asks again.
pub fn select_transaction_type(choice: &str) -> (kind: Option<TransactionType>)
    ensures
        kind == transaction_type_of(choice@),
{
    if choice.unicode_len() != 1 {
        return None;
    }
    let c = choice.get_char(0);
    proof {
        assert(choice@ =~= seq![c]);
    }
    if c == '1' {
        Some(TransactionType::Income)
    } else if c == '2' {
        Some(TransactionType::Expense)
    } else {
        proof {
            assert(seq!['1'][0] == '1');
            assert(seq!['2'][0] == '2');
        }
        None
    }
}

/// What the user can ask for at the menu.
#[derive(Clone, Copy, Debug, PartialEq, Eq, Structural)]
pub enum MenuChoice {
    AddIncome,
    AddExpense,
    Display,
    Save,
    EditEntry,
    RemoveEntry,
    CheckOverrun,
    SetBudgetLimit,
    Exit,
}

/// The menu's entry for a digit from '1' to '9'.
pub open spec fn menu_entry(c: char) -> Option<MenuChoice> {
    if c == '1' {
        Some(MenuChoice::AddIncome)
    } else if c == '2' {
        Some(MenuChoice::AddExpense)
    } else if c == '3' {
        Some(MenuChoice::Display)
    } else if c == '4' {
        Some(MenuChoice::Save)
    } else if c == '5' {
        Some(MenuChoice::EditEntry)
    } else if c == '6' {
        Some(MenuChoice::RemoveEntry)
    } else if c == '7' {
        Some(MenuChoice::CheckOverrun)
    } else if c == '8' {
        Some(MenuChoice::SetBudgetLimit)
    } else if c == '9' {
        Some(MenuChoice::Exit)
    } else {
        None
    }
}

/// The choice that `s` makes: a single digit that the menu lists.
pub open spec fn menu_choice_of(s: Seq<char>) -> Option<MenuChoice> {
    if s.len() == 1 {
        menu_entry(s[0])
    } else {
        None
    }
}

/// Reads a choice from the menu. Anything but one digit from 1 to 9 is no
/// choice.
pub fn parse_menu_choice(choice: &str) -> (picked: Option<MenuChoice>)
    ensures
        picked == menu_choice_of(choice@),
{
    if choice.unicode_len() != 1 {
        return None;
    }
    let c = choice.get_char(0);
    if c == '1' {
        Some(MenuChoice::AddIncome)
    } else if c == '2' {
        Some(MenuChoice::AddExpense)
    } else if c == '3' {
        Some(MenuChoice::Display)
    } else if c == '4' {
        Some(MenuChoice::Save)
    } else if c == '5' {
        Some(MenuChoice::EditEntry)
    } else if c == '6' {
        Some(MenuChoice::RemoveEntry)
    } else if c == '7' {
        Some(MenuChoice::CheckOverrun)
    } else if c == '8' {
        Some(MenuChoice::SetBudgetLimit)
    } else if c == '9' {
        Some(MenuChoice::Exit)
    } else {
        None
    }
}

} // verus!
