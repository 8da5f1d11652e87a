//! The lines in which a ledger and its overrun status are shown.

use vstd::prelude::*;
use vstd::string::StringExecFns;
use crate::ledger::{entry_views, Entry, EntryView, Ledger, LedgerView, OverrunStatus};
use crate::money::{decimal_text, fixed_text, push_decimal, push_fixed, signed_fixed_text};
use crate::text::{push_line, texts_of};

verus! {

/// The line of the entry at place `number` (counted from 1): the number, the
/// amount with two decimals, then `joiner`, the label and the date.
pub open spec fn entry_line(number: nat, joiner: Seq<char>, e: EntryView) -> Seq<char> {
    decimal_text(number) + ": $"@ + fixed_text(e.amount) + joiner + e.label + "' on "@ + e.date
}

/// One line for each entry, in order, numbered from 1.
pub open spec fn entry_lines(entries: Seq<EntryView>, joiner: Seq<char>) -> Seq<Seq<char>> {
    Seq::new(entries.len(), |i: int| entry_line((i + 1) as nat, joiner, entries[i]))
}

/// A section of the summary: an empty line, the title, then the entries'
/// lines, or `none` where there are no entries.
pub open spec fn section_lines(
    title: Seq<char>,
    none: Seq<char>,
    entries: Seq<EntryView>,
    joiner: Seq<char>,
) -> Seq<Seq<char>> {
    seq![Seq::<char>::empty(), title] + if entries.len() == 0 {
        seq![none]
    } else {
        entry_lines(entries, joiner)
    }
}

/// The three totals that end the summary, after an empty line.
pub open spec fn totals_lines(l: LedgerView) -> Seq<Seq<char>> {
    seq![
        Seq::<char>::empty(),
        "Total Income: $"@ + fixed_text(l.total_income()),
        "Total Expenses: $"@ + fixed_text(l.total_expenses()),
        "Remaining Budget: $"@ + signed_fixed_text(l.remaining()),
    ]
}

/// The whole summary: the income, the expenses, the totals.
pub open spec fn summary_lines(l: LedgerView) -> Seq<Seq<char>> {
    section_lines("--- Income ---"@, "No income records."@, l.income, " from '"@)
        + section_lines("--- Expenses ---"@, "No expense records."@, l.expenses, " for '"@)
        + totals_lines(l)
}

/// The line that reports an overrun status, with both figures.
pub open spec fn overrun_message(status: OverrunStatus) -> Seq<char> {
    (if status.is_exceeded() {
        "Warning: You have exceeded your budget! Total Expenses: $"@
    } else {
        "Your expenses are within the budget. Total Expenses: $"@
    }) + fixed_text(status.total_expenses() as nat) + ", Budget: $"@ + fixed_text(
        status.budget_limit() as nat,
    )
}

fn entry_text(number: usize, joiner: &str, e: &Entry) -> (s: String)
    ensures
        s@ == entry_line(number as nat, joiner@, e@),
{
    let mut s = String::new();
    push_decimal(&mut s, number as u128);
    s.append(": $");
    push_fixed(&mut s, e.amount() as u128);
    s.append(joiner);
    s.append(e.label());
    s.append("' on ");
    s.append(e.date());
    proof {
        assert(s@ =~= entry_line(number as nat, joiner@, e@));
    }
    s
}

fn push_section(
    lines: &mut Vec<String>,
    title: &str,
    none: &str,
    entries: &Vec<Entry>,
    joiner: &str,
)
    ensures
        texts_of(final(lines)@) == texts_of(old(lines)@) + section_lines(
            title@,
            none@,
            entry_views(entries@),
            joiner@,
        ),
{
    let ghost before = texts_of(lines@);
    let ghost views = entry_views(entries@);
    let ghost head = before + seq![Seq::<char>::empty(), title@];
    push_line(lines, String::new());
    push_line(lines, String::from_str(title));
    proof {
        assert(texts_of(lines@) =~= head);
    }
    if entries.len() == 0 {
        push_line(lines, String::from_str(none));
        proof {
            assert(texts_of(lines@) =~= before + section_lines(title@, none@, views, joiner@));
        }
    } else {
        let mut i: usize = 0;
        while i < entries.len()
            invariant
                i <= entries.len(),
                views == entry_views(entries@),
                texts_of(lines@) == head + entry_lines(views, joiner@).take(i as int),
            decreases entries.len() - i,
        {
            let line = entry_text(i + 1, joiner, &entries[i]);
            push_line(lines, line);
            proof {
                assert(texts_of(lines@) =~= head + entry_lines(views, joiner@).take(i + 1));
            }
            i += 1;
        }
        proof {
            assert(entry_lines(views, joiner@).take(i as int) =~= entry_lines(views, joiner@));
            assert(texts_of(lines@) =~= before + section_lines(title@, none@, views, joiner@));
        }
    }
}

impl Ledger {
    /// The summary of the ledger, line by line: the income entries, the
    /// expense entries, then total income, total expenses and what remains.
    pub fn render_summary(&self) -> (lines: Vec<String>)
        ensures
            texts_of(lines@) == summary_lines(self@),
    {
        let mut lines: Vec<String> = Vec::new();
        proof {
            assert(texts_of(lines@) =~= Seq::<Seq<char>>::empty());
        }
        push_section(
            &mut lines,
            "--- Income ---",
            "No income records.",
            self.income_entries(),
            " from '",
        );
        push_section(
            &mut lines,
            "--- Expenses ---",
            "No expense records.",
            self.expense_entries(),
            " for '",
        );
        let ghost sections = texts_of(lines@);
        let mut income = String::from_str("Total Income: $");
        push_fixed(&mut income, self.total_income());
        let mut expenses = String::from_str("Total Expenses: $");
        push_fixed(&mut expenses, self.total_expenses());
        let mut remaining = String::from_str("Remaining Budget: $");
        let balance = self.remaining_budget().to_fixed();
        remaining.append(balance.as_str());
        push_line(&mut lines, String::new());
        push_line(&mut lines, income);
        push_line(&mut lines, expenses);
        push_line(&mut lines, remaining);
        proof {
            assert(texts_of(lines@) =~= sections + totals_lines(self@));
            assert(texts_of(lines@) =~= summary_lines(self@));
        }
        lines
    }
}

impl OverrunStatus {
    /// The line that tells a reader how the expenses stand against the
    /// budget limit, both with two decimals.
    pub fn message(&self) -> (s: String)
        ensures
            s@ == overrun_message(*self),
    {
        let (mut s, total_expenses, budget_limit) = match self {
            OverrunStatus::Exceeded { total_expenses, budget_limit } => (
                String::from_str("Warning: You have exceeded your budget! Total Expenses: $"),
                *total_expenses,
                *budget_limit,
            ),
            OverrunStatus::WithinBudget { total_expenses, budget_limit } => (
                String::from_str("Your expenses are within the budget. Total Expenses: $"),
                *total_expenses,
                *budget_limit,
            ),
        };
        push_fixed(&mut s, total_expenses);
        s.append(", Budget: $");
        push_fixed(&mut s, budget_limit as u128);
        proof {
            assert(s@ =~= overrun_message(*self));
        }
        s
    }
}

} // verus!
