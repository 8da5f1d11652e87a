//! The ledger: a budget limit and the income and expense entries, each list
//! in the order in which its entries were added.

use vstd::prelude::*;
use crate::date::valid_date;
use crate::money::Balance;

verus! {

/// The budget limit of a ledger that was given none: 1000.00.
pub const DEFAULT_BUDGET_LIMIT: u64 = 100_000;

/// One recorded movement of money. An entry is made by adding it to a
/// ledger and does not change afterwards.
#[derive(Debug)]
pub struct Entry {
    amount: u64,
    label: String,
    date: String,
}

/// What an entry holds: the amount in cents, the label (the source of an
/// income, the category of an expense) and the date.
pub struct EntryView {
    pub amount: nat,
    pub label: Seq<char>,
    pub date: Seq<char>,
}

impl View for Entry {
    type V = EntryView;

    closed spec fn view(&self) -> EntryView {
        EntryView { amount: self.amount as nat, label: self.label@, date: self.date@ }
    }
}

impl Entry {
    /// Every entry has a date of the accepted shape.
    #[verifier::type_invariant]
    spec fn date_is_valid(self) -> bool {
        valid_date(self.date@)
    }

    /// The amount, in cents.
    pub fn amount(&self) -> (a: u64)
        ensures
            a == self@.amount,
    {
        self.amount
    }

    /// The source of an income, the category of an expense.
    pub fn label(&self) -> (s: &str)
        ensures
            s@ == self@.label,
    {
        self.label.as_str()
    }

    /// The date, as it was given: ten characters with the two hyphens.
    pub fn date(&self) -> (s: &str)
        ensures
            s@ == self@.date,
            valid_date(s@),
    {
        proof {
            use_type_invariant(self);
        }
        self.date.as_str()
    }
}

/// The entries of a list, each by what it holds.
pub open spec fn entry_views(entries: Seq<Entry>) -> Seq<EntryView> {
    entries.map_values(|e: Entry| e@)
}

/// The sum of the amounts of `entries`; 0 where there are none.
pub open spec fn total_of(entries: Seq<EntryView>) -> nat
    decreases entries.len(),
{
    if entries.len() == 0 {
        0
    } else {
        total_of(entries.drop_last()) + entries.last().amount
    }
}

/// Whether every entry of `entries` has a date of the accepted shape.
pub open spec fn dates_valid(entries: Seq<EntryView>) -> bool {
    forall|i: int| 0 <= i < entries.len() ==> valid_date(#[trigger] entries[i].date)
}

/// What a ledger holds.
pub struct LedgerView {
    pub budget_limit: nat,
    pub income: Seq<EntryView>,
    pub expenses: Seq<EntryView>,
}

impl LedgerView {
    /// The sum of all income.
    pub open spec fn total_income(self) -> nat {
        total_of(self.income)
    }

    /// The sum of all expenses.
    pub open spec fn total_expenses(self) -> nat {
        total_of(self.expenses)
    }

    /// Income less expenses. The budget limit plays no part in it.
    pub open spec fn remaining(self) -> int {
        self.total_income() - self.total_expenses()
    }

    /// Expenses exceed the budget when they are strictly above the limit.
    pub open spec fn exceeded(self) -> bool {
        self.total_expenses() > self.budget_limit
    }

    /// The same entries under another budget limit.
    pub open spec fn with_budget_limit(self, limit: nat) -> LedgerView {
        LedgerView { budget_limit: limit, income: self.income, expenses: self.expenses }
    }

    /// The ledger after one more income.
    pub open spec fn with_income(self, e: EntryView) -> LedgerView {
        LedgerView {
            budget_limit: self.budget_limit,
            income: self.income.push(e),
            expenses: self.expenses,
        }
    }

    /// The ledger after one more expense.
    pub open spec fn with_expense(self, e: EntryView) -> LedgerView {
        LedgerView {
            budget_limit: self.budget_limit,
            income: self.income,
            expenses: self.expenses.push(e),
        }
    }

    /// Every date in the ledger has the accepted shape.
    pub open spec fn well_formed(self) -> bool {
        dates_valid(self.income) && dates_valid(self.expenses)
    }
}

/// How the expenses stand against the budget limit, with both figures.
#[derive(Clone, Copy, Debug, PartialEq, Eq, Structural)]
pub enum OverrunStatus {
    Exceeded { total_expenses: u128, budget_limit: u64 },
    WithinBudget { total_expenses: u128, budget_limit: u64 },
}

impl OverrunStatus {
    /// Whether the status reports an overrun.
    pub open spec fn is_exceeded(self) -> bool {
        self is Exceeded
    }

    /// The total of the expenses that the status reports.
    pub open spec fn total_expenses(self) -> u128 {
        match self {
            OverrunStatus::Exceeded { total_expenses, .. } => total_expenses,
            OverrunStatus::WithinBudget { total_expenses, .. } => total_expenses,
        }
    }

    /// The budget limit that the status reports.
    pub open spec fn budget_limit(self) -> u64 {
        match self {
            OverrunStatus::Exceeded { budget_limit, .. } => budget_limit,
            OverrunStatus::WithinBudget { budget_limit, .. } => budget_limit,
        }
    }
}

/// A budget limit with the income and the expenses recorded against it.
pub struct Ledger {
    budget_limit: u64,
    income: Vec<Entry>,
    expenses: Vec<Entry>,
}

impl View for Ledger {
    type V = LedgerView;

    closed spec fn view(&self) -> LedgerView {
        LedgerView {
            budget_limit: self.budget_limit as nat,
            income: entry_views(self.income@),
            expenses: entry_views(self.expenses@),
        }
    }
}

/// The amounts of a list summed up in one pass. The sum of at most
/// `usize::MAX` amounts of 64 bits fits in 128 bits.
fn sum_entries(entries: &Vec<Entry>) -> (total: u128)
    ensures
        total == total_of(entry_views(entries@)),
{
    let ghost views = entry_views(entries@);
    let mut total: u128 = 0;
    let mut i: usize = 0;
    while i < entries.len()
        invariant
            i <= entries.len(),
            views == entry_views(entries@),
            total == total_of(views.take(i as int)),
            total <= i * u64::MAX,
        decreases entries.len() - i,
    {
        proof {
            assert(views.take(i + 1).drop_last() =~= views.take(i as int));
            assert((i + 1) * u64::MAX <= u64::MAX * u64::MAX) by (nonlinear_arith)
                requires
                    i + 1 <= u64::MAX,
            ;
        }
        total = total + entries[i].amount as u128;
        i += 1;
    }
    proof {
        assert(views.take(i as int) =~= views);
    }
    total
}

impl Ledger {
    /// A ledger without entries.
    pub fn new(budget_limit: u64) -> (l: Ledger)
        ensures
            l@.budget_limit == budget_limit,
            l@.income == Seq::<EntryView>::empty(),
            l@.expenses == Seq::<EntryView>::empty(),
            l@.well_formed(),
    {
        let l = Ledger { budget_limit, income: Vec::new(), expenses: Vec::new() };
        proof {
            assert(l@.income =~= Seq::<EntryView>::empty());
            assert(l@.expenses =~= Seq::<EntryView>::empty());
        }
        l
    }

    /// Records an income of `amount` cents from `source` as the last of the
    /// income entries.
    pub fn add_income(&mut self, amount: u64, source: String, date: String)
        requires
            valid_date(date@),
        ensures
            final(self)@ == old(self)@.with_income(
                EntryView { amount: amount as nat, label: source@, date: date@ },
            ),
            final(self)@.total_income() == old(self)@.total_income() + amount,
            old(self)@.well_formed() ==> final(self)@.well_formed(),
    {
        let ghost e = EntryView { amount: amount as nat, label: source@, date: date@ };
        self.income.push(Entry { amount, label: source, date });
        proof {
            assert(final(self)@.income =~= old(self)@.income.push(e));
            assert(old(self)@.income.push(e).drop_last() =~= old(self)@.income);
        }
    }

    /// Records an expense of `amount` cents under `category` as the last of
    /// the expense entries.
    pub fn add_expense(&mut self, amount: u64, category: String, date: String)
        requires
            valid_date(date@),
        ensures
            final(self)@ == old(self)@.with_expense(
                EntryView { amount: amount as nat, label: category@, date: date@ },
            ),
            final(self)@.total_expenses() == old(self)@.total_expenses() + amount,
            old(self)@.well_formed() ==> final(self)@.well_formed(),
    {
        let ghost e = EntryView { amount: amount as nat, label: category@, date: date@ };
        self.expenses.push(Entry { amount, label: category, date });
        proof {
            assert(final(self)@.expenses =~= old(self)@.expenses.push(e));
            assert(old(self)@.expenses.push(e).drop_last() =~= old(self)@.expenses);
        }
    }

    /// Puts `new_limit` in place of the budget limit. The entries stay.
    pub fn set_budget_limit(&mut self, new_limit: u64)
        ensures
            final(self)@ == old(self)@.with_budget_limit(new_limit as nat),
            old(self)@.well_formed() ==> final(self)@.well_formed(),
    {
        self.budget_limit = new_limit;
    }

    /// The budget limit, in cents.
    pub fn budget_limit(&self) -> (limit: u64)
        ensures
            limit == self@.budget_limit,
    {
        self.budget_limit
    }

    /// The income entries, in the order in which they were added.
    pub fn income_entries(&self) -> (entries: &Vec<Entry>)
        ensures
            entry_views(entries@) == self@.income,
    {
        &self.income
    }

    /// The expense entries, in the order in which they were added.
    pub fn expense_entries(&self) -> (entries: &Vec<Entry>)
        ensures
            entry_views(entries@) == self@.expenses,
    {
        &self.expenses
    }

    /// The sum of all income, in cents.
    pub fn total_income(&self) -> (total: u128)
        ensures
            total == self@.total_income(),
    {
        sum_entries(&self.income)
    }

    /// The sum of all expenses, in cents.
    pub fn total_expenses(&self) -> (total: u128)
        ensures
            total == self@.total_expenses(),
    {
        sum_entries(&self.expenses)
    }

    /// Income less expenses; negative where more was spent than earned.
    pub fn remaining_budget(&self) -> (b: Balance)
        ensures
            b.value() == self@.remaining(),
            b.value() == self@.total_income() - self@.total_expenses(),
            b.is_canonical(),
    {
        Balance::between(self.total_income(), self.total_expenses())
    }

    /// Holds the expenses against the budget limit. Expenses equal to the
    /// limit are within the budget.
    pub fn check_overrun(&self) -> (status: OverrunStatus)
        ensures
            status.is_exceeded() <==> self@.total_expenses() > self@.budget_limit,
            status.total_expenses() == self@.total_expenses(),
            status.budget_limit() == self@.budget_limit,
    {
        let total_expenses = self.total_expenses();
        if total_expenses > self.budget_limit as u128 {
            OverrunStatus::Exceeded { total_expenses, budget_limit: self.budget_limit }
        } else {
            OverrunStatus::WithinBudget { total_expenses, budget_limit: self.budget_limit }
        }
    }
}

/// The total of two lists, one after the other, is the sum of their totals:
/// however many entries are added, the total is the exact sum of their
/// amounts.
pub proof fn law_total_of_concat(first: Seq<EntryView>, second: Seq<EntryView>)
    ensures
        total_of(first + second) == total_of(first) + total_of(second),
    decreases second.len(),
{
    if second.len() == 0 {
        assert(first + second =~= first);
    } else {
        assert((first + second).drop_last() =~= first + second.drop_last());
        law_total_of_concat(first, second.drop_last());
    }
}

/// One more entry raises the total by its amount.
pub proof fn law_total_of_push(entries: Seq<EntryView>, e: EntryView)
    ensures
        total_of(entries.push(e)) == total_of(entries) + e.amount,
{
    assert(entries.push(e).drop_last() =~= entries);
}

/// After the budget limit is set, the overrun is judged by the new limit
/// alone, whatever the limit was before.
pub proof fn law_overrun_follows_new_limit(before: LedgerView, new_limit: nat)
    ensures
        before.with_budget_limit(new_limit).exceeded() <==> before.total_expenses() > new_limit,
        before.with_budget_limit(new_limit).total_expenses() == before.total_expenses(),
        before.with_budget_limit(new_limit).total_income() == before.total_income(),
{
}

/// A ledger without expenses is within every budget limit.
pub proof fn law_no_expenses_within_budget(l: LedgerView)
    requires
        l.expenses.len() == 0,
    ensures
        !l.exceeded(),
        l.total_expenses() == 0,
{
}

} // verus!
