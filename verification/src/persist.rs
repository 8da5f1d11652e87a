//! The rows in which a ledger is stored: comma-delimited text, one row for
//! each entry, under a header row where the file is written anew.

use vstd::prelude::*;
use vstd::string::StringExecFns;
use crate::ledger::{entry_views, Entry, EntryView, Ledger, LedgerView};
use crate::money::{
    all_digits, decimal_text, law_decimal_text_writes_its_number, plain_text, push_plain,
};
use crate::text::{push_char, push_line, texts_of};

verus! {

/// The header row.
pub open spec fn header_row() -> Seq<char> {
    "Type,Amount,Source/Category,Date"@
}

/// The row of one entry: its kind, the amount in its shortest decimal form,
/// the label and the date, with a comma between them. Nothing is quoted or
/// escaped: a comma in a label stays a comma in the row.
pub open spec fn entry_row(kind: Seq<char>, e: EntryView) -> Seq<char> {
    kind + ","@ + plain_text(e.amount) + ","@ + e.label + ","@ + e.date
}

/// One row for each entry, in order.
pub open spec fn entry_rows(kind: Seq<char>, entries: Seq<EntryView>) -> Seq<Seq<char>> {
    Seq::new(entries.len(), |i: int| entry_row(kind, entries[i]))
}

/// The rows of all entries: the income first, then the expenses.
pub open spec fn data_rows(l: LedgerView) -> Seq<Seq<char>> {
    entry_rows("Income"@, l.income) + entry_rows("Expense"@, l.expenses)
}

/// A save adds to the file only where that was asked for and the file is
/// there; otherwise it writes the file anew.
pub open spec fn save_appends(append: bool, file_exists: bool) -> bool {
    append && file_exists
}

/// The rows that a save writes: all the entries that the ledger holds, under
/// the header row unless the save adds to a file.
pub open spec fn saved_rows(l: LedgerView, append: bool, file_exists: bool) -> Seq<Seq<char>> {
    if save_appends(append, file_exists) {
        data_rows(l)
    } else {
        seq![header_row()] + data_rows(l)
    }
}

/// The text of a file that holds `rows`: each row with a line feed after it.
pub open spec fn lines_text(rows: Seq<Seq<char>>) -> Seq<char>
    decreases rows.len(),
{
    if rows.len() == 0 {
        Seq::<char>::empty()
    } else {
        lines_text(rows.drop_last()) + rows.last() + seq!['\n']
    }
}

/// How often `c` occurs in `s`.
pub open spec fn count_of(s: Seq<char>, c: char) -> nat
    decreases s.len(),
{
    if s.len() == 0 {
        0
    } else {
        count_of(s.drop_last(), c) + if s.last() == c {
            1nat
        } else {
            0nat
        }
    }
}

/// Whether `s` holds no line feed.
pub open spec fn single_line(s: Seq<char>) -> bool {
    forall|i: int| 0 <= i < s.len() ==> s[i] != '\n'
}

/// Whether no label and no date among `entries` holds a line feed.
pub open spec fn single_line_entries(entries: Seq<EntryView>) -> bool {
    forall|i: int|
        0 <= i < entries.len() ==> single_line(#[trigger] entries[i].label) && single_line(
            entries[i].date,
        )
}

/// What a save is to do with the file.
pub struct SavePlan {
    /// Open the file to add at its end (`true`), or create it, or empty it
    /// where it exists (`false`).
    pub append: bool,
    /// The rows to write, each as a line of its own.
    pub rows: Vec<String>,
}

fn row_text(kind: &str, e: &Entry) -> (s: String)
    ensures
        s@ == entry_row(kind@, e@),
{
    let mut s = String::from_str(kind);
    s.append(",");
    push_plain(&mut s, e.amount() as u128);
    s.append(",");
    s.append(e.label());
    s.append(",");
    s.append(e.date());
    proof {
        assert(s@ =~= entry_row(kind@, e@));
    }
    s
}

fn push_rows(rows: &mut Vec<String>, kind: &str, entries: &Vec<Entry>)
    ensures
        texts_of(final(rows)@) == texts_of(old(rows)@) + entry_rows(kind@, entry_views(entries@)),
{
    let ghost before = texts_of(rows@);
    let ghost views = entry_views(entries@);
    let mut i: usize = 0;
    proof {
        assert(texts_of(rows@) =~= before + entry_rows(kind@, views).take(0));
    }
    while i < entries.len()
        invariant
            i <= entries.len(),
            views == entry_views(entries@),
            texts_of(rows@) == before + entry_rows(kind@, views).take(i as int),
        decreases entries.len() - i,
    {
        let row = row_text(kind, &entries[i]);
        push_line(rows, row);
        proof {
            assert(texts_of(rows@) =~= before + entry_rows(kind@, views).take(i + 1));
        }
        i += 1;
    }
    proof {
        assert(entry_rows(kind@, views).take(i as int) =~= entry_rows(kind@, views));
    }
}

impl SavePlan {
    /// The text to write to the file: each row with a line feed after it.
    pub fn text(&self) -> (out: String)
        ensures
            out@ == lines_text(texts_of(self.rows@)),
    {
        let ghost rows = texts_of(self.rows@);
        let mut out = String::new();
        let mut i: usize = 0;
        proof {
            assert(rows.take(0) =~= Seq::<Seq<char>>::empty());
        }
        while i < self.rows.len()
            invariant
                i <= self.rows.len(),
                rows == texts_of(self.rows@),
                out@ == lines_text(rows.take(i as int)),
            decreases self.rows.len() - i,
        {
            out.append(self.rows[i].as_str());
            push_char(&mut out, '\n');
            proof {
                assert(rows.take(i + 1).drop_last() =~= rows.take(i as int));
                assert(out@ =~= lines_text(rows.take(i + 1)));
            }
            i += 1;
        }
        proof {
            assert(rows.take(i as int) =~= rows);
        }
        out
    }
}

impl Ledger {
    /// Plans a save, given whether the caller asked to add to the file and
    /// whether the file exists. The ledger keeps no account of what was
    /// saved before: every save writes all its entries.
    pub fn save_plan(&self, append: bool, file_exists: bool) -> (plan: SavePlan)
        ensures
            plan.append == save_appends(append, file_exists),
            texts_of(plan.rows@) == saved_rows(self@, append, file_exists),
    {
        let mut rows: Vec<String> = Vec::new();
        proof {
            assert(texts_of(rows@) =~= Seq::<Seq<char>>::empty());
        }
        let adding = append && file_exists;
        if !adding {
            push_line(&mut rows, String::from_str("Type,Amount,Source/Category,Date"));
        }
        let ghost head = texts_of(rows@);
        push_rows(&mut rows, "Income", self.income_entries());
        push_rows(&mut rows, "Expense", self.expense_entries());
        proof {
            assert(texts_of(rows@) =~= head + data_rows(self@));
            assert(texts_of(rows@) =~= saved_rows(self@, append, file_exists));
        }
        SavePlan { append: adding, rows }
    }
}

/// A data row is never the header row: it starts with another letter.
pub proof fn law_data_row_is_no_header(l: LedgerView, i: int)
    requires
        0 <= i < data_rows(l).len(),
    ensures
        data_rows(l)[i] != header_row(),
        data_rows(l).len() == l.income.len() + l.expenses.len(),
{
    reveal_strlit("Type,Amount,Source/Category,Date");
    reveal_strlit("Income");
    reveal_strlit("Expense");
    assert(header_row()[0] == 'T');
    if i < l.income.len() {
        assert(data_rows(l)[i] == entry_row("Income"@, l.income[i]));
        assert(data_rows(l)[i][0] == 'I');
    } else {
        assert(data_rows(l)[i] == entry_row("Expense"@, l.expenses[i - l.income.len()]));
        assert(data_rows(l)[i][0] == 'E');
    }
}

/// A save to a path where no file is writes the header row and after it one
/// row for each entry, whether or not it was asked to add.
pub proof fn law_fresh_save(l: LedgerView, append: bool)
    ensures
        !save_appends(append, false),
        saved_rows(l, append, false).len() == 1 + l.income.len() + l.expenses.len(),
        saved_rows(l, append, false)[0] == header_row(),
        saved_rows(l, append, false).drop_first() == data_rows(l),
{
    assert(saved_rows(l, append, false).drop_first() =~= data_rows(l));
}

/// A save that adds to a file that is there writes no header row, and one
/// row for each entry that the ledger holds.
pub proof fn law_append_save(l: LedgerView)
    ensures
        save_appends(true, true),
        saved_rows(l, true, true) == data_rows(l),
        saved_rows(l, true, true).len() == l.income.len() + l.expenses.len(),
        forall|i: int|
            0 <= i < saved_rows(l, true, true).len() ==> #[trigger] saved_rows(l, true, true)[i]
                != header_row(),
{
    assert forall|i: int| 0 <= i < saved_rows(l, true, true).len() implies #[trigger] saved_rows(
        l,
        true,
        true,
    )[i] != header_row() by {
        law_data_row_is_no_header(l, i);
    }
}

/// What occurs in two texts, one after the other, occurs in the first or in
/// the second.
pub proof fn law_count_of_concat(a: Seq<char>, b: Seq<char>, c: char)
    ensures
        count_of(a + b, c) == count_of(a, c) + count_of(b, c),
    decreases b.len(),
{
    if b.len() == 0 {
        assert(a + b =~= a);
    } else {
        assert((a + b).drop_last() =~= a + b.drop_last());
        law_count_of_concat(a, b.drop_last(), c);
    }
}

proof fn lemma_single_line_has_no_line_feed(s: Seq<char>)
    requires
        single_line(s),
    ensures
        count_of(s, '\n') == 0,
    decreases s.len(),
{
    if s.len() > 0 {
        lemma_single_line_has_no_line_feed(s.drop_last());
    }
}

proof fn lemma_plain_text_is_single_line(cents: nat)
    ensures
        single_line(plain_text(cents)),
{
    law_decimal_text_writes_its_number(cents / 100);
    let whole = decimal_text(cents / 100);
    assert(all_digits(whole));
    assert forall|i: int| 0 <= i < plain_text(cents).len() implies plain_text(cents)[i]
        != '\n' by {
        if i < whole.len() {
            assert(plain_text(cents)[i] == whole[i]);
        }
    }
}

proof fn lemma_entry_row_is_single_line(kind: Seq<char>, e: EntryView)
    requires
        single_line(kind),
        single_line(e.label),
        single_line(e.date),
    ensures
        single_line(entry_row(kind, e)),
{
    reveal_strlit(",");
    lemma_plain_text_is_single_line(e.amount);
    let a = kind + ","@;
    let b = a + plain_text(e.amount);
    let c = b + ","@;
    let d = c + e.label;
    let f = d + ","@;
    assert(single_line(a));
    assert(single_line(b));
    assert(single_line(c));
    assert(single_line(d));
    assert(single_line(f));
}

proof fn lemma_lines_text_line_feeds(rows: Seq<Seq<char>>)
    requires
        forall|i: int| 0 <= i < rows.len() ==> single_line(#[trigger] rows[i]),
    ensures
        count_of(lines_text(rows), '\n') == rows.len(),
    decreases rows.len(),
{
    if rows.len() > 0 {
        lemma_lines_text_line_feeds(rows.drop_last());
        lemma_single_line_has_no_line_feed(rows.last());
        law_count_of_concat(lines_text(rows.drop_last()), rows.last(), '\n');
        law_count_of_concat(lines_text(rows.drop_last()) + rows.last(), seq!['\n'], '\n');
        assert(seq!['\n'].drop_last() =~= Seq::<char>::empty());
        assert(count_of(Seq::<char>::empty(), '\n') == 0);
        assert(seq!['\n'].last() == '\n');
        assert(count_of(seq!['\n'], '\n') == 1);
    }
}

/// Where no label and no date holds a line feed, the text of a saved file
/// has one line for each row: the header row, where it is written, and one
/// for each entry.
pub proof fn law_saved_text_line_count(l: LedgerView, append: bool, file_exists: bool)
    requires
        single_line_entries(l.income),
        single_line_entries(l.expenses),
    ensures
        count_of(lines_text(saved_rows(l, append, file_exists)), '\n') == (if save_appends(
            append,
            file_exists,
        ) {
            0nat
        } else {
            1nat
        }) + l.income.len() + l.expenses.len(),
{
    reveal_strlit("Type,Amount,Source/Category,Date");
    reveal_strlit("Income");
    reveal_strlit("Expense");
    let rows = saved_rows(l, append, file_exists);
    assert(single_line(header_row()));
    assert forall|i: int| 0 <= i < data_rows(l).len() implies single_line(
        #[trigger] data_rows(l)[i],
    ) by {
        if i < l.income.len() {
            lemma_entry_row_is_single_line("Income"@, l.income[i]);
        } else {
            lemma_entry_row_is_single_line("Expense"@, l.expenses[i - l.income.len()]);
        }
    }
    assert forall|i: int| 0 <= i < rows.len() implies single_line(#[trigger] rows[i]) by {
        if save_appends(append, file_exists) {
            assert(rows[i] == data_rows(l)[i]);
        } else if i > 0 {
            assert(rows[i] == data_rows(l)[i - 1]);
        }
    }
    lemma_lines_text_line_feeds(rows);
}

} // verus!
