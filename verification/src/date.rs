//! The shape of a date text.

use vstd::prelude::*;
use vstd::string::StrSliceExecFns;

verus! {

/// A date is ten characters with a hyphen as the fifth and as the eighth.
/// The other eight characters are not looked at: neither that they are
/// digits nor that they name a day of the calendar.
pub open spec fn valid_date(text: Seq<char>) -> bool {
    &&& text.len() == 10
    &&& text[4] == '-'
    &&& text[7] == '-'
}

/// Whether `text` has the shape of a date.
pub fn is_valid_date(text: &str) -> (ok: bool)
    ensures
        ok == valid_date(text@),
{
    text.unicode_len() == 10 && text.get_char(4) == '-' && text.get_char(7) == '-'
}

} // verus!
