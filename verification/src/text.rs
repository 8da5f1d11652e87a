//! Building text: characters into a string, strings into a list of lines.

use vstd::prelude::*;

verus! {

/// Appends one character to `out` with `String::push` of the standard
/// library, which is documented to append the given `char` to the end of the
/// string. The contract is believed, not proved: the text after the call is
/// the text before it followed by `c`.
#[verifier::external_body]
pub(crate) fn push_char(out: &mut String, c: char)
    ensures
        final(out)@ == old(out)@.push(c),
{
    out.push(c);
}

/// The texts of a list of strings, in order.
pub open spec fn texts_of(lines: Seq<String>) -> Seq<Seq<char>> {
    lines.map_values(|s: String| s@)
}

/// Adds `line` as the last of `lines`.
pub fn push_line(lines: &mut Vec<String>, line: String)
    ensures
        texts_of(final(lines)@) == texts_of(old(lines)@).push(line@),
{
    lines.push(line);
    proof {
        assert(texts_of(final(lines)@) =~= texts_of(old(lines)@).push(line@));
    }
}

} // verus!
