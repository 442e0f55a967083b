//! Lines and line breaks in the text that the decoder writes.

use vstd::prelude::*;

verus! {

/// Whether a text holds no line break.
pub open spec fn is_one_line(text: Seq<char>) -> bool {
    forall|i: int| 0 <= i < text.len() ==> text[i] != '\n'
}

/// The number of line breaks in a text.
pub open spec fn line_breaks(text: Seq<char>) -> nat
    decreases text.len(),
{
    if text.len() == 0 {
        0
    } else {
        line_breaks(text.drop_last()) + if text.last() == '\n' {
            1nat
        } else {
            0nat
        }
    }
}

/// Two texts without a line break, put together, hold none either.
pub proof fn lemma_one_line_concat(left: Seq<char>, right: Seq<char>)
    requires
        is_one_line(left),
        is_one_line(right),
    ensures
        is_one_line(left + right),
{
}

/// A text without a line break counts none.
pub proof fn lemma_one_line_has_no_breaks(text: Seq<char>)
    requires
        is_one_line(text),
    ensures
        line_breaks(text) == 0,
    decreases text.len(),
{
    if text.len() > 0 {
        lemma_one_line_has_no_breaks(text.drop_last());
    }
}

/// The line breaks of two texts put together are those of the one and
/// those of the other.
pub proof fn lemma_line_breaks_concat(left: Seq<char>, right: Seq<char>)
    ensures
        line_breaks(left + right) == line_breaks(left) + line_breaks(right),
    decreases right.len(),
{
    if right.len() == 0 {
        assert(left + right =~= left);
    } else {
        lemma_line_breaks_concat(left, right.drop_last());
        assert((left + right).drop_last() =~= left + right.drop_last());
    }
}

} // verus!
