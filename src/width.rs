use vstd::prelude::*;
use unicode_width::UnicodeWidthChar;

use crate::editor::is_control_char;

verus! {

/// The number of terminal columns that `c` takes, `None` where it has no
/// width (a control character).
pub uninterp spec fn char_width(c: char) -> Option<usize>;

/// Relies on `UnicodeWidthChar::width` of unicode-width for `char`: the
/// width of `c` in columns, which depends on `c` alone; printable ASCII is
/// one column wide and control characters have no width.
#[verifier::external_body]
fn display_width(c: char) -> (r: Option<usize>)
    ensures
        r == char_width(c),
        0x20 <= (c as u32) && (c as u32) < 0x7f ==> r == Some(1usize),
        is_control_char(c) ==> r is None,
{
    c.width()
}

/// The columns that `c` takes on screen: a character without a width
/// takes none.
pub open spec fn cells(c: char) -> usize {
    match char_width(c) {
        Some(w) => w,
        None => 0,
    }
}

/// The columns that `c` takes on screen.
pub fn cell_width(c: char) -> (r: usize)
    ensures
        r == cells(c),
        0x20 <= (c as u32) && (c as u32) < 0x7f ==> r == 1,
        is_control_char(c) ==> r == 0,
{
    match display_width(c) {
        Some(w) => w,
        None => 0,
    }
}

} // verus!
