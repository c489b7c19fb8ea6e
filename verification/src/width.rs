//! Display widths of characters.
use vstd::prelude::*;

verus! {

/// What `unicode_width` gives as the display width of a character.
pub uninterp spec fn unicode_width_of(c: char) -> Option<usize>;

/// Calls `unicode_width::UnicodeWidthChar::width`. Its result depends on the
/// character alone and is known here by the name [`unicode_width_of`]; beside
/// the name stand two facts of that function: the printable ASCII characters
/// are one column wide, and no width exceeds three columns.
#[verifier::external_body]
fn unicode_width(c: char) -> (r: Option<usize>)
    ensures
        r == unicode_width_of(c),
        0x20 <= c as u32 && (c as u32) < 0x7f ==> r == Some(1usize),
        r matches Some(w) ==> w <= 3,
{
    unicode_width::UnicodeWidthChar::width(c)
}

/// How many columns `c` takes when it is shown as itself: one for a printable
/// ASCII character or a character without a width of its own, else its display
/// width.
pub open spec fn columns_of(c: char) -> nat {
    if 0x20 <= c as u32 && (c as u32) < 0x7f {
        1
    } else {
        match unicode_width_of(c) {
            Some(w) => w as nat,
            None => 1,
        }
    }
}

/// How many columns `c` takes when it is shown as itself.
pub fn char_columns(c: char) -> (w: usize)
    ensures
        w == columns_of(c),
        w <= 3,
        w == match unicode_width_of(c) {
            Some(n) => n,
            None => 1,
        },
{
    match unicode_width(c) {
        Some(w) => w,
        None => 1,
    }
}

/// A character takes the columns of its display width, or one where it has none.
/// A printable ASCII character takes one.
pub proof fn law_columns_are_the_display_width(c: char)
    ensures
        0x20 <= c as u32 <= 0x7e ==> columns_of(c) == 1,
        !(0x20 <= c as u32 <= 0x7e) ==> (unicode_width_of(c) matches Some(w) ==> columns_of(c)
            == w),
        unicode_width_of(c) is None ==> columns_of(c) == 1,
{
}

}
