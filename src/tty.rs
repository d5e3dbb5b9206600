//! Terminal geometry and cursor movement.
use crate::text::{dec, push_dec};
use vstd::prelude::*;
use vstd::string::StringExecFns;

verus! {

/// A terminal's width in columns.
#[derive(Debug, Clone, Copy, PartialEq, Eq, Structural)]
pub struct Width(pub u16);

/// A terminal's height in rows.
#[derive(Debug, Clone, Copy, PartialEq, Eq, Structural)]
pub struct Height(pub u16);

/// The terminal size from the rows and columns a terminal reports: none
/// when either is zero, as when the output is not a terminal.
pub fn size_from(rows: u16, cols: u16) -> (r: Option<(Width, Height)>)
    ensures
        rows > 0 && cols > 0 ==> r == Some((Width(cols), Height(rows))),
        rows == 0 || cols == 0 ==> r is None,
{
    if rows > 0 && cols > 0 {
        Some((Width(cols), Height(rows)))
    } else {
        None
    }
}

/// The escape sequence that moves the cursor `n` lines up.
pub open spec fn cursor_up_text(n: nat) -> Seq<char> {
    seq!['\x1B', '['] + dec(n) + seq!['A']
}

/// Returns the escape sequence that moves the cursor `n` lines up.
pub fn move_cursor_up(n: usize) -> (r: String)
    ensures
        r@ == cursor_up_text(n as nat),
{
    proof {
        reveal_strlit("\x1B[");
        reveal_strlit("A");
    }
    let mut out = String::from_str("\x1B[");
    push_dec(&mut out, n as u128);
    out.append("A");
    proof {
        assert(out@ =~= cursor_up_text(n as nat));
    }
    out
}

} // verus!
