use crate::digits::dec_digits;
use crate::digits::usize_to_string;
use vstd::prelude::*;
use vstd::string::StringExecFns;

verus! {

/// The control sequence that clears the entire terminal viewport. Note that
/// it does not move the cursor; follow it with `move_cursor` when needed.
pub open spec fn spec_clear_screen() -> Seq<char> {
    "\u{1b}[2J\n"@
}

/// The control sequence that moves the cursor to column `x`, row `y`; a
/// position out of bounds moves the cursor as far as the terminal allows.
pub open spec fn spec_move_cursor(x: u16, y: u16) -> Seq<char> {
    "\u{1b}["@ + dec_digits(x as nat) + ";"@ + dec_digits(y as nat) + "H\n"@
}

/// The clear-screen control sequence, for the caller to put on the
/// terminal.
pub fn clear_screen() -> (r: String)
    ensures
        r@ == spec_clear_screen(),
{
    "\u{1b}[2J\n".to_owned()
}

/// The cursor-move control sequence for column `x`, row `y`, for the caller
/// to put on the terminal.
pub fn move_cursor(x: u16, y: u16) -> (r: String)
    ensures
        r@ == spec_move_cursor(x, y),
{
    let mut s = "\u{1b}[".to_owned();
    let xs = usize_to_string(x as usize);
    s.append(xs.as_str());
    s.append(";");
    let ys = usize_to_string(y as usize);
    s.append(ys.as_str());
    s.append("H\n");
    proof {
        assert(s@ =~= spec_move_cursor(x, y));
    }
    s
}

} // verus!
