//! The frames of the spinner that is shown while a request is under way.

use vstd::prelude::*;
use vstd::string::*;

verus! {

/// The number of frames of the spinner.
pub const SPINNER_FRAME_COUNT: usize = 10;

/// The frames of the spinner, in the order in which they are shown.
pub open spec fn spinner_frames() -> Seq<Seq<char>> {
    seq!["⠋"@, "⠙"@, "⠹"@, "⠸"@, "⠼"@, "⠴"@, "⠦"@, "⠧"@, "⠇"@, "⠏"@]
}

/// The frame at the position `i`.
pub fn spinner_frame(i: usize) -> (r: &'static str)
    requires
        i < SPINNER_FRAME_COUNT,
    ensures
        r@ == spinner_frames()[i as int],
{
    if i == 0 {
        "⠋"
    } else if i == 1 {
        "⠙"
    } else if i == 2 {
        "⠹"
    } else if i == 3 {
        "⠸"
    } else if i == 4 {
        "⠼"
    } else if i == 5 {
        "⠴"
    } else if i == 6 {
        "⠦"
    } else if i == 7 {
        "⠧"
    } else if i == 8 {
        "⠇"
    } else {
        "⠏"
    }
}

/// The position of the frame that follows the one at `i`: the next, and the
/// first after the last.
pub fn next_frame(i: usize) -> (r: usize)
    requires
        i < SPINNER_FRAME_COUNT,
    ensures
        r == (i + 1) % (SPINNER_FRAME_COUNT as int),
        r < SPINNER_FRAME_COUNT,
{
    (i + 1) % SPINNER_FRAME_COUNT
}

/// The line that shows the frame `frame` beside `label`.
pub open spec fn spinner_text(frame: Seq<char>, label: Seq<char>) -> Seq<char> {
    "\r"@ + frame + " "@ + label + "..."@
}

/// The line to write for the frame at `i`: a carriage return, the frame,
/// the label and three dots.
pub fn spinner_line(i: usize, label: &str) -> (r: String)
    requires
        i < SPINNER_FRAME_COUNT,
    ensures
        r@ == spinner_text(spinner_frames()[i as int], label@),
{
    let mut line = String::from_str("\r");
    line.append(spinner_frame(i));
    line.append(" ");
    line.append(label);
    line.append("...");
    line
}

} // verus!
