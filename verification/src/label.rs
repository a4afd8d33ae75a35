//! The texts that the calculator shows beside its rows and lines.

use vstd::prelude::*;
use vstd::string::*;

verus! {

/// The example shown in row `n` while it is empty. Only the first six rows have one.
pub open spec fn hint(n: nat) -> Seq<char> {
    if n == 0 {
        "x^2"@
    } else if n == 1 {
        "sin(x)"@
    } else if n == 2 {
        "x+2"@
    } else if n == 3 {
        "x*3"@
    } else if n == 4 {
        "abs(x)"@
    } else if n == 5 {
        "cos(x)"@
    } else {
        ""@
    }
}

/// The example shown in row `n` while it is empty.
pub fn hint_text(n: usize) -> (text: &'static str)
    ensures
        text@ == hint(n as nat),
{
    match n {
        0 => "x^2",
        1 => "sin(x)",
        2 => "x+2",
        3 => "x*3",
        4 => "abs(x)",
        5 => "cos(x)",
        _ => "",
    }
}

/// The name of the line drawn for the entry text `text`.
pub fn line_name(text: &str) -> (name: String)
    ensures
        name@ == "y = "@ + text@,
{
    let mut name = "y = ".to_owned();
    name.append(text);
    name
}

/// The heading shown in place of the plot while `message` is the error.
pub fn error_heading(message: &str) -> (heading: String)
    ensures
        heading@ == "Error: "@ + message@,
{
    let mut heading = "Error: ".to_owned();
    heading.append(message);
    heading
}

} // verus!
