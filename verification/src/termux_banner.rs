//! The figlet banner display: the decision of what to show for each way the
//! external figlet invocations can go.

use vstd::prelude::*;
use vstd::string::*;
use crate::CommandOutcome;

verus! {

/// The banner text for each outcome: an install hint when figlet is absent,
/// the green-wrapped figlet text on success, an error note otherwise.
pub open spec fn banner_spec(figlet_found: bool, outcome: CommandOutcome) -> Seq<char> {
    if !figlet_found {
        "figlet not found.\nPlease install figlet first"@
    } else {
        match outcome {
            CommandOutcome::Success(t) => "\x1B[1;32m"@ + t@ + "\x1B[0m"@,
            CommandOutcome::Failed => "Error generating Termux banner"@,
            CommandOutcome::NotRun => "Error running figlet command"@,
        }
    }
}

/// Builds the banner display from whether figlet was found and how running
/// it went, exactly `banner_spec`.
pub fn run(figlet_found: bool, outcome: CommandOutcome) -> (r: String)
    ensures
        r@ == banner_spec(figlet_found, outcome),
{
    if !figlet_found {
        return String::from_str("figlet not found.\nPlease install figlet first");
    }
    match outcome {
        CommandOutcome::Success(t) => {
            let mut out = String::from_str("\x1B[1;32m");
            out.append(t.as_str());
            out.append("\x1B[0m");
            out
        },
        CommandOutcome::Failed => String::from_str("Error generating Termux banner"),
        CommandOutcome::NotRun => String::from_str("Error running figlet command"),
    }
}

} // verus!
