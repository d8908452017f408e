//! The small ASCII-art logo, colorized with ANSI escapes.

use vstd::prelude::*;
use vstd::string::*;

verus! {

/// The complete small-logo text: green art with white eyes.
pub open spec fn logo_text() -> Seq<char> {
    "\x1b[1;32m"@ + "  ;,           ,;\n   ';,.-----.,;'\n  ,'           ',\n /    "@ + "\x1b[39m"@
        + "O     O"@ + "\x1b[1;32m"@ + "    \\\n|                 |\n'-----------------'\n"@
        + "\x1b[0m"@
}

/// Builds the small logo, exactly `logo_text`.
pub fn run() -> (r: String)
    ensures
        r@ == logo_text(),
{
    let mut out = String::from_str("\x1b[1;32m");
    out.append("  ;,           ,;\n   ';,.-----.,;'\n  ,'           ',\n /    ");
    out.append("\x1b[39m");
    out.append("O     O");
    out.append("\x1b[1;32m");
    out.append("    \\\n|                 |\n'-----------------'\n");
    out.append("\x1b[0m");
    out
}

} // verus!
