//! The large ASCII-art logo, colorized with ANSI escapes.

use vstd::prelude::*;
use vstd::string::*;

verus! {

/// The complete logo text: green art with white-tinted eye colons.
pub open spec fn logo_text() -> Seq<char> {
    "\x1B[1;32m"@
        + "             -o          o-\n              +hydNNNNdyh+\n            +mMMMMMMMMMMMMm+\n          `dMM"@
        + "\x1B[39m"@ + "m:"@ + "\x1B[1;32m"@ + "NMMMMMMN"@ + "\x1B[39m"@ + ":m"@ + "\x1B[1;32m"@
        + "MMd`\n          hMMMMMMMMMMMMMMMMMMh\n      ..  yyyyyyyyyyyyyyyyyyyy  ..\n    .mMMm`MMMMMMMMMMMMMMMMMMMM`mMMm."@
        + "\n    :MMMM-MMMMMMMMMMMMMMMMMMMM-MMMM:\n    :MMMM-MMMMMMMMMMMMMMMMMMMM-MMMM:\n    :MMMM-MMMMMMMMMMMMMMMMMMMM-MMMM:\n    :MMMM-MMMMMMMMMMMMMMMMMMMM-MMMM:\n    -MMMM-MMMMMMMMMMMMMMMMMMMM-MMMM-"@
        + "\n     +yy+ MMMMMMMMMMMMMMMMMMMM +yy+\n          mMMMMMMMMMMMMMMMMMMm\n          `/++MMMMh++hMMMM++/`\n              MMMMo  oMMMM\n              MMMMo  oMMMM\n              oNMm-  -mMNs"@
        + "\x1B[0m"@
}

/// Builds the large logo, exactly `logo_text`.
pub fn run() -> (r: String)
    ensures
        r@ == logo_text(),
{
    let mut out = String::from_str("\x1B[1;32m");
    out.append(
        "             -o          o-\n              +hydNNNNdyh+\n            +mMMMMMMMMMMMMm+\n          `dMM",
    );
    out.append("\x1B[39m");
    out.append("m:");
    out.append("\x1B[1;32m");
    out.append("NMMMMMMN");
    out.append("\x1B[39m");
    out.append(":m");
    out.append("\x1B[1;32m");
    out.append(
        "MMd`\n          hMMMMMMMMMMMMMMMMMMh\n      ..  yyyyyyyyyyyyyyyyyyyy  ..\n    .mMMm`MMMMMMMMMMMMMMMMMMMM`mMMm.",
    );
    out.append(
        "\n    :MMMM-MMMMMMMMMMMMMMMMMMMM-MMMM:\n    :MMMM-MMMMMMMMMMMMMMMMMMMM-MMMM:\n    :MMMM-MMMMMMMMMMMMMMMMMMMM-MMMM:\n    :MMMM-MMMMMMMMMMMMMMMMMMMM-MMMM:\n    -MMMM-MMMMMMMMMMMMMMMMMMMM-MMMM-",
    );
    out.append(
        "\n     +yy+ MMMMMMMMMMMMMMMMMMMM +yy+\n          mMMMMMMMMMMMMMMMMMMm\n          `/++MMMMh++hMMMM++/`\n              MMMMo  oMMMM\n              MMMMo  oMMMM\n              oNMm-  -mMNs",
    );
    out.append("\x1B[0m");
    out
}

} // verus!
