//! The CPU-temperature display: first two digits of the millidegree reading,
//! colorized by threshold.

use vstd::prelude::*;
use vstd::string::*;
use crate::text::{all_digits, digits_val, opt_text, parse_u64, trim, trim_spec};

verus! {

/// The two temperature characters of a trimmed reading: its first two
/// characters when it has at least three, a fixed `"00"` otherwise.
pub open spec fn temp_chars(s: Seq<char>) -> Seq<char> {
    if s.len() >= 3 {
        s.subrange(0, 2)
    } else {
        "00"@
    }
}

/// The numeric degree value of the two temperature characters; anything
/// non-numeric counts as zero.
pub open spec fn temp_value(t: Seq<char>) -> nat {
    if t.len() > 0 && all_digits(t) && digits_val(t) <= u64::MAX {
        digits_val(t)
    } else {
        0
    }
}

/// The color for a degree value: green below 60, yellow up to 75, red above.
pub open spec fn temp_color(v: nat) -> Seq<char> {
    if v < 60 {
        "\x1B[1;32m"@
    } else if v <= 75 {
        "\x1B[1;33m"@
    } else {
        "\x1B[1;31m"@
    }
}

/// The temperature report for the raw reading of the thermal pseudo-file,
/// `None` when the file could not be read.
pub open spec fn temp_report_spec(text: Option<Seq<char>>) -> Seq<char> {
    match text {
        Some(t) => {
            let tc = temp_chars(trim_spec(t));
            "\x1B[1m"@ + "Temperature:"@ + "\x1B[0m"@ + " "@ + temp_color(temp_value(tc)) + " "@
                + tc + "\u{B0}C"@ + "\x1B[0m"@ + "\n"@
        },
        None => {
            "\x1B[1m"@ + "Temperature:"@ + "\x1B[0m"@ + " "@ + "\x1B[1;31m"@
                + "Error reading temperature"@ + "\x1B[0m"@
        },
    }
}

/// Builds the temperature display from the raw text of the thermal
/// pseudo-file, exactly `temp_report_spec`.
pub fn run(text: &Option<String>) -> (r: String)
    ensures
        r@ == temp_report_spec(opt_text(*text)),
{
    match text {
        Some(t) => {
            let s = trim(t.as_str());
            let tc = if s.unicode_len() >= 3 {
                s.substring_char(0, 2)
            } else {
                "00"
            };
            let v: u64 = match parse_u64(tc) {
                Some(v) => v,
                None => 0,
            };
            let color = if v < 60 {
                "\x1B[1;32m"
            } else if v <= 75 {
                "\x1B[1;33m"
            } else {
                "\x1B[1;31m"
            };
            let mut out = String::from_str("\x1B[1m");
            out.append("Temperature:");
            out.append("\x1B[0m");
            out.append(" ");
            out.append(color);
            out.append(" ");
            out.append(tc);
            out.append("\u{B0}C");
            out.append("\x1B[0m");
            out.append("\n");
            out
        },
        None => {
            let mut out = String::from_str("\x1B[1m");
            out.append("Temperature:");
            out.append("\x1B[0m");
            out.append(" ");
            out.append("\x1B[1;31m");
            out.append("Error reading temperature");
            out.append("\x1B[0m");
            out
        },
    }
}

} // verus!
