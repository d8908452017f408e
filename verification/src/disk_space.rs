//! The disk-usage display: one aligned text row and one colorized usage bar
//! per filesystem line of `df` output; malformed lines are skipped.

use vstd::prelude::*;
use vstd::string::*;
use crate::text::{
    all_digits, digits_val, lemma_split_len, opt_text, parse_u64, split_char, split_spec, split_ws,
    ws_tokens,
};

verus! {

/// `s` repeated `n` times.
pub open spec fn repeat_seq(s: Seq<char>, n: nat) -> Seq<char>
    decreases n,
{
    if n == 0 {
        Seq::<char>::empty()
    } else {
        repeat_seq(s, (n - 1) as nat) + s
    }
}

/// Appends `piece` to `out` `n` times.
fn append_repeat(out: &mut String, piece: &str, n: usize)
    ensures
        final(out)@ == old(out)@ + repeat_seq(piece@, n as nat),
{
    let mut i: usize = 0;
    proof {
        assert(old(out)@ + repeat_seq(piece@, 0) =~= old(out)@);
    }
    while i < n
        invariant
            i <= n,
            out@ == old(out)@ + repeat_seq(piece@, i as nat),
        decreases n - i,
    {
        out.append(piece);
        proof {
            assert((old(out)@ + repeat_seq(piece@, i as nat)) + piece@ =~= old(out)@ + (repeat_seq(
                piece@,
                i as nat,
            ) + piece@));
        }
        i += 1;
    }
}

/// `n` spaces.
pub open spec fn spaces(n: nat) -> Seq<char> {
    repeat_seq(" "@, n)
}

/// `s` padded with trailing spaces to at least `w` characters.
pub open spec fn pad_right(s: Seq<char>, w: nat) -> Seq<char> {
    if s.len() >= w {
        s
    } else {
        s + spaces((w - s.len()) as nat)
    }
}

/// `s` padded with leading spaces to at least `w` characters.
pub open spec fn pad_left(s: Seq<char>, w: nat) -> Seq<char> {
    if s.len() >= w {
        s
    } else {
        spaces((w - s.len()) as nat) + s
    }
}

fn append_padded_right(out: &mut String, s: &str, w: usize)
    ensures
        final(out)@ == old(out)@ + pad_right(s@, w as nat),
{
    let n = s.unicode_len();
    out.append(s);
    if n < w {
        append_repeat(out, " ", w - n);
        proof {
            reveal_strlit(" ");
            assert((old(out)@ + s@) + spaces((w - n) as nat) =~= old(out)@ + (s@ + spaces(
                (w - n) as nat,
            )));
        }
    }
}

fn append_padded_left(out: &mut String, s: &str, w: usize)
    ensures
        final(out)@ == old(out)@ + pad_left(s@, w as nat),
{
    let n = s.unicode_len();
    if n < w {
        append_repeat(out, " ", w - n);
        out.append(s);
        proof {
            reveal_strlit(" ");
            assert((old(out)@ + spaces((w - n) as nat)) + s@ =~= old(out)@ + (spaces(
                (w - n) as nat,
            ) + s@));
        }
    } else {
        out.append(s);
    }
}

/// `s` with every trailing `%` removed.
pub open spec fn strip_percent(s: Seq<char>) -> Seq<char>
    decreases s.len(),
{
    if s.len() > 0 && s.last() == '%' {
        strip_percent(s.drop_last())
    } else {
        s
    }
}

proof fn lemma_strip_percent_at(s: Seq<char>, k: int)
    requires
        0 <= k <= s.len(),
        forall|j: int| k <= j < s.len() ==> s[j] == '%',
        k == 0 || s[k - 1] != '%',
    ensures
        strip_percent(s) == s.subrange(0, k),
    decreases s.len(),
{
    if k == s.len() {
        assert(s.subrange(0, k) =~= s);
    } else {
        assert(s.last() == '%');
        let t = s.drop_last();
        lemma_strip_percent_at(t, k);
        assert(t.subrange(0, k) =~= s.subrange(0, k));
    }
}

fn strip_percent_exec(s: &str) -> (r: &str)
    ensures
        r@ == strip_percent(s@),
{
    let n = s.unicode_len();
    let mut b: usize = n;
    while b > 0 && s.get_char(b - 1) == '%'
        invariant
            b <= n,
            n == s@.len(),
            forall|j: int| b <= j < n ==> s@[j] == '%',
        decreases b,
    {
        b -= 1;
    }
    proof {
        lemma_strip_percent_at(s@, b as int);
    }
    s.substring_char(0, b)
}

/// The usage-percent token of a `df` row: whichever of fields 4 and 5 ends
/// with `%` (column order varies across `df` versions).
pub open spec fn df_usage_token(fields: Seq<Seq<char>>) -> Option<Seq<char>> {
    if fields[4].len() > 0 && fields[4].last() == '%' {
        Some(fields[4])
    } else if fields[5].len() > 0 && fields[5].last() == '%' {
        Some(fields[5])
    } else {
        None
    }
}

/// The numeric usage percentage of a usage token; a non-numeric or
/// overflowing value counts as zero.
pub open spec fn usage_value(u: Seq<char>) -> nat {
    let st = strip_percent(u);
    if st.len() > 0 && all_digits(st) && digits_val(st) <= u32::MAX {
        digits_val(st)
    } else {
        0
    }
}

/// The color for a usage percentage: red at 95 and beyond, yellow at 75 and
/// beyond, green below.
pub open spec fn usage_color(usage: nat) -> Seq<char> {
    if usage >= 95 {
        "\x1B[1;31m"@
    } else if usage >= 75 {
        "\x1B[1;33m"@
    } else {
        "\x1B[1;32m"@
    }
}

/// The usage bar: fifty cells, one fiftieth filled per two percent (capped
/// at full), the closing cap drawn filled exactly at 95 percent.
pub open spec fn bar_spec(usage: nat) -> Seq<char> {
    let w0: nat = usage * 50 / 100;
    let w: nat = if w0 > 50 {
        50
    } else {
        w0
    };
    usage_color(usage) + "\u{ee03}"@ + repeat_seq("\u{ee04}"@, w) + repeat_seq(
        "\u{ee01}"@,
        (50 - w) as nat,
    ) + (if usage == 95 {
        "\u{ee05}"@
    } else {
        "\u{ee02}"@
    }) + "\x1B[0m"@
}

/// The two display lines for one `df` row: the aligned mount-point line and
/// the bar line; empty for a row with too few fields or no usage token.
pub open spec fn df_row_spec(line: Seq<char>) -> Seq<char> {
    let fields = ws_tokens(line);
    if fields.len() < 6 {
        Seq::<char>::empty()
    } else {
        match df_usage_token(fields) {
            None => Seq::<char>::empty(),
            Some(u) => {
                let usage = usage_value(u);
                "  "@ + pad_right(fields.last(), 31) + pad_left(fields[2], 3) + " used out of "@
                    + pad_left(fields[1], 4) + "\n"@ + "  "@ + bar_spec(usage) + "\n"@
            },
        }
    }
}

#[verifier::rlimit(100)]
fn render_df_row(line: &str) -> (r: String)
    ensures
        r@ == df_row_spec(line@),
{
    let fields = split_ws(line);
    if fields.len() < 6 {
        let empty = String::new();
        proof {
            assert(empty@ =~= Seq::<char>::empty());
        }
        return empty;
    }
    proof {
        assert(fields.deep_view()[1] == fields@[1]@);
        assert(fields.deep_view()[2] == fields@[2]@);
        assert(fields.deep_view()[4] == fields@[4]@);
        assert(fields.deep_view()[5] == fields@[5]@);
        assert(fields.deep_view()[fields.len() - 1] == fields@[fields.len() - 1]@);
        assert(fields.deep_view().last() == fields.deep_view()[fields.len() - 1]);
    }
    let f4 = fields[4].as_str();
    let f5 = fields[5].as_str();
    let f4n = f4.unicode_len();
    let f5n = f5.unicode_len();
    let usage_token: &str = if f4n > 0 && f4.get_char(f4n - 1) == '%' {
        f4
    } else if f5n > 0 && f5.get_char(f5n - 1) == '%' {
        f5
    } else {
        let empty = String::new();
        proof {
            assert(empty@ =~= Seq::<char>::empty());
        }
        return empty;
    };
    let st = strip_percent_exec(usage_token);
    let usage: u64 = match parse_u64(st) {
        Some(v) => {
            if v <= 0xFFFF_FFFF {
                v
            } else {
                0
            }
        },
        None => 0,
    };
    let mut out = String::from_str("  ");
    append_padded_right(&mut out, fields[fields.len() - 1].as_str(), 31);
    append_padded_left(&mut out, fields[2].as_str(), 3);
    out.append(" used out of ");
    append_padded_left(&mut out, fields[1].as_str(), 4);
    out.append("\n");
    out.append("  ");
    append_bar(&mut out, usage);
    out.append("\n");
    out
}

fn append_bar(out: &mut String, usage: u64)
    requires
        usage <= u32::MAX,
    ensures
        final(out)@ == old(out)@ + bar_spec(usage as nat),
{
    let w0: u64 = usage * 50 / 100;
    let w: u64 = if w0 > 50 {
        50
    } else {
        w0
    };
    if usage >= 95 {
        out.append("\x1B[1;31m");
    } else if usage >= 75 {
        out.append("\x1B[1;33m");
    } else {
        out.append("\x1B[1;32m");
    }
    out.append("\u{ee03}");
    append_repeat(out, "\u{ee04}", w as usize);
    append_repeat(out, "\u{ee01}", (50 - w) as usize);
    if usage == 95 {
        out.append("\u{ee05}");
    } else {
        out.append("\u{ee02}");
    }
    out.append("\x1B[0m");
}

/// The concatenated display rows of the given `df` lines, in order.
pub open spec fn df_rows_spec(lines: Seq<Seq<char>>) -> Seq<char>
    decreases lines.len(),
{
    if lines.len() == 0 {
        Seq::<char>::empty()
    } else {
        df_rows_spec(lines.drop_last()) + df_row_spec(lines.last())
    }
}

/// The whole disk-usage display for the raw `df` output: a bold header,
/// then one aligned row and one bar per well-formed filesystem line (the
/// `df` header line is skipped); an error note when `df` could not run.
pub open spec fn disk_report_spec(text: Option<Seq<char>>) -> Seq<char> {
    let header = "\n"@ + "\x1B[1m"@ + "Disk Usage:"@ + "\x1B[0m"@ + "\n"@;
    match text {
        None => header + "  "@ + "\x1B[1;31m"@ + "Error running df command"@ + "\x1B[0m"@ + "\n"@,
        Some(t) => header + df_rows_spec(split_spec(t, '\n').drop_first()),
    }
}

/// Builds the disk-usage display from the raw `df` output, exactly
/// `disk_report_spec`.
pub fn run(text: &Option<String>) -> (r: String)
    ensures
        r@ == disk_report_spec(opt_text(*text)),
{
    let mut out = String::from_str("\n");
    out.append("\x1B[1m");
    out.append("Disk Usage:");
    out.append("\x1B[0m");
    out.append("\n");
    let ghost header = out@;
    match text {
        None => {
            out.append("  ");
            out.append("\x1B[1;31m");
            out.append("Error running df command");
            out.append("\x1B[0m");
            out.append("\n");
            out
        },
        Some(t) => {
            let lines = split_char(t.as_str(), '\n');
            proof {
                lemma_split_len(t@, '\n');
            }
            let ghost dv = lines.deep_view();
            let ghost body = dv.drop_first();
            let mut i: usize = 1;
            proof {
                assert(body.subrange(0, 0) =~= Seq::<Seq<char>>::empty());
                assert(out@ == header + df_rows_spec(body.subrange(0, 0)));
            }
            while i < lines.len()
                invariant
                    1 <= i <= lines.len() || lines.len() == 0,
                    dv == lines.deep_view(),
                    dv.len() >= 1,
                    body == dv.drop_first(),
                    i >= 1,
                    out@ == header + df_rows_spec(body.subrange(0, i - 1)),
                decreases lines.len() - i,
            {
                proof {
                    assert(dv[i as int] == lines@[i as int]@);
                    assert(body[i - 1] == dv[i as int]);
                    assert(body.subrange(0, i as int).drop_last() =~= body.subrange(0, i - 1));
                    assert(body.subrange(0, i as int).last() == body[i - 1]);
                }
                let row = render_df_row(lines[i].as_str());
                out.append(row.as_str());
                proof {
                    assert((header + df_rows_spec(body.subrange(0, i - 1))) + df_row_spec(
                        body[i - 1],
                    ) =~= header + df_rows_spec(body.subrange(0, i as int)));
                }
                i += 1;
            }
            proof {
                assert(body.subrange(0, dv.len() - 1) =~= body);
            }
            out
        },
    }
}

} // verus!
