//! Duration normalization: a count of seconds, or a free-form `uptime`
//! phrase, rendered as a canonical multi-unit human-readable string.

use vstd::prelude::*;
use vstd::string::*;
use crate::text::{
    all_digits, check_all_digits, contains_seq, contains_sub, dec_spec, digits_val, find_spec,
    find_sub, join, join_spec, lemma_find_spec_at, lemma_find_spec_none, lemma_split_len, opt_text,
    parse_u64, split_char, split_spec, split_ws, trim, trim_spec, u64_to_dec, ws_tokens,
};

verus! {

pub const MINUTE_SECONDS: u64 = 60;

pub const HOUR_SECONDS: u64 = 3600;

pub const DAY_SECONDS: u64 = 86400;

pub const WEEK_SECONDS: u64 = 604800;

pub const MONTH_SECONDS: u64 = 2592000;

/// One rendered component of a duration: the count, the unit label (with its
/// leading space), and an `s` exactly when the count is not one.
pub open spec fn unit_part(n: u64, label: Seq<char>) -> Seq<char> {
    if n == 1 {
        dec_spec(n as nat) + label
    } else {
        dec_spec(n as nat) + label + "s"@
    }
}

/// The component for one unit, present exactly when its count is nonzero.
pub open spec fn maybe_part(n: u64, label: Seq<char>) -> Seq<Seq<char>> {
    if n == 0 {
        Seq::<Seq<char>>::empty()
    } else {
        seq![unit_part(n, label)]
    }
}

/// The ladder decomposition of `s` seconds: month, week, day, hour, minute,
/// largest first, zero-count units omitted.
pub open spec fn uptime_parts(s: u64) -> Seq<Seq<char>> {
    let months: u64 = s / MONTH_SECONDS;
    let r1: u64 = s % MONTH_SECONDS;
    let weeks: u64 = r1 / WEEK_SECONDS;
    let r2: u64 = r1 % WEEK_SECONDS;
    let days: u64 = r2 / DAY_SECONDS;
    let r3: u64 = r2 % DAY_SECONDS;
    let hours: u64 = r3 / HOUR_SECONDS;
    let r4: u64 = r3 % HOUR_SECONDS;
    let minutes: u64 = r4 / MINUTE_SECONDS;
    maybe_part(months, " month"@) + maybe_part(weeks, " week"@) + maybe_part(days, " day"@)
        + maybe_part(hours, " hour"@) + maybe_part(minutes, " minute"@)
}

/// The canonical rendering of `s` seconds: `"up "` followed by the ladder
/// components joined with `", "`, or the fixed sentinel when every unit is
/// zero.
pub open spec fn format_uptime_spec(s: u64) -> Seq<char> {
    if uptime_parts(s).len() == 0 {
        "less than a minute"@
    } else {
        "up "@ + join_spec(uptime_parts(s), ", "@)
    }
}

fn push_part(parts: &mut Vec<String>, n: u64, label: &str, plural: &str)
    requires
        n >= 1,
        label@.len() >= 1,
    ensures
        plural@ == label@ + "s"@ ==> final(parts).deep_view() == old(parts).deep_view() + maybe_part(
            n,
            label@,
        ),
{
    let mut p = u64_to_dec(n);
    if n == 1 {
        p.append(label);
    } else {
        p.append(plural);
    }
    let ghost old_dv = parts.deep_view();
    parts.push(p);
    proof {
        if plural@ == label@ + "s"@ {
            assert(parts.deep_view() =~~= old_dv + maybe_part(n, label@));
        }
    }
}

/// Renders a second count as a human-readable duration, walking the fixed
/// unit ladder from month down to minute; the result is exactly
/// `format_uptime_spec`.
pub fn format_uptime_duration(total_seconds: u64) -> (r: String)
    ensures
        r@ == format_uptime_spec(total_seconds),
{
    let mut remaining: u64 = total_seconds;
    let mut parts: Vec<String> = Vec::new();
    proof {
        assert(parts.deep_view() =~= Seq::<Seq<char>>::empty());
        reveal_strlit(" month");
        reveal_strlit(" months");
        reveal_strlit(" week");
        reveal_strlit(" weeks");
        reveal_strlit(" day");
        reveal_strlit(" days");
        reveal_strlit(" hour");
        reveal_strlit(" hours");
        reveal_strlit(" minute");
        reveal_strlit(" minutes");
        reveal_strlit("s");
        assert(" months"@ =~= " month"@ + "s"@);
        assert(" weeks"@ =~= " week"@ + "s"@);
        assert(" days"@ =~= " day"@ + "s"@);
        assert(" hours"@ =~= " hour"@ + "s"@);
        assert(" minutes"@ =~= " minute"@ + "s"@);
    }
    let ghost s = total_seconds;
    if remaining >= MONTH_SECONDS {
        let months = remaining / MONTH_SECONDS;
        remaining = remaining % MONTH_SECONDS;
        push_part(&mut parts, months, " month", " months");
    }
    proof {
        assert(parts.deep_view() =~= maybe_part(s / MONTH_SECONDS, " month"@));
        assert(remaining == s % MONTH_SECONDS);
    }
    let ghost r1 = remaining;
    if remaining >= WEEK_SECONDS {
        let weeks = remaining / WEEK_SECONDS;
        remaining = remaining % WEEK_SECONDS;
        push_part(&mut parts, weeks, " week", " weeks");
    }
    proof {
        assert(parts.deep_view() =~= maybe_part(s / MONTH_SECONDS, " month"@) + maybe_part(
            r1 / WEEK_SECONDS,
            " week"@,
        ));
        assert(remaining == r1 % WEEK_SECONDS);
    }
    let ghost r2 = remaining;
    if remaining >= DAY_SECONDS {
        let days = remaining / DAY_SECONDS;
        remaining = remaining % DAY_SECONDS;
        push_part(&mut parts, days, " day", " days");
    }
    proof {
        assert(parts.deep_view() =~= maybe_part(s / MONTH_SECONDS, " month"@) + maybe_part(
            r1 / WEEK_SECONDS,
            " week"@,
        ) + maybe_part(r2 / DAY_SECONDS, " day"@));
        assert(remaining == r2 % DAY_SECONDS);
    }
    let ghost r3 = remaining;
    if remaining >= HOUR_SECONDS {
        let hours = remaining / HOUR_SECONDS;
        remaining = remaining % HOUR_SECONDS;
        push_part(&mut parts, hours, " hour", " hours");
    }
    proof {
        assert(parts.deep_view() =~= maybe_part(s / MONTH_SECONDS, " month"@) + maybe_part(
            r1 / WEEK_SECONDS,
            " week"@,
        ) + maybe_part(r2 / DAY_SECONDS, " day"@) + maybe_part(r3 / HOUR_SECONDS, " hour"@));
        assert(remaining == r3 % HOUR_SECONDS);
    }
    let ghost r4 = remaining;
    if remaining >= MINUTE_SECONDS {
        let minutes = remaining / MINUTE_SECONDS;
        push_part(&mut parts, minutes, " minute", " minutes");
    }
    proof {
        assert(parts.deep_view() =~= uptime_parts(s));
    }
    if parts.len() == 0 {
        String::from_str("less than a minute")
    } else {
        let tail = join(&parts, ", ");
        let mut r = String::from_str("up ");
        r.append(tail.as_str());
        r
    }
}

/// A nonempty all-digit string whose value fits in `u64`: exactly the
/// strings that unsigned decimal parsing accepts.
pub open spec fn parses_u64(s: Seq<char>) -> bool {
    s.len() > 0 && all_digits(s) && digits_val(s) <= u64::MAX
}

/// The prefix of `s` before the first occurrence of `pat`, or all of `s`
/// when `pat` does not occur.
pub open spec fn prefix_before(s: Seq<char>, pat: Seq<char>) -> Seq<char> {
    if find_spec(s, pat) == -1 {
        s
    } else {
        s.subrange(0, find_spec(s, pat))
    }
}

pub const UPTIME_SECONDS_CAP: u64 = u64::MAX - 15;

/// `n` capped at `UPTIME_SECONDS_CAP`, the largest multiple of a whole
/// minute a `u64` can hold; capping there keeps every parsed second count a
/// multiple of a minute.
pub open spec fn sat_uptime(n: nat) -> u64 {
    if n > UPTIME_SECONDS_CAP {
        UPTIME_SECONDS_CAP
    } else {
        n as u64
    }
}

/// The seconds one comma-separated token of an `uptime` phrase contributes:
/// a day count, a minute count, or an `H:MM` clause; anything unrecognized
/// contributes nothing.
pub open spec fn token_seconds(t: Seq<char>) -> nat {
    let p = trim_spec(t);
    if contains_seq(p, " day"@) {
        let d = trim_spec(prefix_before(p, " day"@));
        if parses_u64(d) {
            digits_val(d) * 86400
        } else {
            0
        }
    } else if contains_seq(p, " min"@) {
        let m = trim_spec(prefix_before(p, " min"@));
        if parses_u64(m) {
            digits_val(m) * 60
        } else {
            0
        }
    } else if contains_seq(p, ":"@) {
        let hm = split_spec(p, ':');
        if hm.len() == 2 && parses_u64(trim_spec(hm[0])) && parses_u64(trim_spec(hm[1])) {
            digits_val(trim_spec(hm[0])) * 3600 + digits_val(trim_spec(hm[1])) * 60
        } else {
            0
        }
    } else {
        0
    }
}

/// Total seconds of a token sequence.
pub open spec fn sum_token_seconds(toks: Seq<Seq<char>>) -> nat
    decreases toks.len(),
{
    if toks.len() == 0 {
        0
    } else {
        sum_token_seconds(toks.drop_last()) + token_seconds(toks.last())
    }
}

/// The comma-separated time tokens of an `uptime` phrase, with a trailing
/// user-count clause discarded.
pub open spec fn kept_tokens(time_part: Seq<char>) -> Seq<Seq<char>> {
    let toks = split_spec(time_part, ',');
    if toks.len() > 1 && contains_seq(toks.last(), "user"@) {
        toks.drop_last()
    } else {
        toks
    }
}

/// The time description of an `uptime` output line: the text after the first
/// `" up "` (up to a second `" up "`, should one occur), cut before the
/// load-average clause.
pub open spec fn uptime_time_segment(s: Seq<char>) -> Seq<char> {
    let f: int = find_spec(s, " up "@);
    let after = s.subrange(f + 4, s.len() as int);
    let seg = if find_spec(after, " up "@) == -1 {
        after
    } else {
        after.subrange(0, find_spec(after, " up "@))
    };
    prefix_before(seg, ",  load average:"@)
}

/// What `parse_uptime_to_seconds` computes: no result unless `" up "`
/// occurs, else the summed seconds of the kept time tokens.
pub open spec fn parse_uptime_spec(s: Seq<char>) -> Option<nat> {
    if find_spec(s, " up "@) == -1 {
        None
    } else {
        Some(sum_token_seconds(kept_tokens(uptime_time_segment(s))))
    }
}

proof fn lemma_token_seconds_multiple(t: Seq<char>)
    ensures
        token_seconds(t) % 60 == 0,
{
    let p = trim_spec(t);
    if contains_seq(p, " day"@) {
        let d = trim_spec(prefix_before(p, " day"@));
        if parses_u64(d) {
            assert(digits_val(d) * 86400 == (digits_val(d) * 1440) * 60) by (nonlinear_arith);
            vstd::arithmetic::div_mod::lemma_mod_multiples_basic(
                digits_val(d) as int * 1440,
                60,
            );
        }
    } else if contains_seq(p, " min"@) {
        let m = trim_spec(prefix_before(p, " min"@));
        if parses_u64(m) {
            vstd::arithmetic::div_mod::lemma_mod_multiples_basic(digits_val(m) as int, 60);
        }
    } else if contains_seq(p, ":"@) {
        let hm = split_spec(p, ':');
        if hm.len() == 2 && parses_u64(trim_spec(hm[0])) && parses_u64(trim_spec(hm[1])) {
            let h = digits_val(trim_spec(hm[0]));
            let m = digits_val(trim_spec(hm[1]));
            assert(h * 3600 + m * 60 == (h * 60 + m) * 60) by (nonlinear_arith);
            vstd::arithmetic::div_mod::lemma_mod_multiples_basic(h as int * 60 + m as int, 60);
        }
    }
}

proof fn lemma_sum_token_seconds_multiple(toks: Seq<Seq<char>>)
    ensures
        sum_token_seconds(toks) % 60 == 0,
    decreases toks.len(),
{
    if toks.len() > 0 {
        lemma_sum_token_seconds_multiple(toks.drop_last());
        lemma_token_seconds_multiple(toks.last());
        vstd::arithmetic::div_mod::lemma_add_mod_noop(
            sum_token_seconds(toks.drop_last()) as int,
            token_seconds(toks.last()) as int,
            60,
        );
    }
}

fn sat_add(a: u64, b: u64) -> (r: u64)
    requires
        a <= UPTIME_SECONDS_CAP,
        b <= UPTIME_SECONDS_CAP,
    ensures
        r == sat_uptime(a as nat + b as nat),
{
    if a > UPTIME_SECONDS_CAP - b {
        UPTIME_SECONDS_CAP
    } else {
        a + b
    }
}

fn sat_mul(a: u64, b: u64) -> (r: u64)
    requires
        b >= 1,
    ensures
        r == sat_uptime(a as nat * b as nat),
{
    if a > UPTIME_SECONDS_CAP / b {
        proof {
            assert(a as nat * b as nat > UPTIME_SECONDS_CAP) by (nonlinear_arith)
                requires
                    a > UPTIME_SECONDS_CAP / b,
                    b >= 1,
            {
                assert(a >= UPTIME_SECONDS_CAP / b + 1);
                assert((UPTIME_SECONDS_CAP / b + 1) * b == (UPTIME_SECONDS_CAP / b) * b + b);
                assert(UPTIME_SECONDS_CAP / b * b + b > UPTIME_SECONDS_CAP);
            }
        }
        UPTIME_SECONDS_CAP
    } else {
        proof {
            assert(a as nat * b as nat <= UPTIME_SECONDS_CAP) by (nonlinear_arith)
                requires
                    a <= UPTIME_SECONDS_CAP / b,
                    b >= 1,
            {
                assert(a * b <= (UPTIME_SECONDS_CAP / b) * b);
                assert((UPTIME_SECONDS_CAP / b) * b <= UPTIME_SECONDS_CAP);
            }
        }
        a * b
    }
}

fn token_secs(t: &str) -> (r: u64)
    ensures
        r == sat_uptime(token_seconds(t@)),
{
    let p = trim(t);
    if contains_sub(p, " day") {
        let cut = match find_sub(p, " day") {
            Some(i) => {
                proof {
                    lemma_find_spec_at(p@, " day"@, i as int);
                }
                p.substring_char(0, i)
            },
            None => {
                proof {
                    lemma_find_spec_none(p@, " day"@);
                }
                p
            },
        };
        proof {
            assert(cut@ == prefix_before(p@, " day"@));
        }
        let d = trim(cut);
        match parse_u64(d) {
            Some(v) => sat_mul(v, 86400),
            None => 0,
        }
    } else if contains_sub(p, " min") {
        let cut = match find_sub(p, " min") {
            Some(i) => {
                proof {
                    lemma_find_spec_at(p@, " min"@, i as int);
                }
                p.substring_char(0, i)
            },
            None => {
                proof {
                    lemma_find_spec_none(p@, " min"@);
                }
                p
            },
        };
        proof {
            assert(cut@ == prefix_before(p@, " min"@));
        }
        let m = trim(cut);
        match parse_u64(m) {
            Some(v) => sat_mul(v, 60),
            None => 0,
        }
    } else if contains_sub(p, ":") {
        let hm = split_char(p, ':');
        if hm.len() == 2 {
            let h = trim(hm[0].as_str());
            let m = trim(hm[1].as_str());
            proof {
                assert(hm.deep_view()[0] == hm@[0]@);
                assert(hm.deep_view()[1] == hm@[1]@);
            }
            match (parse_u64(h), parse_u64(m)) {
                (Some(hv), Some(mv)) => {
                    let hs = sat_mul(hv, 3600);
                    let ms = sat_mul(mv, 60);
                    sat_add(hs, ms)
                },
                _ => 0,
            }
        } else {
            0
        }
    } else {
        0
    }
}

/// Parses an `uptime` output phrase (`"... up <description>, N users, load
/// average: ..."`) into a second count, the fallback path of the duration
/// normalizer; the sum saturates at `UPTIME_SECONDS_CAP`, so the result
/// is always a whole number of minutes.
#[verifier::rlimit(50)]
pub fn parse_uptime_to_seconds(uptime_output: &str) -> (r: Option<u64>)
    ensures
        r is Some <==> parse_uptime_spec(uptime_output@) is Some,
        r is Some ==> r->0 == sat_uptime(parse_uptime_spec(uptime_output@)->0),
        r is Some ==> r->0 % 60 == 0,
{
    proof {
        reveal_strlit(" up ");
    }
    let up_idx = match find_sub(uptime_output, " up ") {
        Some(i) => {
            proof {
                lemma_find_spec_at(uptime_output@, " up "@, i as int);
            }
            i
        },
        None => {
            proof {
                lemma_find_spec_none(uptime_output@, " up "@);
            }
            return None;
        },
    };
    let n = uptime_output.unicode_len();
    let after = uptime_output.substring_char(up_idx + 4, n);
    let seg = match find_sub(after, " up ") {
        Some(j) => {
            proof {
                lemma_find_spec_at(after@, " up "@, j as int);
            }
            after.substring_char(0, j)
        },
        None => {
            proof {
                lemma_find_spec_none(after@, " up "@);
            }
            after
        },
    };
    let time_part = match find_sub(seg, ",  load average:") {
        Some(k) => {
            proof {
                lemma_find_spec_at(seg@, ",  load average:"@, k as int);
            }
            seg.substring_char(0, k)
        },
        None => {
            proof {
                lemma_find_spec_none(seg@, ",  load average:"@);
            }
            seg
        },
    };
    proof {
        assert(time_part@ == uptime_time_segment(uptime_output@));
    }
    let toks = split_char(time_part, ',');
    proof {
        lemma_split_len(time_part@, ',');
    }
    let kept_len: usize = if toks.len() > 1 && contains_sub(toks[toks.len() - 1].as_str(), "user") {
        toks.len() - 1
    } else {
        toks.len()
    };
    let ghost kept = kept_tokens(time_part@);
    proof {
        assert(toks.deep_view()[toks.len() - 1] == toks@[toks.len() - 1]@);
        assert(kept =~= toks.deep_view().subrange(0, kept_len as int));
    }
    let mut total: u64 = 0;
    let mut i: usize = 0;
    proof {
        assert(kept.subrange(0, 0) =~= Seq::<Seq<char>>::empty());
    }
    while i < kept_len
        invariant
            i <= kept_len,
            kept_len <= toks.len(),
            kept == toks.deep_view().subrange(0, kept_len as int),
            total == sat_uptime(sum_token_seconds(kept.subrange(0, i as int))),
        decreases kept_len - i,
    {
        let t = token_secs(toks[i].as_str());
        proof {
            assert(toks.deep_view()[i as int] == toks@[i as int]@);
            assert(kept.subrange(0, i + 1).drop_last() =~= kept.subrange(0, i as int));
            assert(kept.subrange(0, i + 1).last() == kept[i as int]);
        }
        total = sat_add(total, t);
        proof {
            let partial = sum_token_seconds(kept.subrange(0, i as int));
            let tok = token_seconds(kept[i as int]);
            assert(sat_uptime(sat_uptime(partial) as nat + sat_uptime(tok) as nat) == sat_uptime(partial + tok));
        }
        i += 1;
    }
    proof {
        assert(kept.subrange(0, kept_len as int) =~= kept);
        lemma_sum_token_seconds_multiple(kept);
        assert(UPTIME_SECONDS_CAP % 60 == 0);
    }
    Some(total)
}

/// The whole seconds of a `/proc/uptime` style text: the first
/// whitespace-separated token must be a decimal number with an optional
/// fractional part; the value is its integer part.
pub open spec fn proc_uptime_value(c: Seq<char>) -> Option<nat> {
    let toks = ws_tokens(c);
    if toks.len() == 0 {
        None
    } else {
        let ps = split_spec(toks[0], '.');
        if (ps.len() == 1 || (ps.len() == 2 && all_digits(ps[1]))) && parses_u64(ps[0]) {
            Some(digits_val(ps[0]))
        } else {
            None
        }
    }
}

/// The uptime text of a snapshot: the `/proc/uptime` seconds when readable,
/// else the parsed `uptime` phrase, else the sentinel.
pub open spec fn formatted_uptime_spec(
    proc_text: Option<Seq<char>>,
    cmd_text: Option<Seq<char>>,
) -> Seq<char> {
    if proc_text is Some && proc_uptime_value(proc_text->0) is Some {
        format_uptime_spec(proc_uptime_value(proc_text->0)->0 as u64)
    } else if cmd_text is Some && parse_uptime_spec(cmd_text->0) is Some {
        format_uptime_spec(sat_uptime(parse_uptime_spec(cmd_text->0)->0))
    } else {
        "N/A"@
    }
}

/// Renders the system uptime from the raw text of `/proc/uptime` and of the
/// `uptime` command, preferring the numeric source, exactly
/// `formatted_uptime_spec`.
pub fn formatted_uptime(proc_uptime: &Option<String>, uptime_cmd: &Option<String>) -> (r: String)
    ensures
        r@ == formatted_uptime_spec(opt_text(*proc_uptime), opt_text(*uptime_cmd)),
{
    if let Some(c) = proc_uptime {
        let toks = split_ws(c.as_str());
        if toks.len() > 0 {
            proof {
                assert(toks.deep_view()[0] == toks@[0]@);
            }
            let ps = split_char(toks[0].as_str(), '.');
            proof {
                lemma_split_len(toks.deep_view()[0], '.');
                assert(ps.deep_view()[0] == ps@[0]@);
            }
            let shape_ok: bool = if ps.len() == 1 {
                true
            } else if ps.len() == 2 {
                proof {
                    assert(ps.deep_view()[1] == ps@[1]@);
                }
                check_all_digits(ps[1].as_str())
            } else {
                false
            };
            if shape_ok {
                if let Some(v) = parse_u64(ps[0].as_str()) {
                    return format_uptime_duration(v);
                }
            }
        }
    }
    if let Some(t) = uptime_cmd {
        if let Some(secs) = parse_uptime_to_seconds(t.as_str()) {
            return format_uptime_duration(secs);
        }
    }
    String::from_str("N/A")
}

/// Law: a component whose count is exactly one carries no plural `s`; any
/// other count does.
pub proof fn lemma_singular_component(n: u64, label: Seq<char>)
    ensures
        n == 1 ==> unit_part(n, label) == dec_spec(1) + label,
        n != 1 ==> unit_part(n, label) == dec_spec(n as nat) + label + "s"@,
{
}

/// Law: every component of every rendering is `unit_part(n, label)` for a
/// positive count `n`, so the rule of `lemma_singular_component` governs
/// each component the ladder emits.
pub proof fn lemma_parts_are_unit_parts(s: u64, i: int)
    requires
        0 <= i < uptime_parts(s).len(),
    ensures
        exists|n: u64, label: Seq<char>| n >= 1 && uptime_parts(s)[i] == unit_part(n, label),
{
    let months: u64 = s / MONTH_SECONDS;
    let r1: u64 = s % MONTH_SECONDS;
    let weeks: u64 = r1 / WEEK_SECONDS;
    let r2: u64 = r1 % WEEK_SECONDS;
    let days: u64 = r2 / DAY_SECONDS;
    let r3: u64 = r2 % DAY_SECONDS;
    let hours: u64 = r3 / HOUR_SECONDS;
    let r4: u64 = r3 % HOUR_SECONDS;
    let minutes: u64 = r4 / MINUTE_SECONDS;
    let a = maybe_part(months, " month"@);
    let b = maybe_part(weeks, " week"@);
    let c = maybe_part(days, " day"@);
    let d = maybe_part(hours, " hour"@);
    let e = maybe_part(minutes, " minute"@);
    assert(uptime_parts(s) == a + b + c + d + e);
    let p = uptime_parts(s)[i];
    if i < a.len() {
        assert(p == unit_part(months, " month"@) && months >= 1);
    } else if i < a.len() + b.len() {
        assert(p == unit_part(weeks, " week"@) && weeks >= 1);
    } else if i < a.len() + b.len() + c.len() {
        assert(p == unit_part(days, " day"@) && days >= 1);
    } else if i < a.len() + b.len() + c.len() + d.len() {
        assert(p == unit_part(hours, " hour"@) && hours >= 1);
    } else {
        assert(p == unit_part(minutes, " minute"@) && minutes >= 1);
    }
}

/// Law: for every second count, the rendering is the ladder components
/// joined with `", "` behind `"up "` as soon as a whole minute is reached,
/// and the fixed sentinel below one minute.
pub proof fn lemma_format_shape(s: u64)
    ensures
        s < 60 ==> format_uptime_spec(s) == "less than a minute"@,
        s >= 60 ==> uptime_parts(s).len() >= 1 && format_uptime_spec(s) == "up "@ + join_spec(
            uptime_parts(s),
            ", "@,
        ),
{
    if s < 60 {
        assert(uptime_parts(s).len() == 0);
    } else {
        let months: u64 = s / MONTH_SECONDS;
        let r1: u64 = s % MONTH_SECONDS;
        let weeks: u64 = r1 / WEEK_SECONDS;
        let r2: u64 = r1 % WEEK_SECONDS;
        let days: u64 = r2 / DAY_SECONDS;
        let r3: u64 = r2 % DAY_SECONDS;
        let hours: u64 = r3 / HOUR_SECONDS;
        let r4: u64 = r3 % HOUR_SECONDS;
        let minutes: u64 = r4 / MINUTE_SECONDS;
        if months == 0 {
            assert(r1 == s);
            if weeks == 0 {
                assert(r2 == r1);
                if days == 0 {
                    assert(r3 == r2);
                    if hours == 0 {
                        assert(r4 == r3);
                        assert(minutes >= 1);
                    }
                }
            }
        }
        assert(uptime_parts(s).len() >= 1);
    }
}

} // verus!
