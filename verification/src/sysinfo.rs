//! Field parsers for the loosely structured output of the system commands,
//! the telemetry snapshot they fill, and the composed report text. Every
//! parser is total: malformed input degrades to the `"N/A"` sentinel.

use vstd::prelude::*;
use vstd::string::*;
use crate::duration::{formatted_uptime, formatted_uptime_spec};
use crate::text::{
    dec_spec, find_spec, find_sub, lemma_find_spec_at, lemma_find_spec_none, lemma_rfind_spec_at,
    lemma_rfind_spec_none, match_at, opt_text, rfind_spec, rfind_sub, split_char, split_first, split_spec,
    split_ws, starts_with, trim, trim_spec, u64_to_dec, ws_tokens,
};

verus! {

/// The sentinel rendered for a field whose source was unavailable or
/// unparseable.
pub open spec fn na_text() -> Seq<char> {
    "N/A"@
}

/// Returns the sentinel string.
pub fn na_string() -> (r: String)
    ensures
        r@ == na_text(),
{
    String::from_str("N/A")
}

/// The three load averages a `uptime` output yields: the first three
/// comma-separated tokens after the first `"average: "` (cut at a second
/// `"average: "`, should one occur), trimmed; the sentinel triple when the
/// marker is absent or tokens are missing.
pub open spec fn load_triple_spec(out: Seq<char>) -> (Seq<char>, Seq<char>, Seq<char>) {
    let f: int = find_spec(out, "average: "@);
    if f == -1 {
        (na_text(), na_text(), na_text())
    } else {
        let after = out.subrange(f + 9, out.len() as int);
        let g: int = find_spec(after, "average: "@);
        let seg = if g == -1 {
            after
        } else {
            after.subrange(0, g)
        };
        let toks = split_spec(seg, ',');
        if toks.len() >= 3 {
            (trim_spec(toks[0]), trim_spec(toks[1]), trim_spec(toks[2]))
        } else {
            (na_text(), na_text(), na_text())
        }
    }
}

/// Parses the load averages out of `uptime` output, exactly
/// `load_triple_spec`.
pub fn parse_load_averages(output: &str) -> (r: (String, String, String))
    ensures
        (r.0@, r.1@, r.2@) == load_triple_spec(output@),
{
    proof {
        reveal_strlit("average: ");
    }
    let f = match find_sub(output, "average: ") {
        Some(i) => {
            proof {
                lemma_find_spec_at(output@, "average: "@, i as int);
            }
            i
        },
        None => {
            proof {
                lemma_find_spec_none(output@, "average: "@);
            }
            return (na_string(), na_string(), na_string());
        },
    };
    let n = output.unicode_len();
    let after = output.substring_char(f + 9, n);
    let seg = match find_sub(after, "average: ") {
        Some(j) => {
            proof {
                lemma_find_spec_at(after@, "average: "@, j as int);
            }
            after.substring_char(0, j)
        },
        None => {
            proof {
                lemma_find_spec_none(after@, "average: "@);
            }
            after
        },
    };
    let toks = split_char(seg, ',');
    if toks.len() >= 3 {
        let a = trim(toks[0].as_str());
        let b = trim(toks[1].as_str());
        let c = trim(toks[2].as_str());
        proof {
            assert(toks.deep_view()[0] == toks@[0]@);
            assert(toks.deep_view()[1] == toks@[1]@);
            assert(toks.deep_view()[2] == toks@[2]@);
        }
        (String::from_str(a), String::from_str(b), String::from_str(c))
    } else {
        (na_string(), na_string(), na_string())
    }
}

/// A line of `free` output that carries the memory row.
pub open spec fn is_mem_line(l: Seq<char>) -> bool {
    match_at(l, "Mem:"@, 0)
}

/// Index of the first memory row among `ls`, or -1 when there is none.
pub open spec fn first_mem_line(ls: Seq<Seq<char>>) -> int
    decreases ls.len(),
{
    if ls.len() == 0 {
        -1
    } else if is_mem_line(ls[0]) {
        0
    } else if first_mem_line(ls.drop_first()) == -1 {
        -1
    } else {
        first_mem_line(ls.drop_first()) + 1
    }
}

proof fn lemma_first_mem_line_at(ls: Seq<Seq<char>>, i: int)
    requires
        0 <= i < ls.len(),
        is_mem_line(ls[i]),
        forall|j: int| 0 <= j < i ==> !is_mem_line(ls[j]),
    ensures
        first_mem_line(ls) == i,
    decreases i,
{
    if i > 0 {
        lemma_first_mem_line_at(ls.drop_first(), i - 1);
    }
}

proof fn lemma_first_mem_line_none(ls: Seq<Seq<char>>)
    requires
        forall|j: int| 0 <= j < ls.len() ==> !is_mem_line(ls[j]),
    ensures
        first_mem_line(ls) == -1,
    decreases ls.len(),
{
    if ls.len() > 0 {
        lemma_first_mem_line_none(ls.drop_first());
    }
}

/// The (used, available, total) memory columns of `free` output: tokens 2, 6
/// and 1 of the first line starting with `"Mem:"`, when that line has at
/// least seven whitespace-separated tokens; the sentinel triple otherwise.
pub open spec fn mem_triple_spec(out: Seq<char>) -> (Seq<char>, Seq<char>, Seq<char>) {
    let lines = split_spec(out, '\n');
    let li: int = first_mem_line(lines);
    if li == -1 {
        (na_text(), na_text(), na_text())
    } else {
        let parts = ws_tokens(lines[li]);
        if parts.len() >= 7 {
            (parts[2], parts[6], parts[1])
        } else {
            (na_text(), na_text(), na_text())
        }
    }
}

/// Parses the memory row of `free` output, exactly `mem_triple_spec`.
pub fn parse_memory_info(output: &str) -> (r: (String, String, String))
    ensures
        (r.0@, r.1@, r.2@) == mem_triple_spec(output@),
{
    proof {
        reveal_strlit("Mem:");
    }
    let lines = split_char(output, '\n');
    let ghost dv = lines.deep_view();
    let mut li: usize = 0;
    let mut found: bool = false;
    while li < lines.len() && !found
        invariant
            li <= lines.len(),
            dv == lines.deep_view(),
            found ==> li < lines.len() && is_mem_line(dv[li as int]) && (forall|j: int|
                0 <= j < li ==> !is_mem_line(dv[j])),
            !found ==> forall|j: int| 0 <= j < li ==> !is_mem_line(dv[j]),
        decreases lines.len() - li, (if found { 0int } else { 1int }),
    {
        if starts_with(lines[li].as_str(), "Mem:") {
            proof {
                assert(dv[li as int] == lines@[li as int]@);
            }
            found = true;
        } else {
            proof {
                assert(dv[li as int] == lines@[li as int]@);
            }
            li += 1;
        }
    }
    if !found {
        proof {
            lemma_first_mem_line_none(dv);
        }
        return (na_string(), na_string(), na_string());
    }
    proof {
        lemma_first_mem_line_at(dv, li as int);
    }
    let parts = split_ws(lines[li].as_str());
    if parts.len() >= 7 {
        proof {
            assert(parts.deep_view()[1] == parts@[1]@);
            assert(parts.deep_view()[2] == parts@[2]@);
            assert(parts.deep_view()[6] == parts@[6]@);
        }
        let used = parts[2].clone();
        let avail = parts[6].clone();
        let total = parts[1].clone();
        (used, avail, total)
    } else {
        (na_string(), na_string(), na_string())
    }
}

/// A `ps` output line naming the root user.
pub open spec fn is_root_line(l: Seq<char>) -> bool {
    l == "root"@
}

/// A nonempty `ps` output line naming any other user.
pub open spec fn is_user_line(l: Seq<char>) -> bool {
    l != "root"@ && l.len() > 0
}

/// How many lines of `ls` name the root user.
pub open spec fn count_root(ls: Seq<Seq<char>>) -> nat
    decreases ls.len(),
{
    if ls.len() == 0 {
        0
    } else {
        count_root(ls.drop_last()) + if is_root_line(ls.last()) {
            1nat
        } else {
            0nat
        }
    }
}

/// How many nonempty lines of `ls` name another user.
pub open spec fn count_user(ls: Seq<Seq<char>>) -> nat
    decreases ls.len(),
{
    if ls.len() == 0 {
        0
    } else {
        count_user(ls.drop_last()) + if is_user_line(ls.last()) {
            1nat
        } else {
            0nat
        }
    }
}

proof fn lemma_counts_bounded(ls: Seq<Seq<char>>)
    ensures
        count_root(ls) + count_user(ls) <= ls.len(),
    decreases ls.len(),
{
    if ls.len() > 0 {
        lemma_counts_bounded(ls.drop_last());
    }
}

/// Counts the owner-name lines of `ps` output: (user, root), where a line
/// equal to `"root"` is a root process and any other nonempty line a user
/// process.
pub open spec fn process_counts_spec(out: Seq<char>) -> (nat, nat) {
    let lines = split_spec(out, '\n');
    (count_user(lines), count_root(lines))
}

/// Counts user and root processes in `ps` output and renders the user,
/// total and root counts in decimal.
pub fn parse_process_info(output: &str) -> (r: (String, String, String))
    ensures
        r.0@ == dec_spec(process_counts_spec(output@).0),
        r.1@ == dec_spec((process_counts_spec(output@).0 + process_counts_spec(output@).1) as nat),
        r.2@ == dec_spec(process_counts_spec(output@).1),
{
    proof {
        reveal_strlit("root");
    }
    let lines = split_char(output, '\n');
    let ghost dv = lines.deep_view();
    let root_name = String::from_str("root");
    let mut user: usize = 0;
    let mut root: usize = 0;
    let mut i: usize = 0;
    proof {
        assert(dv.subrange(0, 0) =~= Seq::<Seq<char>>::empty());
    }
    while i < lines.len()
        invariant
            i <= lines.len(),
            dv == lines.deep_view(),
            root_name@ == "root"@,
            user == count_user(dv.subrange(0, i as int)),
            root == count_root(dv.subrange(0, i as int)),
            user + root <= i,
        decreases lines.len() - i,
    {
        proof {
            assert(dv[i as int] == lines@[i as int]@);
            assert(dv.subrange(0, i + 1).drop_last() =~= dv.subrange(0, i as int));
            assert(dv.subrange(0, i + 1).last() == dv[i as int]);
        }
        if lines[i] == root_name {
            root += 1;
        } else if lines[i].as_str().unicode_len() > 0 {
            user += 1;
        }
        i += 1;
    }
    proof {
        assert(dv.subrange(0, lines.len() as int) =~= dv);
    }
    let total: usize = user + root;
    (u64_to_dec(user as u64), u64_to_dec(total as u64), u64_to_dec(root as u64))
}

/// The value a `getprop` dump line of the shape `[key]: [value]` carries for
/// `key`: the line must begin with `[key]:`, the value is bounded by the
/// last `": ["` and the first `]` after that point, and is trimmed; an
/// empty value counts as absent.
pub open spec fn prop_value_spec(line: Seq<char>, key: Seq<char>) -> Option<Seq<char>> {
    let pat = "["@ + key + "]:"@;
    if !match_at(line, pat, 0) {
        None
    } else {
        let start: int = rfind_spec(line, ": ["@);
        if start == -1 {
            None
        } else {
            let vp = line.subrange(start + 3, line.len() as int);
            let end: int = find_spec(vp, "]"@);
            if end == -1 {
                None
            } else {
                let v = trim_spec(vp.subrange(0, end));
                if v.len() == 0 {
                    None
                } else {
                    Some(v)
                }
            }
        }
    }
}

/// Extracts the value of the property `prop_name` from one `getprop` output
/// line, exactly `prop_value_spec`.
pub fn extract_prop_value(line: &str, prop_name: &str) -> (r: Option<String>)
    ensures
        match r {
            Some(v) => prop_value_spec(line@, prop_name@) == Some(v@),
            None => prop_value_spec(line@, prop_name@) is None,
        },
{
    proof {
        reveal_strlit("[");
        reveal_strlit("]:");
        reveal_strlit(": [");
        reveal_strlit("]");
    }
    let mut pat = String::from_str("[");
    pat.append(prop_name);
    pat.append("]:");
    proof {
        assert(pat@ == "["@ + prop_name@ + "]:"@);
    }
    if !starts_with(line, pat.as_str()) {
        return None;
    }
    let start = match rfind_sub(line, ": [") {
        Some(i) => {
            proof {
                lemma_rfind_spec_at(line@, ": ["@, i as int);
            }
            i
        },
        None => {
            proof {
                lemma_rfind_spec_none(line@, ": ["@);
            }
            return None;
        },
    };
    let n = line.unicode_len();
    let vp = line.substring_char(start + 3, n);
    let end = match find_sub(vp, "]") {
        Some(i) => {
            proof {
                lemma_find_spec_at(vp@, "]"@, i as int);
            }
            i
        },
        None => {
            proof {
                lemma_find_spec_none(vp@, "]"@);
            }
            return None;
        },
    };
    let v = trim(vp.substring_char(0, end));
    if v.unicode_len() == 0 {
        None
    } else {
        Some(String::from_str(v))
    }
}

/// One scan step over `getprop` output: each line may set the version,
/// brand or model value, later lines overwriting earlier ones; the scan
/// stops once all three are set.
pub open spec fn scan_props(
    lines: Seq<Seq<char>>,
    i: int,
    v: Option<Seq<char>>,
    b: Option<Seq<char>>,
    m: Option<Seq<char>>,
) -> (Option<Seq<char>>, Option<Seq<char>>, Option<Seq<char>>)
    decreases lines.len() - i,
{
    if i < 0 || i >= lines.len() || (v is Some && b is Some && m is Some) {
        (v, b, m)
    } else {
        let line = lines[i];
        if prop_value_spec(line, "ro.build.version.release"@) is Some {
            scan_props(lines, i + 1, prop_value_spec(line, "ro.build.version.release"@), b, m)
        } else if prop_value_spec(line, "ro.product.brand"@) is Some {
            scan_props(lines, i + 1, v, prop_value_spec(line, "ro.product.brand"@), m)
        } else if prop_value_spec(line, "ro.product.model"@) is Some {
            scan_props(lines, i + 1, v, b, prop_value_spec(line, "ro.product.model"@))
        } else {
            scan_props(lines, i + 1, v, b, m)
        }
    }
}

/// The two identity labels built from a `getprop` dump: the OS version
/// label (`"Android"`, with the release appended when known) and the device
/// label (brand and model, either alone when only one is known, or a fixed
/// placeholder).
pub open spec fn android_labels_spec(out: Seq<char>) -> (Seq<char>, Seq<char>) {
    let lines = split_spec(out, '\n');
    let scanned = scan_props(lines, 0, None, None, None);
    let version_label = match scanned.0 {
        Some(x) => "Android "@ + x,
        None => "Android"@,
    };
    let device_label = match (scanned.1, scanned.2) {
        (Some(bv), Some(mv)) => bv + " "@ + mv,
        (Some(bv), None) => bv,
        (None, Some(mv)) => mv,
        (None, None) => "Unknown Device"@,
    };
    (version_label, device_label)
}

/// Scans a `getprop` dump for the version, brand and model properties and
/// builds the two identity labels, exactly `android_labels_spec`.
pub fn parse_android_info(output: &str) -> (r: (String, String))
    ensures
        (r.0@, r.1@) == android_labels_spec(output@),
{
    let lines = split_char(output, '\n');
    let ghost dv = lines.deep_view();
    let mut version: Option<String> = None;
    let mut brand: Option<String> = None;
    let mut model: Option<String> = None;
    let mut i: usize = 0;
    while i < lines.len() && !(version.is_some() && brand.is_some() && model.is_some())
        invariant
            i <= lines.len(),
            dv == lines.deep_view(),
            scan_props(dv, 0, None, None, None) == scan_props(
                dv,
                i as int,
                opt_text(version),
                opt_text(brand),
                opt_text(model),
            ),
        decreases lines.len() - i,
    {
        proof {
            assert(dv[i as int] == lines@[i as int]@);
        }
        let line = lines[i].as_str();
        if let Some(value) = extract_prop_value(line, "ro.build.version.release") {
            version = Some(value);
        } else if let Some(value) = extract_prop_value(line, "ro.product.brand") {
            brand = Some(value);
        } else if let Some(value) = extract_prop_value(line, "ro.product.model") {
            model = Some(value);
        }
        i += 1;
    }
    proof {
        assert(scan_props(dv, i as int, opt_text(version), opt_text(brand), opt_text(model)) == (
        opt_text(version),
        opt_text(brand),
        opt_text(model),
        ));
    }
    let version_label = match version {
        Some(x) => {
            let mut l = String::from_str("Android ");
            l.append(x.as_str());
            l
        },
        None => String::from_str("Android"),
    };
    let device_label = match (brand, model) {
        (Some(bv), Some(mv)) => {
            let mut l = bv;
            l.append(" ");
            l.append(mv.as_str());
            l
        },
        (Some(bv), None) => bv,
        (None, Some(mv)) => mv,
        (None, None) => String::from_str("Unknown Device"),
    };
    (version_label, device_label)
}

/// The raw text each source yielded, `None` when the command or file was
/// unavailable, failed, or produced undecodable output.
pub struct RawSources {
    pub proc_uptime: Option<String>,
    pub uptime_cmd: Option<String>,
    pub free_cmd: Option<String>,
    pub nproc_cmd: Option<String>,
    pub ps_cmd: Option<String>,
    pub getprop_cmd: Option<String>,
    pub uname_cmd: Option<String>,
}

/// The joined result of one collection pass: every field display-ready,
/// sentineled where its source failed.
pub struct TelemetrySnapshot {
    pub uptime: String,
    pub load1: String,
    pub load5: String,
    pub load15: String,
    pub used_mem: String,
    pub avail_mem: String,
    pub total_mem: String,
    pub cpu_count: String,
    pub user_procs: String,
    pub total_procs: String,
    pub root_procs: String,
    pub os_version_label: String,
    pub device_label: String,
    pub kernel_label: String,
}

/// The load triple for a possibly missing `uptime` output.
pub open spec fn loads_of(cmd: Option<Seq<char>>) -> (Seq<char>, Seq<char>, Seq<char>) {
    match cmd {
        Some(t) => load_triple_spec(t),
        None => (na_text(), na_text(), na_text()),
    }
}

/// The memory triple for a possibly missing `free` output.
pub open spec fn mems_of(free: Option<Seq<char>>) -> (Seq<char>, Seq<char>, Seq<char>) {
    match free {
        Some(t) => mem_triple_spec(t),
        None => (na_text(), na_text(), na_text()),
    }
}

/// A single-line field: the trimmed first line of the text, or the sentinel
/// when missing.
pub open spec fn trimmed_of(o: Option<Seq<char>>) -> Seq<char> {
    match o {
        Some(t) => trim_spec(split_spec(t, '\n')[0]),
        None => na_text(),
    }
}

/// The (user, total, root) process-count texts for a possibly missing `ps`
/// output.
pub open spec fn procs_of(ps: Option<Seq<char>>) -> (Seq<char>, Seq<char>, Seq<char>) {
    match ps {
        Some(t) => (
            dec_spec(process_counts_spec(t).0),
            dec_spec((process_counts_spec(t).0 + process_counts_spec(t).1) as nat),
            dec_spec(process_counts_spec(t).1),
        ),
        None => (na_text(), na_text(), na_text()),
    }
}

/// The identity labels for a possibly missing `getprop` dump.
pub open spec fn android_of(gp: Option<Seq<char>>) -> (Seq<char>, Seq<char>) {
    match gp {
        Some(t) => android_labels_spec(t),
        None => ("Android"@, "Unknown Device"@),
    }
}

/// Every field of `s` is the value its own source determines: each field is
/// a function of exactly one source (the uptime text of two, numeric source
/// preferred), so no source's failure can reach another's field.
pub open spec fn snapshot_matches(
    s: TelemetrySnapshot,
    proc_uptime: Option<Seq<char>>,
    uptime_cmd: Option<Seq<char>>,
    free_cmd: Option<Seq<char>>,
    nproc_cmd: Option<Seq<char>>,
    ps_cmd: Option<Seq<char>>,
    getprop_cmd: Option<Seq<char>>,
    uname_cmd: Option<Seq<char>>,
) -> bool {
    &&& s.uptime@ == formatted_uptime_spec(proc_uptime, uptime_cmd)
    &&& s.load1@ == loads_of(uptime_cmd).0
    &&& s.load5@ == loads_of(uptime_cmd).1
    &&& s.load15@ == loads_of(uptime_cmd).2
    &&& s.used_mem@ == mems_of(free_cmd).0
    &&& s.avail_mem@ == mems_of(free_cmd).1
    &&& s.total_mem@ == mems_of(free_cmd).2
    &&& s.cpu_count@ == trimmed_of(nproc_cmd)
    &&& s.user_procs@ == procs_of(ps_cmd).0
    &&& s.total_procs@ == procs_of(ps_cmd).1
    &&& s.root_procs@ == procs_of(ps_cmd).2
    &&& s.os_version_label@ == android_of(getprop_cmd).0
    &&& s.device_label@ == android_of(getprop_cmd).1
    &&& s.kernel_label@ == trimmed_of(uname_cmd)
}

/// Joins the raw source texts into the snapshot, field by field; every
/// missing or malformed source degrades only its own fields.
pub fn build_snapshot(raw: RawSources) -> (s: TelemetrySnapshot)
    ensures
        snapshot_matches(
            s,
            opt_text(raw.proc_uptime),
            opt_text(raw.uptime_cmd),
            opt_text(raw.free_cmd),
            opt_text(raw.nproc_cmd),
            opt_text(raw.ps_cmd),
            opt_text(raw.getprop_cmd),
            opt_text(raw.uname_cmd),
        ),
{
    let uptime = formatted_uptime(&raw.proc_uptime, &raw.uptime_cmd);
    let (load1, load5, load15) = match &raw.uptime_cmd {
        Some(t) => parse_load_averages(t.as_str()),
        None => (na_string(), na_string(), na_string()),
    };
    let (used_mem, avail_mem, total_mem) = match &raw.free_cmd {
        Some(t) => parse_memory_info(t.as_str()),
        None => (na_string(), na_string(), na_string()),
    };
    let cpu_count = match &raw.nproc_cmd {
        Some(t) => String::from_str(trim(split_first(t.as_str(), '\n'))),
        None => na_string(),
    };
    let (user_procs, total_procs, root_procs) = match &raw.ps_cmd {
        Some(t) => parse_process_info(t.as_str()),
        None => (na_string(), na_string(), na_string()),
    };
    let (os_version_label, device_label) = match &raw.getprop_cmd {
        Some(t) => parse_android_info(t.as_str()),
        None => (String::from_str("Android"), String::from_str("Unknown Device")),
    };
    let kernel_label = match &raw.uname_cmd {
        Some(t) => String::from_str(trim(split_first(t.as_str(), '\n'))),
        None => na_string(),
    };
    TelemetrySnapshot {
        uptime,
        load1,
        load5,
        load15,
        used_mem,
        avail_mem,
        total_mem,
        cpu_count,
        user_procs,
        total_procs,
        root_procs,
        os_version_label,
        device_label,
        kernel_label,
    }
}

/// Law: a failing memory source degrades exactly the memory fields to the
/// sentinel, and no field of any other source; two collections whose
/// non-memory sources agree agree on every non-memory field.
pub proof fn lemma_collector_isolation(
    a: TelemetrySnapshot,
    b: TelemetrySnapshot,
    proc_uptime: Option<Seq<char>>,
    uptime_cmd: Option<Seq<char>>,
    free_cmd: Option<Seq<char>>,
    nproc_cmd: Option<Seq<char>>,
    ps_cmd: Option<Seq<char>>,
    getprop_cmd: Option<Seq<char>>,
    uname_cmd: Option<Seq<char>>,
)
    requires
        snapshot_matches(
            a,
            proc_uptime,
            uptime_cmd,
            None,
            nproc_cmd,
            ps_cmd,
            getprop_cmd,
            uname_cmd,
        ),
        snapshot_matches(
            b,
            proc_uptime,
            uptime_cmd,
            free_cmd,
            nproc_cmd,
            ps_cmd,
            getprop_cmd,
            uname_cmd,
        ),
    ensures
        a.used_mem@ == na_text(),
        a.avail_mem@ == na_text(),
        a.total_mem@ == na_text(),
        a.uptime@ == b.uptime@,
        a.load1@ == b.load1@,
        a.load5@ == b.load5@,
        a.load15@ == b.load15@,
        a.cpu_count@ == b.cpu_count@,
        a.user_procs@ == b.user_procs@,
        a.total_procs@ == b.total_procs@,
        a.root_procs@ == b.root_procs@,
        a.os_version_label@ == b.os_version_label@,
        a.device_label@ == b.device_label@,
        a.kernel_label@ == b.kernel_label@,
{
}

/// Law: collection is deterministic; two snapshots built over identical
/// source texts are textually identical in every field.
pub proof fn lemma_snapshot_deterministic(
    a: TelemetrySnapshot,
    b: TelemetrySnapshot,
    proc_uptime: Option<Seq<char>>,
    uptime_cmd: Option<Seq<char>>,
    free_cmd: Option<Seq<char>>,
    nproc_cmd: Option<Seq<char>>,
    ps_cmd: Option<Seq<char>>,
    getprop_cmd: Option<Seq<char>>,
    uname_cmd: Option<Seq<char>>,
)
    requires
        snapshot_matches(
            a,
            proc_uptime,
            uptime_cmd,
            free_cmd,
            nproc_cmd,
            ps_cmd,
            getprop_cmd,
            uname_cmd,
        ),
        snapshot_matches(
            b,
            proc_uptime,
            uptime_cmd,
            free_cmd,
            nproc_cmd,
            ps_cmd,
            getprop_cmd,
            uname_cmd,
        ),
    ensures
        a.uptime@ == b.uptime@,
        a.load1@ == b.load1@,
        a.load5@ == b.load5@,
        a.load15@ == b.load15@,
        a.used_mem@ == b.used_mem@,
        a.avail_mem@ == b.avail_mem@,
        a.total_mem@ == b.total_mem@,
        a.cpu_count@ == b.cpu_count@,
        a.user_procs@ == b.user_procs@,
        a.total_procs@ == b.total_procs@,
        a.root_procs@ == b.root_procs@,
        a.os_version_label@ == b.os_version_label@,
        a.device_label@ == b.device_label@,
        a.kernel_label@ == b.kernel_label@,
{
}

/// The full system-information report text for a snapshot: a fixed template
/// with ANSI color tags, each field spliced in at its place.
pub open spec fn report_spec(s: TelemetrySnapshot) -> Seq<char> {
    "\n\x1B[0;39m\x1B[1mSystem Info:\n\x1B[1;36m  Distro    : \x1B[0;39m"@ + s.os_version_label@
        + "\n\x1B[1;36m  Host      : \x1B[0;39m"@ + s.device_label@
        + "\n\x1B[1;36m  Kernel    : \x1B[0;39m"@ + s.kernel_label@
        + "\n\n\x1B[1;36m  Uptime    : \x1B[0;39m"@ + s.uptime@
        + "\n\x1B[1;36m  Load      : \x1B[1;32m"@ + s.load1@ + "\x1B[0;39m (1m), \x1B[1;32m"@
        + s.load5@ + "\x1B[0;39m (5m), \x1B[1;32m"@ + s.load15@ + "\x1B[0;39m (15m)"@
        + "\n\x1B[1;36m  Processes : \x1B[1;32m"@ + s.user_procs@ + "\x1B[0;39m (user), \x1B[1;32m"@
        + s.total_procs@ + "\x1B[0;39m (total)"@
        + "\n\n\x1B[1;36m  CPU       : \x1B[1;32m"@ + s.cpu_count@ + "\x1B[0;39m vCPU core(s)"@
        + "\n\x1B[1;36m  Memory    : \x1B[1;32m"@ + s.used_mem@ + "\x1B[0;39m used, \x1B[1;32m"@
        + s.avail_mem@ + "\x1B[0;39m avail, \x1B[1;32m"@ + s.total_mem@
        + "\x1B[0;39m total\x1B[0m\n\n"@
}

/// Renders the composed report for a completed snapshot, exactly
/// `report_spec`: fixed section order, fixed color tag per field class.
pub fn compose_report(s: &TelemetrySnapshot) -> (r: String)
    ensures
        r@ == report_spec(*s),
{
    let mut r = String::from_str("\n\x1B[0;39m\x1B[1mSystem Info:\n\x1B[1;36m  Distro    : \x1B[0;39m");
    r.append(s.os_version_label.as_str());
    r.append("\n\x1B[1;36m  Host      : \x1B[0;39m");
    r.append(s.device_label.as_str());
    r.append("\n\x1B[1;36m  Kernel    : \x1B[0;39m");
    r.append(s.kernel_label.as_str());
    r.append("\n\n\x1B[1;36m  Uptime    : \x1B[0;39m");
    r.append(s.uptime.as_str());
    r.append("\n\x1B[1;36m  Load      : \x1B[1;32m");
    r.append(s.load1.as_str());
    r.append("\x1B[0;39m (1m), \x1B[1;32m");
    r.append(s.load5.as_str());
    r.append("\x1B[0;39m (5m), \x1B[1;32m");
    r.append(s.load15.as_str());
    r.append("\x1B[0;39m (15m)");
    r.append("\n\x1B[1;36m  Processes : \x1B[1;32m");
    r.append(s.user_procs.as_str());
    r.append("\x1B[0;39m (user), \x1B[1;32m");
    r.append(s.total_procs.as_str());
    r.append("\x1B[0;39m (total)");
    r.append("\n\n\x1B[1;36m  CPU       : \x1B[1;32m");
    r.append(s.cpu_count.as_str());
    r.append("\x1B[0;39m vCPU core(s)");
    r.append("\n\x1B[1;36m  Memory    : \x1B[1;32m");
    r.append(s.used_mem.as_str());
    r.append("\x1B[0;39m used, \x1B[1;32m");
    r.append(s.avail_mem.as_str());
    r.append("\x1B[0;39m avail, \x1B[1;32m");
    r.append(s.total_mem.as_str());
    r.append("\x1B[0;39m total\x1B[0m\n\n");
    r
}

/// The system-information module: joins the raw source texts into a
/// snapshot and renders the composed report.
pub fn render(raw: RawSources) -> (r: String)
    ensures
        exists|s: TelemetrySnapshot|
            snapshot_matches(
                s,
                opt_text(raw.proc_uptime),
                opt_text(raw.uptime_cmd),
                opt_text(raw.free_cmd),
                opt_text(raw.nproc_cmd),
                opt_text(raw.ps_cmd),
                opt_text(raw.getprop_cmd),
                opt_text(raw.uname_cmd),
            ) && r@ == report_spec(s),
{
    let snapshot = build_snapshot(raw);
    compose_report(&snapshot)
}

} // verus!
