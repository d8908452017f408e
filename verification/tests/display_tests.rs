use termfetch::config::Config;
use termfetch::sysinfo::{build_snapshot, compose_report, render, RawSources};
use termfetch::CommandOutcome;

fn empty_sources() -> RawSources {
    RawSources {
        proc_uptime: None,
        uptime_cmd: None,
        free_cmd: None,
        nproc_cmd: None,
        ps_cmd: None,
        getprop_cmd: None,
        uname_cmd: None,
    }
}

#[test]
fn report_of_empty_sources_is_fully_sentineled() {
    let report = compose_report(&build_snapshot(empty_sources()));
    let w = "\x1B[0;39m";
    let g = "\x1B[1;32m";
    let c = "\x1B[1;36m";
    let expected = format!(
        "\n{w}\x1B[1mSystem Info:\n{c}  Distro    : {w}Android\n{c}  Host      : {w}Unknown Device\n{c}  Kernel    : {w}N/A\n\n{c}  Uptime    : {w}N/A\n{c}  Load      : {g}N/A{w} (1m), {g}N/A{w} (5m), {g}N/A{w} (15m)\n{c}  Processes : {g}N/A{w} (user), {g}N/A{w} (total)\n\n{c}  CPU       : {g}N/A{w} vCPU core(s)\n{c}  Memory    : {g}N/A{w} used, {g}N/A{w} avail, {g}N/A{w} total\x1B[0m\n\n"
    );
    assert_eq!(report, expected);
}

#[test]
fn render_equals_compose_of_build() {
    let a = render(empty_sources());
    let b = compose_report(&build_snapshot(empty_sources()));
    assert_eq!(a, b);
}

#[test]
fn modules_come_out_in_categorical_order() {
    let config = Config {
        enabled_modules: vec![
            String::from("disk-space"),
            String::from("sysinfo"),
            String::from("android-logo-small"),
        ],
    };
    let ordered = config.get_enabled_modules();
    let names: Vec<&str> = ordered.iter().map(|s| s.as_str()).collect();
    assert_eq!(names, vec!["android-logo-small", "sysinfo", "disk-space"]);
}

#[test]
fn unknown_modules_are_not_selected() {
    let config = Config { enabled_modules: vec![String::from("unheard-of")] };
    assert!(config.get_enabled_modules().is_empty());
}

#[test]
fn small_logo_is_exact() {
    let green = "\x1b[1;32m";
    let white = "\x1b[39m";
    let reset = "\x1b[0m";
    let mut expected = String::new();
    expected.push_str(green);
    expected.push_str("  ;,           ,;\n   ';,.-----.,;'\n  ,'           ',\n /    ");
    expected.push_str(white);
    expected.push_str("O     O");
    expected.push_str(green);
    expected.push_str("    \\\n|                 |\n'-----------------'\n");
    expected.push_str(reset);
    assert_eq!(termfetch::android_logo_small::run(), expected);
}

#[test]
fn large_logo_has_the_framing_colors() {
    let logo = termfetch::android_logo::run();
    assert!(logo.starts_with("\x1B[1;32m"));
    assert!(logo.ends_with("\x1B[0m"));
    assert!(logo.contains("m:"));
    assert!(logo.contains("NMMMMMMN"));
    assert!(logo.contains("oNMm-  -mMNs"));
}

#[test]
fn temperature_display_is_colored_by_threshold() {
    let cool = termfetch::android_temp::run(&Some(String::from("45678\n")));
    assert_eq!(cool, "\x1B[1mTemperature:\x1B[0m \x1B[1;32m 45\u{B0}C\x1B[0m\n");
    let warm = termfetch::android_temp::run(&Some(String::from("70123\n")));
    assert_eq!(warm, "\x1B[1mTemperature:\x1B[0m \x1B[1;33m 70\u{B0}C\x1B[0m\n");
    let hot = termfetch::android_temp::run(&Some(String::from("80123\n")));
    assert_eq!(hot, "\x1B[1mTemperature:\x1B[0m \x1B[1;31m 80\u{B0}C\x1B[0m\n");
}

#[test]
fn short_temperature_reading_defaults_to_zero() {
    let r = termfetch::android_temp::run(&Some(String::from("7\n")));
    assert_eq!(r, "\x1B[1mTemperature:\x1B[0m \x1B[1;32m 00\u{B0}C\x1B[0m\n");
}

#[test]
fn unreadable_temperature_is_an_error_line() {
    let r = termfetch::android_temp::run(&None);
    assert_eq!(r, "\x1B[1mTemperature:\x1B[0m \x1B[1;31mError reading temperature\x1B[0m");
}

#[test]
fn disk_row_is_aligned_and_barred() {
    let out = termfetch::disk_space::run(&Some(String::from(
        "Filesystem Size Used Avail Use% Mounted\n/dev/fuse 10G 5G 5G 50% /storage\n",
    )));
    let mut expected = String::from("\n\x1B[1mDisk Usage:\x1B[0m\n");
    expected.push_str("  /storage                        5G used out of  10G\n");
    expected.push_str("  \x1B[1;32m\u{ee03}");
    expected.push_str(&"\u{ee04}".repeat(25));
    expected.push_str(&"\u{ee01}".repeat(25));
    expected.push_str("\u{ee02}\x1B[0m\n");
    assert_eq!(out, expected);
}

#[test]
fn malformed_disk_lines_are_skipped() {
    let out = termfetch::disk_space::run(&Some(String::from(
        "Filesystem Size Used Avail Use% Mounted\ntoo few fields\n/dev/x 1G 1G 0G nopercent here\n",
    )));
    assert_eq!(out, "\n\x1B[1mDisk Usage:\x1B[0m\n");
}

#[test]
fn disk_error_line_when_df_is_unavailable() {
    let out = termfetch::disk_space::run(&None);
    assert_eq!(out, "\n\x1B[1mDisk Usage:\x1B[0m\n  \x1B[1;31mError running df command\x1B[0m\n");
}

#[test]
fn banner_outcomes_render_their_messages() {
    assert_eq!(
        termfetch::termux_banner::run(false, CommandOutcome::NotRun),
        "figlet not found.\nPlease install figlet first"
    );
    assert_eq!(
        termfetch::termux_banner::run(true, CommandOutcome::Success(String::from("ART\n"))),
        "\x1B[1;32mART\n\x1B[0m"
    );
    assert_eq!(
        termfetch::termux_banner::run(true, CommandOutcome::Failed),
        "Error generating Termux banner"
    );
    assert_eq!(
        termfetch::termux_banner::run(true, CommandOutcome::NotRun),
        "Error running figlet command"
    );
}

#[test]
fn uptime_module_outcomes_render_their_messages() {
    assert_eq!(
        termfetch::uptime::run(CommandOutcome::Success(String::from("up 5 minutes\n"))),
        "\nup 5 minutes\n"
    );
    assert_eq!(
        termfetch::uptime::run(CommandOutcome::Failed),
        "\nError getting uptime information"
    );
    assert_eq!(
        termfetch::uptime::run(CommandOutcome::NotRun),
        "\nError running uptime command"
    );
}
