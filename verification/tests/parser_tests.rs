use termfetch::sysinfo::{
    build_snapshot, extract_prop_value, parse_android_info, parse_load_averages,
    parse_memory_info, parse_process_info, RawSources,
};

#[test]
fn load_averages_are_the_three_trimmed_tokens() {
    let out = " 12:00:00 up 1 day,  2 users,  load average: 0.12, 0.34, 0.56";
    let (l1, l5, l15) = parse_load_averages(out);
    assert_eq!((l1.as_str(), l5.as_str(), l15.as_str()), ("0.12", "0.34", "0.56"));
}

#[test]
fn load_averages_without_marker_are_sentinel() {
    let (l1, l5, l15) = parse_load_averages("nothing of interest");
    assert_eq!((l1.as_str(), l5.as_str(), l15.as_str()), ("N/A", "N/A", "N/A"));
}

#[test]
fn load_averages_with_too_few_tokens_are_sentinel() {
    let (l1, l5, l15) = parse_load_averages("load average: 0.12, 0.34");
    assert_eq!((l1.as_str(), l5.as_str(), l15.as_str()), ("N/A", "N/A", "N/A"));
}

#[test]
fn memory_row_yields_used_available_total() {
    let out = "              total  used  free  shared  buff  available\nMem: 3.8G 1.2G 100M 0B 500M 2.3G\nSwap: 0B 0B 0B\n";
    let (used, avail, total) = parse_memory_info(out);
    assert_eq!((used.as_str(), avail.as_str(), total.as_str()), ("1.2G", "2.3G", "3.8G"));
}

#[test]
fn memory_with_too_few_columns_is_sentinel() {
    let (used, avail, total) = parse_memory_info("Mem: 3.8G 1.2G\n");
    assert_eq!((used.as_str(), avail.as_str(), total.as_str()), ("N/A", "N/A", "N/A"));
}

#[test]
fn memory_without_mem_row_is_sentinel() {
    let (used, avail, total) = parse_memory_info("Swap: 0B 0B 0B\n");
    assert_eq!((used.as_str(), avail.as_str(), total.as_str()), ("N/A", "N/A", "N/A"));
}

#[test]
fn process_counts_split_root_from_users() {
    let (user, total, root) = parse_process_info("root\nalice\nroot\nbob\n");
    assert_eq!((user.as_str(), total.as_str(), root.as_str()), ("2", "4", "2"));
}

#[test]
fn process_counts_of_empty_output_are_zero() {
    let (user, total, root) = parse_process_info("");
    assert_eq!((user.as_str(), total.as_str(), root.as_str()), ("0", "0", "0"));
}

#[test]
fn property_value_is_extracted() {
    let r = extract_prop_value("[ro.product.brand]: [Google]", "ro.product.brand");
    assert_eq!(r.as_deref(), Some("Google"));
}

#[test]
fn empty_property_value_is_absent() {
    let r = extract_prop_value("[ro.product.brand]: []", "ro.product.brand");
    assert_eq!(r, None);
}

#[test]
fn first_closing_bracket_ends_the_value() {
    let r = extract_prop_value("[k]: [a]b]", "k");
    assert_eq!(r.as_deref(), Some("a"));
}

#[test]
fn property_of_another_key_is_absent() {
    let r = extract_prop_value("[ro.product.brand]: [Google]", "ro.product.model");
    assert_eq!(r, None);
}

#[test]
fn android_labels_join_version_brand_and_model() {
    let dump = "[ro.build.version.release]: [14]\n[ro.product.brand]: [Google]\n[ro.product.model]: [Pixel 8]\n";
    let (version, device) = parse_android_info(dump);
    assert_eq!(version.as_str(), "Android 14");
    assert_eq!(device.as_str(), "Google Pixel 8");
}

#[test]
fn android_labels_without_properties_fall_back() {
    let (version, device) = parse_android_info("[some.other.key]: [x]\n");
    assert_eq!(version.as_str(), "Android");
    assert_eq!(device.as_str(), "Unknown Device");
}

#[test]
fn android_brand_alone_is_the_device_label() {
    let (version, device) = parse_android_info("[ro.product.brand]: [Google]\n");
    assert_eq!(version.as_str(), "Android");
    assert_eq!(device.as_str(), "Google");
}

fn healthy_sources() -> RawSources {
    RawSources {
        proc_uptime: Some(String::from("90061.27 180122.54\n")),
        uptime_cmd: Some(String::from(
            " 12:00:00 up 1 day,  2 users,  load average: 0.12, 0.34, 0.56",
        )),
        free_cmd: Some(String::from("header\nMem: 3.8G 1.2G 100M 0B 500M 2.3G\n")),
        nproc_cmd: Some(String::from("8\n")),
        ps_cmd: Some(String::from("root\nalice\nroot\nbob\n")),
        getprop_cmd: Some(String::from(
            "[ro.build.version.release]: [14]\n[ro.product.brand]: [Google]\n[ro.product.model]: [Pixel 8]\n",
        )),
        uname_cmd: Some(String::from("Linux 6.1.0\n")),
    }
}

#[test]
fn snapshot_fields_come_from_their_own_sources() {
    let s = build_snapshot(healthy_sources());
    assert_eq!(s.uptime.as_str(), "up 1 day, 1 hour, 1 minute");
    assert_eq!(s.load1.as_str(), "0.12");
    assert_eq!(s.load5.as_str(), "0.34");
    assert_eq!(s.load15.as_str(), "0.56");
    assert_eq!(s.used_mem.as_str(), "1.2G");
    assert_eq!(s.avail_mem.as_str(), "2.3G");
    assert_eq!(s.total_mem.as_str(), "3.8G");
    assert_eq!(s.cpu_count.as_str(), "8");
    assert_eq!(s.user_procs.as_str(), "2");
    assert_eq!(s.total_procs.as_str(), "4");
    assert_eq!(s.root_procs.as_str(), "2");
    assert_eq!(s.os_version_label.as_str(), "Android 14");
    assert_eq!(s.device_label.as_str(), "Google Pixel 8");
    assert_eq!(s.kernel_label.as_str(), "Linux 6.1.0");
}

#[test]
fn cpu_and_kernel_fields_take_the_first_trimmed_line() {
    let mut raw = healthy_sources();
    raw.nproc_cmd = Some(String::from(" 8 \nspurious second line\n"));
    raw.uname_cmd = Some(String::from("Linux 6.1.0\nnoise\n"));
    let s = build_snapshot(raw);
    assert_eq!(s.cpu_count.as_str(), "8");
    assert_eq!(s.kernel_label.as_str(), "Linux 6.1.0");
}

#[test]
fn failing_memory_source_degrades_only_memory_fields() {
    let mut raw = healthy_sources();
    raw.free_cmd = None;
    let s = build_snapshot(raw);
    assert_eq!(s.used_mem.as_str(), "N/A");
    assert_eq!(s.avail_mem.as_str(), "N/A");
    assert_eq!(s.total_mem.as_str(), "N/A");
    assert_eq!(s.uptime.as_str(), "up 1 day, 1 hour, 1 minute");
    assert_eq!(s.load1.as_str(), "0.12");
    assert_eq!(s.cpu_count.as_str(), "8");
    assert_eq!(s.user_procs.as_str(), "2");
    assert_eq!(s.os_version_label.as_str(), "Android 14");
    assert_eq!(s.device_label.as_str(), "Google Pixel 8");
    assert_eq!(s.kernel_label.as_str(), "Linux 6.1.0");
}

#[test]
fn identical_sources_give_identical_snapshots() {
    let a = build_snapshot(healthy_sources());
    let b = build_snapshot(healthy_sources());
    assert_eq!(a.uptime, b.uptime);
    assert_eq!(a.load1, b.load1);
    assert_eq!(a.load5, b.load5);
    assert_eq!(a.load15, b.load15);
    assert_eq!(a.used_mem, b.used_mem);
    assert_eq!(a.avail_mem, b.avail_mem);
    assert_eq!(a.total_mem, b.total_mem);
    assert_eq!(a.cpu_count, b.cpu_count);
    assert_eq!(a.user_procs, b.user_procs);
    assert_eq!(a.total_procs, b.total_procs);
    assert_eq!(a.root_procs, b.root_procs);
    assert_eq!(a.os_version_label, b.os_version_label);
    assert_eq!(a.device_label, b.device_label);
    assert_eq!(a.kernel_label, b.kernel_label);
}
