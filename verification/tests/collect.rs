use diskwatch::collect::devices::{
    attribute_sources, bus_hint, classify_by_name, largest_first, linux_device_tick, member_table, note_source, refresh_usage,
    short_name, DeviceKind, DeviceTick,
};
use std::collections::HashMap;
use diskwatch::collect::filesystems::FsTick;
use diskwatch::collect::growth::{grows_fast_enough, GrowthTracker};
use diskwatch::collect::hot_files::{
    default_roots, describe_watch_error, kept_after_tick, resolve_roots, ActivityKind, WatchError, WatchFailure,
};
use diskwatch::collect::io::{
    counter_deltas, is_partition_name, is_stacked_name, lookup, parse_diskstats, LatencyHistory, LATENCY_WINDOW,
    LAT_BUCKETS,
};
use diskwatch::collect::linux::{
    attr_u64, compose_model, is_skipped_block, parse_block, trimmed_attr, BlockAttrs, LinuxKind,
};

#[test]
fn short_name_folds_partitions() {
    assert_eq!(short_name("/dev/sda1"), "sda");
    assert_eq!(short_name("/dev/sda"), "sda");
    assert_eq!(short_name("/dev/nvme0n1p2"), "nvme0n1");
    assert_eq!(short_name("/dev/nvme0n1"), "nvme0n1");
    assert_eq!(short_name("/dev/mmcblk0p2"), "mmcblk0");
    assert_eq!(short_name("/dev/mmcblk0"), "mmcblk0");
    assert_eq!(short_name("/dev/mmcblk0boot0"), "mmcblk0boot0");
    assert_eq!(short_name("/dev/md0"), "md0");
    assert_eq!(short_name("/dev/md0p1"), "md0");
    assert_eq!(short_name("/dev/vdb2"), "vdb");
    assert_eq!(short_name("/dev/xvda1"), "xvda");
    assert_eq!(short_name("/dev/disk3s1"), "disk3");
    assert_eq!(short_name("overlay"), "overlay");
}

#[test]
fn device_kinds_have_labels_and_buses() {
    assert_eq!(DeviceKind::Nvme.label(), "NVMe");
    assert_eq!(DeviceKind::UsbMassStorage.label(), "USB");
    assert_eq!(DeviceKind::Unknown.label(), "?");
    assert_eq!(classify_by_name("nvme0n1"), DeviceKind::Nvme);
    assert_eq!(classify_by_name("sdb"), DeviceKind::Ssd);
    assert_eq!(classify_by_name("vda"), DeviceKind::Unknown);
    assert_eq!(bus_hint(&DeviceKind::Ssd), "SATA / Internal");
    assert_eq!(bus_hint(&DeviceKind::Unknown), "\u{2014}");
}

fn fs(mount: &str, used: u64, size: u64) -> FsTick {
    FsTick {
        mount: mount.to_string(),
        device: "test".into(),
        fs_type: "test".into(),
        size_bytes: size,
        used_bytes: used,
        avail_bytes: size - used,
        inode_pct: None,
        is_removable: false,
        is_system: false,
    }
}

#[test]
fn unmounted_volumes_are_forgotten() {
    let mut t = GrowthTracker::new();
    t.observe(&vec![fs("/", 1, 100), fs("/mnt/usb", 1, 100)], 10_000);
    assert_eq!(t.by_mount.len(), 2);
    t.observe(&vec![fs("/", 1, 100)], 11_000);
    assert_eq!(t.by_mount.len(), 1);
    assert!(!t.tracks("/mnt/usb"));
}

#[test]
fn zero_sized_mounts_are_ignored() {
    let mut t = GrowthTracker::new();
    t.observe(&vec![fs("/dev", 0, 0)], 10_000);
    assert!(t.by_mount.is_empty());
}

#[test]
fn reports_nothing_before_the_minimum_observation() {
    let mut t = GrowthTracker::new();
    t.observe(&vec![fs("/", 0, 2_000_000_000)], 0);
    t.observe(&vec![fs("/", 1_000_000_000, 2_000_000_000)], 10_000);
    assert_eq!(t.window("/"), None);
    t.observe(&vec![fs("/", 1_000_000_500, 2_000_000_000)], 60_000);
    assert_eq!(t.window("/"), Some(((0, 0), (60_000, 1_000_000_500))));
}

/// A tracker shown `points` of `(ms, used)` for `/`.
fn seeded(points: &[(u64, u64)]) -> GrowthTracker {
    let mut t = GrowthTracker::new();
    for (at, used) in points {
        t.observe(&vec![fs("/", *used, 2_000_000_000)], *at);
    }
    t
}

#[test]
fn projects_days_until_full_from_the_window_slope() {
    let t = seeded(&[(0, 0), (100_000, 100_000_000)]);
    let w = t.window("/").expect("window is long enough");
    assert_eq!(w, ((0, 0), (100_000, 100_000_000)));
    assert!(grows_fast_enough(w.0, w.1), "growing, so there is a deadline");
    let bytes_per_sec = (w.1 .1 - w.0 .1) as f64 / ((w.1 .0 - w.0 .0) as f64 / 1000.0);
    assert!((bytes_per_sec * 86_400.0 - 86_400_000_000.0).abs() < 1e6);
}

#[test]
fn a_shrinking_filesystem_has_no_deadline() {
    let t = seeded(&[(0, 500_000_000), (100_000, 400_000_000)]);
    let w = t.window("/").expect("has window");
    assert!(w.1 .1 < w.0 .1);
    assert!(!grows_fast_enough(w.0, w.1));
}

#[test]
fn flat_usage_has_no_deadline() {
    let t = seeded(&[(0, 500_000_000), (100_000, 500_000_100)]);
    let w = t.window("/").expect("has window");
    assert!(!grows_fast_enough(w.0, w.1));
}

#[test]
fn samples_are_taken_at_most_once_an_interval_and_age_out() {
    let mut t = GrowthTracker::new();
    t.observe(&vec![fs("/", 1, 100)], 1_000);
    t.observe(&vec![fs("/", 2, 100)], 1_500);
    assert_eq!(t.by_mount[0].1.samples, vec![(1_000, 1)], "a sample 500ms later is skipped");
    t.observe(&vec![fs("/", 3, 100)], 2_000);
    assert_eq!(t.by_mount[0].1.samples.len(), 2);
    t.observe(&vec![fs("/", 4, 100)], 700_000);
    assert_eq!(t.by_mount[0].1.samples, vec![(700_000, 4)], "ten minutes on, only the new sample is in the window");
}

#[test]
fn a_deadline_needs_more_than_a_kib_a_second() {
    assert!(grows_fast_enough((0, 0), (100_000, 100_000_000)));
    assert!(!grows_fast_enough((0, 500_000_000), (100_000, 500_000_100)));
    assert!(!grows_fast_enough((0, 500_000_000), (100_000, 400_000_000)));
    assert!(!grows_fast_enough((0, 0), (1_000, 1_024)));
    assert!(grows_fast_enough((0, 0), (1_000, 1_025)));
}

#[test]
fn extra_roots_add_to_the_defaults_and_replacements_stand_in_for_them() {
    let extra = vec!["/srv/data".to_string()];
    let with_defaults = resolve_roots(None, &extra, Some("/home/u"));
    assert!(with_defaults.len() > 1, "defaults should still be present");
    assert!(with_defaults.contains(&"/srv/data".to_string()));

    let replaced = resolve_roots(Some(vec!["/only".to_string()]), &extra, Some("/home/u"));
    assert_eq!(
        replaced,
        vec!["/only".to_string(), "/srv/data".to_string()],
        "an explicit list replaces the defaults but still takes the extras"
    );
}

#[test]
fn duplicate_roots_collapse_to_one_banner_entry() {
    let roots = resolve_roots(
        Some(vec!["/a".to_string(), "/b".to_string()]),
        &vec!["/a".to_string()],
        None,
    );
    assert_eq!(roots, vec!["/a".to_string(), "/b".to_string()]);
}

#[test]
fn default_roots_start_at_home() {
    assert_eq!(
        default_roots(Some("/home/u")),
        vec!["/home/u".to_string(), "/var/log".to_string(), "/tmp".to_string()]
    );
    assert_eq!(default_roots(None), vec!["/var/log".to_string(), "/tmp".to_string()]);
}

#[test]
fn an_exhausted_watch_budget_names_the_knob_that_fixes_it() {
    let e = WatchError { failure: WatchFailure::OutOfWatches, paths: Vec::new() };
    let msg = describe_watch_error("/big/tree", &e, true);
    assert!(msg.contains("/big/tree"), "{msg}");
    assert!(msg.contains("recursive"), "{msg}");
    assert!(msg.contains("max_user_watches"), "{msg}");
    assert!(!describe_watch_error("/big/tree", &e, false).contains("max_user_watches"));
}

#[test]
fn a_permission_error_names_the_directory_that_actually_failed() {
    let e = WatchError {
        failure: WatchFailure::Failed("permission denied".to_string()),
        paths: vec!["/tmp/systemd-private-abc".to_string()],
    };
    let msg = describe_watch_error("/tmp", &e, true);
    assert!(msg.contains("/tmp/systemd-private-abc"), "{msg}");
    assert!(msg.contains("recursive"), "{msg}");
    assert!(!msg.contains('['), "{msg}");
    let same = WatchError {
        failure: WatchFailure::Failed("permission denied".to_string()),
        paths: vec!["/tmp".to_string()],
    };
    assert_eq!(describe_watch_error("/tmp", &same, true), "/tmp: permission denied");
}

#[test]
fn activity_kinds_are_labelled() {
    assert_eq!(ActivityKind::Modified.label(), "modify");
    assert_eq!(ActivityKind::Renamed.label(), "rename");
    assert_eq!(ActivityKind::Metadata.label(), "meta");
}

#[test]
fn sata_disks_and_partitions() {
    assert!(!is_partition_name("sda"));
    assert!(!is_partition_name("sdb"));
    assert!(is_partition_name("sda1"));
    assert!(is_partition_name("sdb12"));
}

#[test]
fn nvme_disks_and_partitions() {
    assert!(!is_partition_name("nvme0n1"));
    assert!(is_partition_name("nvme0n1p1"));
    assert!(is_partition_name("nvme1n2p5"));
}

#[test]
fn mmc_quirks() {
    assert!(!is_partition_name("mmcblk0"));
    assert!(is_partition_name("mmcblk0p1"));
}

#[test]
fn device_mapper_is_whole() {
    assert!(!is_partition_name("dm-0"));
    assert!(!is_partition_name("dm-12"));
}

const MODERN: &str = "\
 259       0 nvme0n1 1204485 154403 92216832 419827 2274743 1385042 128793104 1936114 0 1123456 2372123 0 0 0 0 74521 25631
 259       1 nvme0n1p1 1180 0 45888 108 12 0 24 3 0 128 111 0 0 0 0 0 0
 252       0 dm-0 1189042 0 91755024 431223 3487211 0 128512488 3612991 0 1198877 4044214 0 0 0 0 0 0
   7       0 loop0 44 0 1408 6 0 0 0 0 0 24 6 0 0 0 0 0 0
   9       0 md0 92211 0 8192000 12042 411223 0 42112000 92113 0 84221 104155 0 0 0 0 0 0";

const SHORT: &str = " 8 0 sda 1204485 154403 92216832 419827 2274743 1385042 128793104 1936114";

#[test]
fn parses_a_modern_diskstats_line() {
    let out = parse_diskstats(MODERN);
    let d = lookup(&out, "nvme0n1").expect("nvme0n1 present");
    assert_eq!(d.bytes_read, 92_216_832 * 512);
    assert_eq!(d.bytes_written, 128_793_104 * 512);
    assert_eq!(d.ops_read, 1_204_485);
    assert_eq!(d.ops_written, 2_274_743);
    assert_eq!(d.total_time_read_ns, 419_827 * 1_000_000);
    assert_eq!(d.total_time_write_ns, 1_936_114 * 1_000_000);
    assert_eq!(d.inflight, Some(0));
    assert_eq!(d.busy_ns, Some(1_123_456 * 1_000_000));
}

#[test]
fn skips_partitions_loops_and_keeps_stacked_devices() {
    let out = parse_diskstats(MODERN);
    assert!(lookup(&out, "nvme0n1p1").is_none(), "partitions double-count");
    assert!(lookup(&out, "loop0").is_none());
    assert!(lookup(&out, "dm-0").is_some());
    assert!(lookup(&out, "md0").is_some());
}

#[test]
fn an_old_kernel_loses_util_not_the_device() {
    let out = parse_diskstats(SHORT);
    let d = lookup(&out, "sda").expect("sda still parsed");
    assert_eq!(d.ops_read, 1_204_485);
    assert_eq!(d.inflight, None, "renders as -- rather than 0");
    assert_eq!(d.busy_ns, None);
}

#[test]
fn a_truncated_or_garbled_line_is_skipped_not_fatal() {
    assert!(parse_diskstats("8 0 sda 1 2 3").is_empty());
    assert!(parse_diskstats("8 0 sda x x x x x x x x").is_empty());
    assert!(parse_diskstats("").is_empty());
}

#[test]
fn whole_devices_whose_names_end_in_a_digit_are_not_partitions() {
    for whole in ["md0", "md127", "dm-0", "sr0", "zram0", "nbd0", "sda", "nvme0n1"] {
        assert!(!is_partition_name(whole), "{whole} treated as a partition");
    }
    for part in ["sda1", "vdb2", "hda3", "nvme0n1p1", "mmcblk0p2", "md0p1"] {
        assert!(is_partition_name(part), "{part} treated as a whole device");
    }
}

#[test]
fn a_repeated_device_keeps_its_last_report() {
    let text = " 8 0 sda 1 0 2 3 4 0 5 6\n 8 0 sda 7 0 8 9 10 0 11 12 1 13\n";
    let out = parse_diskstats(text);
    assert_eq!(out.len(), 1);
    let d = lookup(&out, "sda").unwrap();
    assert_eq!(d.ops_read, 7);
    assert_eq!(d.bytes_read, 8 * 512);
    assert_eq!(d.inflight, Some(1));
    assert_eq!(d.busy_ns, Some(13_000_000));
}

#[test]
fn huge_counters_saturate_rather_than_wrap() {
    let text = " 8 0 sda 1 0 18446744073709551615 3 4 0 5 6";
    let d = lookup(&parse_diskstats(text), "sda").unwrap();
    assert_eq!(d.bytes_read, u64::MAX);
}

#[test]
fn stacked_devices_are_named_as_such() {
    assert!(is_stacked_name("dm-0") && is_stacked_name("md0") && is_stacked_name("zd16"));
    assert!(!is_stacked_name("nvme0n1") && !is_stacked_name("sda"));
}

#[test]
fn the_histogram_window_slides_instead_of_accumulating() {
    let mut h = LatencyHistory::new();
    for i in 0..LATENCY_WINDOW + 50 {
        let mut s = [0u64; LAT_BUCKETS];
        s[if i < 50 { LAT_BUCKETS - 1 } else { 0 }] = 1;
        h.push(s);
    }
    let sum = h.hist_sum();
    assert_eq!(sum[LAT_BUCKETS - 1], 0, "the old burst never aged out");
    assert_eq!(sum[0], LATENCY_WINDOW as u64);
    assert_eq!(h.samples.len(), LATENCY_WINDOW);
}

#[test]
fn histogram_sums_saturate() {
    let mut h = LatencyHistory::new();
    h.push([u64::MAX, 1, 0, 0, 0, 0, 0]);
    h.push([5, 2, 0, 0, 0, 0, 0]);
    assert_eq!(h.hist_sum(), [u64::MAX, 3, 0, 0, 0, 0, 0]);
}

#[test]
fn sysfs_attributes_become_a_device() {
    assert!(is_skipped_block("loop3") && is_skipped_block("dm-1") && is_skipped_block("zd0"));
    assert!(!is_skipped_block("sda"));
    assert_eq!(trimmed_attr("  Samsung SSD \n"), Some("Samsung SSD".to_string()));
    assert_eq!(trimmed_attr(" \n"), None);
    assert_eq!(compose_model("SSD 870", "Samsung"), "Samsung SSD 870");
    assert_eq!(compose_model("samsung SSD 870", "Samsung"), "samsung SSD 870");
    assert_eq!(compose_model("", ""), "\u{2014}");
    let d = parse_block(
        "sdb",
        &BlockAttrs {
            size_sectors: Some(1000),
            removable: Some(0),
            rotational: Some(1),
            model: Some("WD40EFRX".to_string()),
            vendor: None,
            firmware: Some("80.00A80".to_string()),
            serial: None,
        },
    );
    assert_eq!(d.kind, LinuxKind::Hdd);
    assert_eq!(d.size_bytes, 512_000);
    assert_eq!(d.model, "WD40EFRX");
    assert!(!d.removable);
    let n = parse_block(
        "nvme0n1",
        &BlockAttrs { size_sectors: None, removable: Some(1), rotational: None, model: None, vendor: None, firmware: None, serial: None },
    );
    assert_eq!(n.kind, LinuxKind::Nvme);
    assert_eq!(n.size_bytes, 0);
    assert!(n.removable);
}

// ── attributing usage to disks ───────────────────────────────────────────

type Table = Vec<(String, Vec<String>)>;

fn no_table() -> Table {
    Vec::new()
}

/// A bcachefs member map: every listed member resolves to the full set.
fn bcachefs(members: &[&str]) -> Table {
    members
        .iter()
        .map(|m| (m.to_string(), members.iter().map(|s| s.to_string()).collect()))
        .collect()
}

fn table(entries: &[(&str, &[&str])]) -> Table {
    entries
        .iter()
        .map(|(k, v)| (k.to_string(), v.iter().map(|s| s.to_string()).collect()))
        .collect()
}

fn sources(list: &[(&str, u64)]) -> Vec<(String, u64)> {
    list.iter().map(|(s, u)| (s.to_string(), *u)).collect()
}

fn attributed(by_source: &[(&str, u64)], slaves: &Table, bc: &Table) -> HashMap<String, u64> {
    let out = attribute_sources(&sources(by_source), slaves, bc);
    let map: HashMap<String, u64> = out.iter().cloned().collect();
    assert_eq!(map.len(), out.len(), "a disk is listed twice");
    map
}

#[test]
fn plain_partition_attributes_to_parent_disk() {
    let out = attributed(&[("/dev/mmcblk0p2", 27_000), ("/dev/mmcblk0p1", 300)], &no_table(), &no_table());
    assert_eq!(out.get("mmcblk0"), Some(&27_300));
}

#[test]
fn bcachefs_multi_device_splits_across_members() {
    let members = (b'a'..=b'h').map(|c| format!("/dev/sd{}", c as char)).collect::<Vec<_>>().join(":");
    let out = attributed(&[(members.as_str(), 640_000_000)], &no_table(), &no_table());
    assert_eq!(out.get("sda"), Some(&80_000_000));
    assert_eq!(out.get("sdh"), Some(&80_000_000));
    assert_eq!(out.len(), 8);
}

#[test]
fn md_array_splits_across_slaves() {
    let slaves = table(&[("/dev/md0", &["sdd", "sdb", "sde", "sdc"])]);
    let out = attributed(&[("/dev/md0", 4_000_000), ("/dev/nvme0n1p1", 5_000)], &slaves, &no_table());
    assert_eq!(out.get("sdd"), Some(&1_000_000));
    assert_eq!(out.get("sdc"), Some(&1_000_000));
    assert_eq!(out.get("nvme0n1"), Some(&5_000));
    assert_eq!(out.get("md0"), None);
}

#[test]
fn virtual_sources_attribute_to_nothing() {
    let out = attributed(&[("overlay", 640_000_000), ("tmpfs", 1_000), ("pool/dataset", 9_000)], &no_table(), &no_table());
    assert!(out.is_empty());
}

#[test]
fn same_disk_partitions_sum() {
    let out = attributed(&[("/dev/sda1", 100), ("/dev/sda2", 250)], &no_table(), &no_table());
    assert_eq!(out.get("sda"), Some(&350));
}

#[test]
fn bcachefs_single_device_mount_expands_to_all_members() {
    let out = attributed(&[("/dev/sda", 4_000_000)], &no_table(), &bcachefs(&["sda", "sdb", "sdc", "sdd"]));
    assert_eq!(out.get("sda"), Some(&1_000_000));
    assert_eq!(out.get("sdd"), Some(&1_000_000));
    assert_eq!(out.len(), 4);
}

#[test]
fn bcachefs_colon_source_still_splits_with_member_map() {
    let out = attributed(&[("/dev/sda:/dev/sdb", 2_000_000)], &no_table(), &bcachefs(&["sda", "sdb"]));
    assert_eq!(out.get("sda"), Some(&1_000_000));
    assert_eq!(out.get("sdb"), Some(&1_000_000));
    assert_eq!(out.len(), 2);
}

#[test]
fn bcachefs_subvolume_double_mount_not_double_counted() {
    let out = attributed(
        &[("/dev/sda:/dev/sdb", 2_000_000), ("/dev/sda", 2_000_000)],
        &no_table(),
        &bcachefs(&["sda", "sdb"]),
    );
    assert_eq!(out.get("sda"), Some(&1_000_000));
    assert_eq!(out.get("sdb"), Some(&1_000_000));
    assert_eq!(out.len(), 2);
}

#[test]
fn independent_filesystems_on_shared_members_sum() {
    let slaves = table(&[("/dev/mapper/vg-lv1", &["sda", "sdb"]), ("/dev/mapper/vg-lv2", &["sda", "sdb"])]);
    let out = attributed(&[("/dev/mapper/vg-lv1", 1_000_000), ("/dev/mapper/vg-lv2", 500_000)], &slaves, &no_table());
    assert_eq!(out.get("sda"), Some(&750_000));
    assert_eq!(out.get("sdb"), Some(&750_000));
    assert_eq!(out.len(), 2);
}

#[test]
fn bcachefs_and_an_unrelated_fs_on_one_member_both_land() {
    let out = attributed(&[("/dev/sda:/dev/sdb", 2_000_000), ("/dev/sdc1", 400)], &no_table(), &bcachefs(&["sda", "sdb"]));
    assert_eq!(out.get("sda"), Some(&1_000_000));
    assert_eq!(out.get("sdc"), Some(&400));
    assert_eq!(out.len(), 3);
}

#[test]
fn a_stacked_device_with_no_members_falls_back_to_its_own_name() {
    let slaves = table(&[("/dev/dm-3", &[])]);
    let out = attributed(&[("/dev/dm-3", 70)], &slaves, &no_table());
    assert_eq!(out.get("dm-3"), Some(&70));
    assert_eq!(out.len(), 1);
}

#[test]
fn shares_saturate_instead_of_wrapping() {
    let out = attributed(&[("/dev/sda1", u64::MAX), ("/dev/sda2", 10)], &no_table(), &no_table());
    assert_eq!(out.get("sda"), Some(&u64::MAX));
}

fn device(name: &str) -> DeviceTick {
    DeviceTick {
        name: name.to_string(),
        kind: DeviceKind::Ssd,
        model: "M".to_string(),
        bus: "SATA".to_string(),
        size_bytes: 1_000,
        used_bytes: 999,
        is_removable: false,
        firmware: None,
        serial: Some("S1".to_string()),
        smart_ok: Some(true),
        idle: false,
    }
}

#[test]
fn refreshed_usage_lands_on_each_device_by_name() {
    let mut devices = vec![device("sda"), device("sdb"), device("nvme0n1")];
    let usage = attribute_sources(&sources(&[("/dev/sda1", 100), ("/dev/nvme0n1p2", 7)]), &no_table(), &no_table());
    refresh_usage(&mut devices, &usage);
    assert_eq!(devices[0].used_bytes, 100);
    assert_eq!(devices[1].used_bytes, 0, "a disk nothing is mounted from used nothing");
    assert_eq!(devices[2].used_bytes, 7);
    assert_eq!(devices[2].serial.as_deref(), Some("S1"));
}

#[test]
fn a_source_mounted_twice_is_one_filesystem() {
    let mut by_source: Vec<(String, u64)> = Vec::new();
    note_source(&mut by_source, "/dev/sda2", 100);
    note_source(&mut by_source, "/dev/sda2", 80);
    note_source(&mut by_source, "/dev/sdb1", 0);
    note_source(&mut by_source, "/dev/sda2", 120);
    assert_eq!(by_source, vec![("/dev/sda2".to_string(), 120)]);
}

#[test]
fn numeric_sysfs_attributes_are_trimmed_then_parsed() {
    assert_eq!(attr_u64("1953525168\n"), Some(1_953_525_168));
    assert_eq!(attr_u64("  0 "), Some(0));
    assert_eq!(attr_u64("n/a"), None);
    assert_eq!(attr_u64(""), None);
}

#[test]
fn a_sysfs_disk_becomes_a_device_row() {
    let attrs = BlockAttrs {
        size_sectors: Some(0),
        removable: Some(0),
        rotational: Some(0),
        model: Some("Samsung SSD 980".to_string()),
        vendor: None,
        firmware: Some("1B4Q".to_string()),
        serial: None,
    };
    let d = linux_device_tick(parse_block("nvme0n1", &attrs), 42);
    assert_eq!(d.name, "nvme0n1");
    assert_eq!(d.kind, DeviceKind::Nvme);
    assert_eq!(d.bus, "PCIe / NVMe");
    assert_eq!(d.used_bytes, 42);
    assert!(d.idle, "a disk reporting no size is idle");
    assert_eq!(d.smart_ok, None);
    assert_eq!(d.firmware.as_deref(), Some("1B4Q"));
}

#[test]
fn drives_without_a_verdict_count_in_neither_side_of_the_rollup() {
    let mut a = device("sda");
    a.smart_ok = Some(true);
    let mut b = device("sdb");
    b.smart_ok = Some(false);
    let mut c = device("sdc");
    c.smart_ok = None;
    assert_eq!(diskwatch::ui::lite::health_rollup(&vec![a, b, c]), (1, 2));
    assert_eq!(diskwatch::ui::lite::health_rollup(&Vec::new()), (0, 0));
}

#[test]
fn a_first_sighting_sets_the_baseline_instead_of_reporting_everything_since_boot() {
    let before = parse_diskstats("   8       0 sda 10 0 100 5 20 0 200 7 0 30 40\n");
    let after = parse_diskstats(
        "   8       0 sda 15 0 300 9 20 0 150 7 2 50 60\n 259 0 nvme0n1 1 0 8 1 1 0 8 1 0 1 1\n",
    );
    let d = counter_deltas(&before, &after);
    assert_eq!(d.len(), 2);
    assert_eq!(d[0].0, "sda");
    let sda = d[0].1.expect("sda had a baseline");
    assert_eq!(sda.ops_read, 5);
    assert_eq!(sda.bytes_read, 200 * 512);
    assert_eq!(sda.bytes_written, 0, "a counter that went backwards moved by nothing");
    assert_eq!(sda.time_read_ns, 4_000_000);
    assert_eq!(sda.busy_ns, Some(20_000_000));
    assert_eq!(sda.inflight, Some(2));
    assert_eq!(d[1].0, "nvme0n1");
    assert!(d[1].1.is_none());
}

#[test]
fn every_member_of_a_multi_device_filesystem_stands_for_all_of_them() {
    let fss = vec![
        vec!["sdb".to_string(), "sda".to_string(), "sdb".to_string()],
        vec!["sdc".to_string()],
        vec!["nvme0n1".to_string(), "nvme0n1".to_string()],
    ];
    let t = member_table(&fss);
    assert_eq!(t.len(), 2, "single-device filesystems need no expansion");
    for (m, set) in &t {
        assert!(m == "sda" || m == "sdb");
        let mut sorted = set.clone();
        sorted.sort();
        assert_eq!(sorted, vec!["sda".to_string(), "sdb".to_string()]);
    }
    let out = attribute_sources(&sources(&[("/dev/sdb", 1_000)]), &no_table(), &t);
    assert_eq!(out.get(0).map(|e| e.1), Some(500));
    assert_eq!(out.len(), 2);
}

#[test]
fn devices_list_largest_first_and_ties_keep_their_order() {
    let sized = |name: &str, size: u64| {
        let mut d = device(name);
        d.size_bytes = size;
        d
    };
    let out = largest_first(vec![sized("a", 10), sized("b", 30), sized("c", 10), sized("d", 20), sized("e", 30)]);
    let names: Vec<&str> = out.iter().map(|d| d.name.as_str()).collect();
    assert_eq!(names, vec!["b", "e", "d", "a", "c"]);
    assert!(largest_first(Vec::new()).is_empty());
}

#[test]
fn resolving_the_roots_again_gives_them_back() {
    let extra = vec!["/srv".to_string(), "/home/u".to_string(), "/srv".to_string()];
    let once = resolve_roots(None, &extra, Some("/home/u"));
    let twice = resolve_roots(Some(once.clone()), &extra, Some("/home/u"));
    assert_eq!(twice, once);
}

#[test]
fn idle_files_are_forgotten_and_the_oldest_go_first_when_full() {
    let idle = vec![5, 30_000_000_001, 30_000_000_000, 7];
    assert_eq!(kept_after_tick(&idle), vec![true, false, true, true]);
    let mut many: Vec<u64> = (0..4100u64).collect();
    many.push(40_000_000_000);
    let keep = kept_after_tick(&many);
    assert_eq!(keep.iter().filter(|k| **k).count(), 4096);
    assert!(keep[..4096].iter().all(|k| *k), "the most recently seen stay");
    assert!(!keep[4096] && !keep[4099] && !keep[4100]);
}
