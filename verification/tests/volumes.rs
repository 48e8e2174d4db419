use diskwatch::collect::smart::{
    smart_tick_from_json, smart_tick_from_output, Json, JsonNumber, SmartAction, SmartCollector, SmartTick,
};
use diskwatch::collect::volumes::{mdstat_well_formed, VolumeTick};
use diskwatch::collect::volumes::parse_mdstat;
use diskwatch::collect::volumes::{first_byte_count, parse_apfs_list};

#[test]
fn parses_two_active_arrays() {
    let text = "\
Personalities : [raid1] [raid10] [raid0]
md0 : active raid10 sda1[0] sdb1[1] sdc1[2] sdd1[3]
      7813767168 blocks super 1.2 256K chunks 2 near-copies [4/4] [UUUU]
      bitmap: 0/59 pages [0KB], 65536KB chunk

md1 : active raid1 sde1[0] sdf1[1]
      1953382464 blocks super 1.2 [2/2] [UU]
      bitmap: 0/15 pages [0KB], 65536KB chunk

unused devices: <none>
";
    let arrays = parse_mdstat(text);
    assert_eq!(arrays.len(), 2);

    let md0 = &arrays[0];
    assert_eq!(md0.name, "md0");
    assert_eq!(md0.level, "raid10");
    assert_eq!(md0.state, "active");
    assert_eq!(md0.members.len(), 4);
    assert_eq!(md0.members[0].device, "sda1");
    assert_eq!(md0.members[0].index, 0);
    assert!(md0.members[0].flag.is_none());
    assert_eq!(md0.size_bytes, 7_813_767_168u64 * 1024);
    assert_eq!(md0.members_total, 4);
    assert_eq!(md0.members_present, 4);
    assert_eq!(md0.member_state, "UUUU");
    assert!(md0.progress.is_none());

    let md1 = &arrays[1];
    assert_eq!(md1.members.len(), 2);
    assert_eq!(md1.member_state, "UU");
}

#[test]
fn parses_degraded_with_resync() {
    let text = "\
Personalities : [raid10]
md0 : active raid10 sda1[0] sdb1[1] sdc1[2] sdd1[3](F)
      7813767168 blocks super 1.2 256K chunks 2 near-copies [4/3] [UUU_]
      [===>.................]  resync = 15.0% (1176224256/7813767168) finish=89.3min speed=123776K/sec
      bitmap: 0/59 pages [0KB], 65536KB chunk

unused devices: <none>
";
    let arrays = parse_mdstat(text);
    assert_eq!(arrays.len(), 1);
    let a = &arrays[0];
    assert_eq!(a.members_total, 4);
    assert_eq!(a.members_present, 3);
    assert_eq!(a.member_state, "UUU_");
    let failed = a.members.iter().find(|m| m.device == "sdd1").unwrap();
    assert_eq!(failed.flag.as_deref(), Some("(F)"));
    let prog = a.progress.as_ref().expect("resync progress");
    assert_eq!(prog.op, "resync");
    let percent: f32 = prog.percent.parse().unwrap_or(0.0);
    assert!((percent - 15.0).abs() < 0.001);
    assert_eq!(prog.eta, "89.3min");
    assert_eq!(prog.speed, "123776K/sec");
}

#[test]
fn parses_empty_when_no_arrays() {
    let text = "Personalities : [raid1]\n\nunused devices: <none>\n";
    let arrays = parse_mdstat(text);
    assert!(arrays.is_empty());
}

#[test]
fn a_member_without_a_slot_number_is_skipped() {
    let text = "md2 : active raid1 sda1[x] sdb1[1]\n      100 blocks [2/1] [_U]\n";
    let arrays = parse_mdstat(text);
    assert_eq!(arrays.len(), 1);
    assert_eq!(arrays[0].members.len(), 1);
    assert_eq!(arrays[0].members[0].device, "sdb1");
    assert_eq!(arrays[0].size_bytes, 102_400);
}

fn num(n: i64) -> Json {
    Json::Number(JsonNumber {
        as_i64: Some(n),
        as_u64: if n >= 0 { Some(n as u64) } else { None },
    })
}

fn obj(members: Vec<(&str, Json)>) -> Json {
    Json::Object(members.into_iter().map(|(k, v)| (k.to_string(), v)).collect())
}

#[test]
fn an_nvme_health_log_fills_the_reading() {
    let doc = obj(vec![
        ("temperature", obj(vec![("current", num(38))])),
        (
            "nvme_smart_health_information_log",
            obj(vec![
                ("temperature", num(41)),
                ("power_on_hours", num(1234)),
                ("power_cycles", num(56)),
                ("percentage_used", num(3)),
                ("available_spare", num(100)),
                ("data_units_read", num(999)),
                ("data_units_written", num(777)),
            ]),
        ),
    ]);
    let t = smart_tick_from_json("nvme0n1", &doc);
    assert_eq!(t.device, "nvme0n1");
    assert_eq!(t.temperature_c, Some(41));
    assert_eq!(t.power_on_hours, Some(1234));
    assert_eq!(t.power_cycles, Some(56));
    assert_eq!(t.percentage_used, Some(3));
    assert_eq!(t.available_spare, Some(100));
    assert_eq!(t.data_units_read, Some(999));
    assert_eq!(t.data_units_written, Some(777));
    assert!(t.ata_attrs.is_empty());
}

#[test]
fn an_ata_table_fills_hours_cycles_and_reallocations() {
    let row = |id: i64, name: &str, raw: i64| {
        obj(vec![
            ("id", num(id)),
            ("name", Json::Str(name.to_string())),
            ("value", num(100)),
            ("worst", num(99)),
            ("thresh", num(10)),
            ("raw", obj(vec![("value", num(raw)), ("string", Json::Str(raw.to_string()))])),
        ])
    };
    let doc = obj(vec![
        ("temperature", obj(vec![("current", num(30))])),
        (
            "ata_smart_attributes",
            obj(vec![(
                "table",
                Json::Array(vec![
                    row(5, "Reallocated_Sector_Ct", 8),
                    row(9, "Power_On_Hours", 4321),
                    row(12, "Power_Cycle_Count", 17),
                ]),
            )]),
        ),
    ]);
    let t = smart_tick_from_json("sda", &doc);
    assert_eq!(t.temperature_c, Some(30));
    assert_eq!(t.power_on_hours, Some(4321));
    assert_eq!(t.power_cycles, Some(17));
    assert_eq!(t.percentage_used, Some(100), "reallocated sectors mark the drive worn");
    assert_eq!(t.ata_attrs.len(), 3);
    assert_eq!(t.ata_attrs[1].name, "Power_On_Hours");
    assert_eq!(t.ata_attrs[1].thresh, Some(10));
}

#[test]
fn a_document_without_readings_gives_an_empty_tick() {
    let t = smart_tick_from_json("sdz", &Json::Null);
    assert_eq!(t.device, "sdz");
    assert_eq!(t.temperature_c, None);
    assert_eq!(t.power_on_hours, None);
    assert!(t.ata_attrs.is_empty());
}

#[test]
fn the_collector_refreshes_on_its_interval_or_when_asked() {
    let mut c = SmartCollector::new(1_000);
    assert!(c.needs_probe());
    c.record_probe(true);
    assert!(!c.needs_probe());
    assert!(c.smartctl_available());
    assert!(c.refresh_due(1_000, false), "the first refresh is due at once");
    c.begin_refresh(1_000);
    assert_eq!(c.last_refresh_at(), Some(1_000));
    let every = c.current_interval();
    assert!(!c.refresh_due(1_000 + every * 1000 - 1, false));
    assert!(c.refresh_due(1_000 + every * 1000, false));
    assert!(c.refresh_due(2_000, true), "a forced refresh is always due");
    c.set_interval(60);
    assert_eq!(c.current_interval(), 60);
    assert_eq!(c.secs_until_next_refresh(31_000), 30);
    let tick = smart_tick_from_json("sda", &Json::Null);
    c.record("sda", tick);
    let got: Option<&SmartTick> = c.reading("sda");
    assert!(got.is_some());
    assert!(c.reading("sdb").is_none());
}

#[test]
fn the_refresh_cycle_probes_then_queries_on_its_interval() {
    let mut c = SmartCollector::new(0);
    assert_eq!(c.refresh_if_due(0), SmartAction::Probe);
    c.record_probe(true);
    assert_eq!(c.refresh_if_due(0), SmartAction::Query, "the first query is not held back");
    assert_eq!(c.last_refresh_at(), Some(0));
    assert_eq!(c.refresh_if_due(1_000), SmartAction::Idle);
    assert_eq!(c.force_refresh(1_000), SmartAction::Query, "r refreshes at once");
    assert_eq!(c.refresh_if_due(1_000 + 300_000), SmartAction::Query);
    let mut none = SmartCollector::new(0);
    none.record_probe(false);
    assert_eq!(none.force_refresh(5), SmartAction::Idle, "without smartctl there is nothing to run");
}

#[test]
fn an_empty_volume_tick_holds_nothing() {
    let t = VolumeTick::empty();
    assert!(t.containers.is_empty() && t.mdraid.is_empty());
}

#[test]
fn only_headers_with_reversed_brackets_are_unreadable() {
    assert!(mdstat_well_formed("Personalities : [raid1]\nmd0 : active raid1 sda1[0] sdb1[1]\n"));
    assert!(mdstat_well_formed("md3 : active raid1 sda1 sdb1[1]\n"), "a token without brackets is skipped, not fatal");
    assert!(!mdstat_well_formed("md0 : active raid1 sda1]0[ sdb1[1]\n"));
    assert!(mdstat_well_formed(""));
}

const APFS_LIST: &str = "\
APFS Containers (2 found)

+-- Container disk3 3D9F5E6A-0000-0000-0000-000000000000
    ====================================================
    APFS Container Reference:     disk3
    Size (Capacity Ceiling):      994662584320 B (994.7 GB)
    Capacity In Use By Volumes:   319709114368 B (319.7 GB) (32.1% used)

    +-< Physical Store disk0s2 1B2C3D4E-0000-0000-0000-000000000000
        -----------------------------------------------------------
        APFS Physical Store Disk:   disk0s2
        Size:                       994662584320 B (994.7 GB)

    +-> Volume disk3s1 AAAA0000-0000-0000-0000-000000000000
        ---------------------------------------------------
        APFS Volume Disk (Role):   disk3s1 (System)
        Name:                      Macintosh HD (Case-insensitive)
        Mount Point:               Not Mounted
        Capacity Consumed:         17797750784 B (17.8 GB)

    +-> Volume disk3s5 BBBB0000-0000-0000-0000-000000000000
        ---------------------------------------------------
        APFS Volume Disk (Role):   disk3s5 (Data)
        Name:                      Macintosh HD - Data (Case-insensitive)
        Mount Point:               /System/Volumes/Data
        Capacity Consumed:         290000000000 B (290.0 GB)

+-- Container disk5 CCCC0000-0000-0000-0000-000000000000
    ====================================================
    Size (Capacity Ceiling):      500000000000 B (500.0 GB)
    Capacity In Use By Volumes:   1000 B (1.0 KB) (0.0% used)
";

#[test]
fn apfs_list_nests_volumes_under_their_container() {
    let cs = parse_apfs_list(APFS_LIST);
    assert_eq!(cs.len(), 2);
    let c = &cs[0];
    assert_eq!(c.bsd, "disk3");
    assert_eq!(c.size_bytes, 994662584320);
    assert_eq!(c.used_bytes, 319709114368);
    assert_eq!(c.physical_store.as_deref(), Some("disk0s2"));
    assert_eq!(c.volumes.len(), 2);
    assert_eq!(c.volumes[0].bsd, "disk3s1");
    assert_eq!(c.volumes[0].role, "System");
    assert_eq!(c.volumes[0].name, "Macintosh HD");
    assert_eq!(c.volumes[0].mount_point, None);
    assert_eq!(c.volumes[0].consumed_bytes, 17797750784);
    assert_eq!(c.volumes[1].bsd, "disk3s5");
    assert_eq!(c.volumes[1].role, "Data");
    assert_eq!(c.volumes[1].name, "Macintosh HD - Data");
    assert_eq!(c.volumes[1].mount_point.as_deref(), Some("/System/Volumes/Data"));
    assert_eq!(c.volumes[1].consumed_bytes, 290000000000);
    let d = &cs[1];
    assert_eq!(d.bsd, "disk5");
    assert_eq!(d.size_bytes, 500000000000);
    assert_eq!(d.used_bytes, 1000);
    assert_eq!(d.physical_store, None);
    assert!(d.volumes.is_empty());
}

#[test]
fn a_store_size_inside_a_volume_does_not_resize_the_container() {
    let text = "\
+-- Container disk1 X
    Size (Capacity Ceiling): 100 B
    +-> Volume disk1s1 Y
        Size (Capacity Ceiling): 999 B
";
    let cs = parse_apfs_list(text);
    assert_eq!(cs.len(), 1);
    assert_eq!(cs[0].size_bytes, 100);
    assert_eq!(cs[0].volumes.len(), 1);
}

#[test]
fn volume_lines_before_any_container_are_dropped() {
    let text = "\
+-> Volume disk9s1 Z
    Name: Orphan
+-- Container disk2 W
";
    let cs = parse_apfs_list(text);
    assert_eq!(cs.len(), 1);
    assert_eq!(cs[0].bsd, "disk2");
    assert!(cs[0].volumes.is_empty());
}

#[test]
fn lines_behind_a_tree_bar_are_not_read() {
    let text = "\
+-- Container disk4 X
|   Size (Capacity Ceiling): 100 B
";
    let cs = parse_apfs_list(text);
    assert_eq!(cs.len(), 1);
    assert_eq!(cs[0].size_bytes, 0);
}

#[test]
fn no_apfs_text_gives_no_containers() {
    assert!(parse_apfs_list("").is_empty());
    assert!(parse_apfs_list("No APFS Containers found\n").is_empty());
}

#[test]
fn first_byte_count_reads_the_first_digit_run() {
    assert_eq!(first_byte_count("  319709114368 B (319.7 GB)"), 319709114368);
    assert_eq!(first_byte_count("abc 12x34"), 12);
    assert_eq!(first_byte_count("no digits"), 0);
    assert_eq!(first_byte_count("99999999999999999999999 B"), 0);
}

#[test]
fn smartctl_output_is_read_from_its_bytes() {
    let out = br#"{"nvme_smart_health_information_log": {"temperature": 41, "power_on_hours": 1200,
        "percentage_used": 3, "available_spare": 100, "data_units_written": 5}}"#;
    let t = smart_tick_from_output("nvme0n1", out).expect("valid JSON");
    assert_eq!(t.device, "nvme0n1");
    assert_eq!(t.temperature_c, Some(41));
    assert_eq!(t.power_on_hours, Some(1200));
    assert_eq!(t.percentage_used, Some(3));
    assert_eq!(t.data_units_written, Some(5));
    assert!(smart_tick_from_output("sda", b"smartctl: command not found").is_none());
    assert!(smart_tick_from_output("sda", b"").is_none());
}

#[test]
fn recording_a_reading_leaves_the_others_alone() {
    let mut c = SmartCollector::new(0);
    let reading = |name: &str, temp: i16| {
        let mut t = smart_tick_from_output(name, b"{}").unwrap();
        t.temperature_c = Some(temp);
        t
    };
    c.record("sda", reading("sda", 30));
    c.record("sdb", reading("sdb", 40));
    c.record("sda", reading("sda", 35));
    assert_eq!(c.reading("sda").unwrap().temperature_c, Some(35));
    assert_eq!(c.reading("sdb").unwrap().temperature_c, Some(40));
    assert_eq!(c.by_device.len(), 2);
    assert_eq!(c.by_device[0].0, "sda");
}
