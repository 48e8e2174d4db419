use diskwatch::app::{TempUnit, VisibleColumns};
use diskwatch::collect::devices::{DeviceKind, DeviceTick};
use diskwatch::collect::smart::{smart_tick_from_output, SmartCollector};
use diskwatch::ui::panels::{device_summary, files_plan, smart_box, FileCol, Tone};

fn disk(name: &str, size: u64, used: u64, ok: Option<bool>) -> DeviceTick {
    DeviceTick {
        name: name.to_string(),
        kind: DeviceKind::Nvme,
        model: "M".to_string(),
        bus: "PCIe / NVMe".to_string(),
        size_bytes: size,
        used_bytes: used,
        is_removable: false,
        firmware: None,
        serial: None,
        smart_ok: ok,
        idle: false,
    }
}

fn collector_with(readings: &[(&str, &[u8])]) -> SmartCollector {
    let mut c = SmartCollector::new(0);
    for (name, json) in readings {
        c.record(name, smart_tick_from_output(name, json).unwrap());
    }
    c
}

#[test]
fn the_device_summary_marks_heat_and_health() {
    let devices = vec![disk("nvme0n1", 1000, 400, Some(true)), disk("sda", 500, 600, Some(false)), disk("sdb", 10, 1, None)];
    let smart = collector_with(&[
        ("nvme0n1", br#"{"temperature": {"current": 71}}"#),
        ("sda", br#"{"temperature": {"current": 55}}"#),
    ]);
    let s = device_summary(&devices, &smart, VisibleColumns(VisibleColumns::SIZE | VisibleColumns::TEMP), TempUnit::Celsius, 2);
    assert_eq!(s.title, "3 attached");
    assert!(s.show_size && s.show_temp && !s.show_free && !s.show_used && !s.show_smart);
    assert_eq!(s.rows.len(), 2, "only the rows that fit");
    assert_eq!(s.rows[0].free_bytes, 600);
    assert_eq!(s.rows[0].temp_tone, Tone::Bad);
    assert_eq!(s.rows[0].smart, "ok");
    assert_eq!(s.rows[1].free_bytes, 0, "used beyond size leaves nothing free");
    assert_eq!(s.rows[1].temp_tone, Tone::Warn);
    assert_eq!(s.rows[1].smart, "FAIL");
    assert_eq!(s.rows[1].smart_tone, Tone::Bad);
    let all = device_summary(&devices, &smart, VisibleColumns(VisibleColumns::ALL), TempUnit::Celsius, 10);
    assert_eq!(all.rows[2].temp, "\u{2014}");
    assert_eq!(all.rows[2].temp_tone, Tone::Dim);
    assert_eq!(all.rows[2].smart, "\u{2014}");
}

#[test]
fn the_smart_box_counts_what_passed_and_places_its_columns() {
    let devices = vec![disk("nvme0n1", 1, 0, Some(true)), disk("nvme1n1", 1, 0, Some(true)), disk("sda", 1, 0, Some(false))];
    let mut smart = collector_with(&[
        ("nvme0n1", br#"{"nvme_smart_health_information_log": {"percentage_used": 3, "available_spare": 100, "data_units_written": 2, "temperature": 40}}"#),
        ("nvme1n1", br#"{"nvme_smart_health_information_log": {"percentage_used": 85}}"#),
    ]);
    smart.record_probe(true);
    smart.begin_refresh(10_000);
    let b = smart_box(&devices, &smart, 100, 130_000, TempUnit::Celsius);
    assert_eq!(b.sub, "3 physical");
    assert_eq!(b.passed, 1, "a worn drive and a failed one want attention");
    assert_eq!(b.right, "1/3 passed");
    assert_eq!(b.right_tone, Tone::Warn);
    assert_eq!(b.foot, "polled 2m ago");
    assert_eq!((b.spare_x, b.temp_x, b.written_x, b.wear_w), (93, 86, 76, 16));
    assert_eq!(b.rows[0].health, "PASSED");
    assert_eq!(b.rows[0].wear_text, "3%");
    assert_eq!(b.rows[0].written_bytes, Some(1_024_000));
    assert_eq!(b.rows[0].temp, "40°C");
    assert_eq!(b.rows[0].spare, "100%");
    assert!(b.rows[1].warn);
    assert_eq!(b.rows[1].wear_tone, Tone::Bad);
    assert_eq!(b.rows[2].health, "FAILED");
    assert_eq!(b.rows[2].wear_text, "--");
    let narrow = smart_box(&devices, &smart, 40, 130_000, TempUnit::Celsius);
    assert_eq!((narrow.spare_x, narrow.temp_x, narrow.written_x, narrow.wear_w), (33, 26, 16, 0));
    let none = smart_box(&devices, &SmartCollector::new(0), 100, 0, TempUnit::Celsius);
    assert_eq!(none.right, "smartctl not installed");
    assert_eq!(none.right_tone, Tone::Dim);
    assert_eq!(none.foot, "brew install smartmontools");
}

#[test]
fn the_file_box_drops_whole_columns_as_it_narrows() {
    let cols = |w: u16, wide: bool| files_plan(w, wide, 10, 5, "", 0).columns.iter().map(|c| c.col).collect::<Vec<_>>();
    assert_eq!(cols(120, true), vec![FileCol::File, FileCol::Dir, FileCol::Kind, FileCol::Rate, FileCol::Total, FileCol::Seen, FileCol::Spark]);
    assert_eq!(cols(120, false), vec![FileCol::File, FileCol::Dir, FileCol::Kind, FileCol::Rate, FileCol::Total, FileCol::Seen]);
    assert_eq!(cols(70, false), vec![FileCol::File, FileCol::Dir, FileCol::Kind, FileCol::Rate, FileCol::Total]);
    assert_eq!(cols(62, false), vec![FileCol::File, FileCol::Dir, FileCol::Kind, FileCol::Rate]);
    assert_eq!(cols(38, false), vec![FileCol::File, FileCol::Rate]);
    let p = files_plan(120, true, 10, 5, "", 0);
    let dir = p.columns[1];
    assert_eq!((dir.x, dir.w), (28, 120 - 29 - 8 - 10 - 8 - 7 - 18));
    let spark = p.columns[6];
    assert_eq!(spark.w, 18);
    assert_eq!(spark.x, 28 + dir.w + 1 + 8 + 10 + 8 + 7);
}

#[test]
fn the_file_box_counts_and_pages_its_rows() {
    let p = files_plan(100, true, 4, 10, "", 8);
    assert_eq!((p.first, p.last), (8, 10));
    assert_eq!(p.sub, "10 active");
    assert_eq!(p.foot, "9-10 of 10");
    let q = files_plan(100, true, 4, 3, "log", 0);
    assert_eq!(q.sub, "3 matching \"log\"");
    assert_eq!(q.foot, "1-3 of 3");
    let e = files_plan(100, true, 4, 0, "", 5);
    assert_eq!((e.first, e.last), (0, 0));
    assert_eq!(e.foot, "nothing changing");
}
