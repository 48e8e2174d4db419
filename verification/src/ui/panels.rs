//! What the device and SMART panels show, decided from the readings: which
//! columns, which rows, their texts and how loudly each cell reads.

use vstd::prelude::*;
use crate::app::{temp_text, TempUnit, VisibleColumns};
use crate::collect::devices::DeviceTick;
use crate::collect::smart::{SmartCollector, SmartTick};
use crate::collect::io::{sat_mul, saturating_mul};
use crate::ui::dense::{age, age_text, clamp, clamp_text};
use crate::keyed::key_index;
use crate::text::{cat, decimal, format_u64, owned};

verus! {

/// How a cell reads: its colour, in the palette's terms.
#[derive(Debug, Clone, Copy, PartialEq, Eq, Structural)]
pub enum Tone {
    Plain,
    Good,
    Warn,
    Bad,
    Dim,
}

/// The temperature the SMART readings hold for `name`, if any.
pub open spec fn temp_of(smart: SmartCollector, name: Seq<char>) -> Option<i16> {
    match key_index(smart.by_device@, name) {
        Some(i) => smart.by_device@[i].1.temperature_c,
        None => None,
    }
}

/// A temperature cell: the reading in the chosen unit, or a dash.
pub open spec fn temp_cell(t: Option<i16>, unit: TempUnit) -> Seq<char> {
    match t {
        Some(c) => temp_text(unit, c as int),
        None => "\u{2014}"@,
    }
}

/// Hot from 70 °C, warm from 55 °C.
pub open spec fn temp_tone(t: Option<i16>) -> Tone {
    match t {
        Some(c) => if c >= 70 { Tone::Bad } else if c >= 55 { Tone::Warn } else { Tone::Plain },
        None => Tone::Dim,
    }
}

/// The SMART cell of the device list: ok, FAIL, or a dash when unknown.
pub open spec fn smart_cell(ok: Option<bool>) -> Seq<char> {
    match ok {
        Some(true) => "ok"@,
        Some(false) => "FAIL"@,
        None => "\u{2014}"@,
    }
}

/// Green for a passed check, red for a failed one, dim when unknown.
pub open spec fn health_tone(ok: Option<bool>) -> Tone {
    match ok {
        Some(true) => Tone::Good,
        Some(false) => Tone::Bad,
        None => Tone::Dim,
    }
}

/// One device in the Overview's device list.
#[derive(Debug, Clone)]
pub struct SummaryRow {
    pub name: String,
    pub model: String,
    pub size_bytes: u64,
    pub free_bytes: u64,
    pub temp: String,
    pub temp_tone: Tone,
    pub smart: String,
    /// The dot before the name and the SMART cell share it.
    pub smart_tone: Tone,
}

/// The Overview's device list: its title, the columns shown, and a row
/// for each device that fits.
#[derive(Debug, Clone)]
pub struct DeviceSummary {
    pub title: String,
    pub show_size: bool,
    pub show_free: bool,
    pub show_used: bool,
    pub show_temp: bool,
    pub show_smart: bool,
    pub rows: Vec<SummaryRow>,
}

/// The row for device `d`.
pub open spec fn summary_row_ok(r: SummaryRow, d: DeviceTick, smart: SmartCollector, unit: TempUnit) -> bool {
    &&& r.name@ == d.name@
    &&& r.model@ == d.model@
    &&& r.size_bytes == d.size_bytes
    &&& r.free_bytes == (if d.size_bytes >= d.used_bytes { (d.size_bytes - d.used_bytes) as u64 } else { 0 })
    &&& r.temp@ == temp_cell(temp_of(smart, d.name@), unit)
    &&& r.temp_tone == temp_tone(temp_of(smart, d.name@))
    &&& r.smart@ == smart_cell(d.smart_ok)
    &&& r.smart_tone == health_tone(d.smart_ok)
}

fn temp_cell_text(t: Option<i16>, unit: TempUnit) -> (s: String)
    ensures
        s@ == temp_cell(t, unit),
{
    match t {
        Some(c) => unit.format_temp(c),
        None => owned("\u{2014}"),
    }
}

fn smart_temp(smart: &SmartCollector, name: &str) -> (t: Option<i16>)
    ensures
        t == temp_of(*smart, name@),
{
    match smart.reading(name) {
        Some(r) => r.temperature_c,
        None => None,
    }
}

/// The Overview's device list: the columns `cols` turns on, a title
/// counting the attached devices, and a row for each of the first
/// `visible` devices — name, model, size, free bytes, temperature from the
/// SMART readings with its heat, and the SMART verdict.
pub fn device_summary(
    devices: &Vec<DeviceTick>,
    smart: &SmartCollector,
    cols: VisibleColumns,
    unit: TempUnit,
    visible: usize,
) -> (s: DeviceSummary)
    ensures
        s.title@ == decimal(devices@.len() as nat) + " attached"@,
        s.show_size == (cols.0 & VisibleColumns::SIZE != 0),
        s.show_free == (cols.0 & VisibleColumns::FREE != 0),
        s.show_used == (cols.0 & VisibleColumns::USED_PCT != 0),
        s.show_temp == (cols.0 & VisibleColumns::TEMP != 0),
        s.show_smart == (cols.0 & VisibleColumns::SMART != 0),
        s.rows@.len() == if visible < devices@.len() { visible as int } else { devices@.len() as int },
        forall|i: int| 0 <= i < s.rows@.len() ==> summary_row_ok(#[trigger] s.rows@[i], devices@[i], *smart, unit),
{
    let n = if visible < devices.len() { visible } else { devices.len() };
    let mut rows: Vec<SummaryRow> = Vec::new();
    let mut i: usize = 0;
    while i < n
        invariant
            n <= devices@.len(),
            n == (if visible < devices@.len() { visible as int } else { devices@.len() as int }),
            0 <= i <= n,
            rows@.len() == i,
            forall|k: int| 0 <= k < i ==> summary_row_ok(#[trigger] rows@[k], devices@[k], *smart, unit),
        decreases n - i,
    {
        let d = &devices[i];
        let t = smart_temp(smart, d.name.as_str());
        let tone = match t {
            Some(c) => if c >= 70 { Tone::Bad } else if c >= 55 { Tone::Warn } else { Tone::Plain },
            None => Tone::Dim,
        };
        let (smart_text, smart_tone) = match d.smart_ok {
            Some(true) => (owned("ok"), Tone::Good),
            Some(false) => (owned("FAIL"), Tone::Bad),
            None => (owned("\u{2014}"), Tone::Dim),
        };
        let row = SummaryRow {
            name: owned(d.name.as_str()),
            model: owned(d.model.as_str()),
            size_bytes: d.size_bytes,
            free_bytes: if d.size_bytes >= d.used_bytes { d.size_bytes - d.used_bytes } else { 0 },
            temp: temp_cell_text(t, unit),
            temp_tone: tone,
            smart: smart_text,
            smart_tone,
        };
        rows.push(row);
        i += 1;
    }
    DeviceSummary {
        title: cat(format_u64(devices.len() as u64), " attached"),
        show_size: cols.contains(VisibleColumns::SIZE),
        show_free: cols.contains(VisibleColumns::FREE),
        show_used: cols.contains(VisibleColumns::USED_PCT),
        show_temp: cols.contains(VisibleColumns::TEMP),
        show_smart: cols.contains(VisibleColumns::SMART),
        rows,
    }
}

} // verus!

verus! {

// ── the dense view's SMART box ──────────────────────────────────────────

/// The SMART reading held for `name`, if any.
pub open spec fn reading_of(smart: SmartCollector, name: Seq<char>) -> Option<SmartTick> {
    match key_index(smart.by_device@, name) {
        Some(i) => Some(smart.by_device@[i].1),
        None => None,
    }
}

/// The wear a reading reports, in percent of rated life.
pub open spec fn wear_of(t: Option<SmartTick>) -> Option<u8> {
    match t {
        Some(r) => r.percentage_used,
        None => None,
    }
}

/// A device wants attention: its SMART check failed, or it has used 80%
/// or more of its rated life.
pub open spec fn smart_warns(d: DeviceTick, t: Option<SmartTick>) -> bool {
    d.smart_ok == Some(false) || (wear_of(t) matches Some(w) && w >= 80)
}

/// A percentage cell, or `--` where there is no reading.
pub open spec fn percent_cell(v: Option<u8>) -> Seq<char> {
    match v {
        Some(p) => decimal(p as nat) + "%"@,
        None => "--"@,
    }
}

/// The HEALTH cell: PASSED, FAILED, or `--` when unknown.
pub open spec fn health_cell(ok: Option<bool>) -> Seq<char> {
    match ok {
        Some(true) => "PASSED"@,
        Some(false) => "FAILED"@,
        None => "--"@,
    }
}

/// One device in the SMART box.
#[derive(Debug, Clone)]
pub struct SmartRow {
    pub name: String,
    pub warn: bool,
    /// The dot before the name.
    pub dot: Tone,
    pub health: String,
    pub health_tone: Tone,
    pub wear: Option<u8>,
    pub wear_text: String,
    pub wear_tone: Tone,
    /// Bytes written: NVMe data units of 512 000 bytes, saturating.
    pub written_bytes: Option<u64>,
    pub temp: String,
    pub spare: String,
}

/// The row for device `d`.
pub open spec fn smart_row_ok(r: SmartRow, d: DeviceTick, smart: SmartCollector, unit: TempUnit) -> bool {
    let t = reading_of(smart, d.name@);
    &&& r.name@ == d.name@
    &&& r.warn == smart_warns(d, t)
    &&& r.dot == (if smart_warns(d, t) { Tone::Warn } else if d.smart_ok == Some(true) { Tone::Good } else { Tone::Dim })
    &&& r.health@ == health_cell(d.smart_ok)
    &&& r.health_tone == health_tone(d.smart_ok)
    &&& r.wear == wear_of(t)
    &&& r.wear_text@ == percent_cell(wear_of(t))
    &&& r.wear_tone == (if wear_of(t) matches Some(w) && w >= 80 { Tone::Bad } else { Tone::Dim })
    &&& r.written_bytes == (match t {
        Some(x) => match x.data_units_written {
            Some(u) => Some(sat_mul(u, 512_000)),
            None => None,
        },
        None => None,
    })
    &&& r.temp@ == (match t {
        Some(x) => match x.temperature_c {
            Some(c) => temp_text(unit, c as int),
            None => "--"@,
        },
        None => "--"@,
    })
    &&& r.spare@ == percent_cell(match t { Some(x) => x.available_spare, None => None })
}

/// How many of `devices` want attention.
pub open spec fn warn_count(devices: Seq<DeviceTick>, smart: SmartCollector) -> nat
    decreases devices.len(),
{
    if devices.len() == 0 {
        0
    } else {
        warn_count(devices.drop_last(), smart)
            + if smart_warns(devices.last(), reading_of(smart, devices.last().name@)) { 1nat } else { 0nat }
    }
}

/// The SMART box: its sub-title, verdict and footer, its column positions
/// for an inner width, and a row per device.
#[derive(Debug, Clone)]
pub struct SmartBox {
    pub sub: String,
    pub passed: usize,
    pub right: String,
    pub right_tone: Tone,
    pub foot: String,
    pub wear_w: u16,
    pub written_x: u16,
    pub temp_x: u16,
    pub spare_x: u16,
    pub rows: Vec<SmartRow>,
}

fn percent_text(v: Option<u8>) -> (s: String)
    ensures
        s@ == percent_cell(v),
{
    match v {
        Some(p) => cat(format_u64(p as u64), "%"),
        None => owned("--"),
    }
}

fn smart_row(d: &DeviceTick, smart: &SmartCollector, unit: TempUnit) -> (r: SmartRow)
    ensures
        smart_row_ok(r, *d, *smart, unit),
{
    let t = smart.reading(d.name.as_str());
    let wear = match t {
        Some(x) => x.percentage_used,
        None => None,
    };
    let worn = match wear {
        Some(w) => w >= 80,
        None => false,
    };
    let warn = d.smart_ok == Some(false) || worn;
    let (health, health_tone) = match d.smart_ok {
        Some(true) => (owned("PASSED"), Tone::Good),
        Some(false) => (owned("FAILED"), Tone::Bad),
        None => (owned("--"), Tone::Dim),
    };
    let written_bytes = match t {
        Some(x) => match x.data_units_written {
            Some(u) => Some(saturating_mul(u, 512_000)),
            None => None,
        },
        None => None,
    };
    let temp = match t {
        Some(x) => match x.temperature_c {
            Some(c) => unit.format_temp(c),
            None => owned("--"),
        },
        None => owned("--"),
    };
    let spare = percent_text(match t {
        Some(x) => x.available_spare,
        None => None,
    });
    SmartRow {
        name: owned(d.name.as_str()),
        warn,
        dot: if warn { Tone::Warn } else if d.smart_ok == Some(true) { Tone::Good } else { Tone::Dim },
        health,
        health_tone,
        wear,
        wear_text: percent_text(wear),
        wear_tone: if worn { Tone::Bad } else { Tone::Dim },
        written_bytes,
        temp,
        spare,
    }
}

/// The SMART box for `devices` at inner width `inner_w`, at `now_ms` on
/// the SMART collector's clock:
/// - the sub-title counts the devices; the verdict is `pass/total passed`,
///   green when none wants attention and yellow otherwise, or
///   `smartctl not installed`, dim;
/// - the footer says how long ago the last poll was, or that none has
///   been, or how to install `smartctl`;
/// - SPARE sits 7 columns in from the right, TEMP 7 before it, WRITTEN 10
///   before that, and WEAR gets what is left after 22 columns, at most 16;
/// - each device's row as [`smart_row_ok`] says.
pub fn smart_box(devices: &Vec<DeviceTick>, smart: &SmartCollector, inner_w: u16, now_ms: u64, unit: TempUnit) -> (b: SmartBox)
    ensures
        b.sub@ == decimal(devices@.len() as nat) + " physical"@,
        b.passed == devices@.len() - warn_count(devices@, *smart),
        b.right@ == (if smart.have_smartctl == Some(true) {
            decimal(b.passed as nat) + "/"@ + decimal(devices@.len() as nat) + " passed"@
        } else {
            "smartctl not installed"@
        }),
        b.right_tone == (if smart.have_smartctl != Some(true) { Tone::Dim }
            else if warn_count(devices@, *smart) == 0 { Tone::Good } else { Tone::Warn }),
        b.foot@ == (if smart.have_smartctl != Some(true) {
            "brew install smartmontools"@
        } else {
            match smart.last_refresh_ms {
                Some(t) => "polled "@ + age_text((if now_ms >= t { (now_ms - t) / 1000 } else { 0 }) as nat) + " ago"@,
                None => "not polled yet"@,
            }
        }),
        b.spare_x == (if inner_w >= 7 { inner_w - 7 } else { 0 }),
        b.temp_x == (if b.spare_x >= 7 { b.spare_x - 7 } else { 0 }),
        b.written_x == (if b.temp_x >= 10 { b.temp_x - 10 } else { 0 }),
        b.wear_w == (if b.written_x >= 22 + 16 { 16 } else if b.written_x >= 22 { b.written_x - 22 } else { 0 }),
        b.rows@.len() == devices@.len(),
        forall|i: int| 0 <= i < devices@.len() ==> smart_row_ok(#[trigger] b.rows@[i], devices@[i], *smart, unit),
{
    let mut rows: Vec<SmartRow> = Vec::new();
    let mut warned: usize = 0;
    let mut i: usize = 0;
    while i < devices.len()
        invariant
            0 <= i <= devices@.len(),
            rows@.len() == i,
            warned as nat == warn_count(devices@.take(i as int), *smart),
            warned <= i,
            forall|k: int| 0 <= k < i ==> smart_row_ok(#[trigger] rows@[k], devices@[k], *smart, unit),
        decreases devices@.len() - i,
    {
        let r = smart_row(&devices[i], smart, unit);
        proof {
            assert(devices@.take(i + 1).drop_last() =~= devices@.take(i as int));
            assert(devices@.take(i + 1).last() == devices@[i as int]);
        }
        if r.warn {
            warned += 1;
        }
        rows.push(r);
        i += 1;
    }
    proof {
        assert(devices@.take(devices@.len() as int) =~= devices@);
    }
    let n = devices.len();
    let passed = n - warned;
    let available = smart.smartctl_available();
    let right = if available {
        cat(cat(cat(format_u64(passed as u64), "/"), format_u64(n as u64).as_str()), " passed")
    } else {
        owned("smartctl not installed")
    };
    let right_tone = if !available { Tone::Dim } else if warned == 0 { Tone::Good } else { Tone::Warn };
    let foot = if !available {
        owned("brew install smartmontools")
    } else {
        match smart.last_refresh_at() {
            Some(t) => {
                let secs = if now_ms >= t { (now_ms - t) / 1000 } else { 0 };
                cat(cat(owned("polled "), age(secs).as_str()), " ago")
            },
            None => owned("not polled yet"),
        }
    };
    let spare_x = if inner_w >= 7 { inner_w - 7 } else { 0 };
    let temp_x = if spare_x >= 7 { spare_x - 7 } else { 0 };
    let written_x = if temp_x >= 10 { temp_x - 10 } else { 0 };
    let wear_w = if written_x >= 22 + 16 { 16 } else if written_x >= 22 { written_x - 22 } else { 0 };
    SmartBox {
        sub: cat(format_u64(n as u64), " physical"),
        passed,
        right,
        right_tone,
        foot,
        wear_w,
        written_x,
        temp_x,
        spare_x,
        rows,
    }
}

} // verus!

verus! {

// ── the dense view's file box ───────────────────────────────────────────

/// The columns of the file box.
#[derive(Debug, Clone, Copy, PartialEq, Eq, Structural)]
pub enum FileCol {
    File,
    Dir,
    Kind,
    Rate,
    Total,
    Seen,
    Spark,
}

/// A column of the file box: where it starts in the box, how wide it is,
/// and whether its values are right-aligned.
#[derive(Debug, Clone, Copy, PartialEq, Eq, Structural)]
pub struct FileColumn {
    pub col: FileCol,
    pub x: u16,
    pub w: u16,
    pub right: bool,
}

/// The sparkline column's width: only in the wide layout, from 108
/// columns, growing to 18.
pub open spec fn file_spark_w(w: u16, wide: bool) -> int {
    if wide && w >= 108 { if w - 96 <= 18 { w - 96 } else { 18 } } else { 0 }
}

/// DIR takes the slack once everything else has its width, up to 44.
pub open spec fn file_dir_w(w: u16, wide: bool) -> int {
    let fixed_right: int = 10 + (if w >= 68 { 8int } else { 0int }) + (if w >= 76 { 7int } else { 0int }) + file_spark_w(w, wide);
    let need: int = 29 + (if w >= 60 { 8int } else { 0int }) + fixed_right;
    if w >= need { if w - need <= 44 { w - need } else { 44 } } else { 0 }
}

pub open spec fn one_if(b: bool, c: FileColumn) -> Seq<FileColumn> {
    if b { seq![c] } else { Seq::empty() }
}

/// The file box's columns at inner width `w`: whole columns are dropped as
/// the box narrows — SEEN below 76, TOTAL below 68, KIND below 60, the
/// sparkline outside the wide layout or below 108, DIR when no width is
/// left for it — each starting one past the end of the one before.
pub open spec fn file_columns(w: u16, wide: bool) -> Seq<FileColumn> {
    let spark = file_spark_w(w, wide);
    let dir_w = file_dir_w(w, wide);
    let x1: int = if dir_w > 0 { 28 + dir_w + 1 } else { 28 };
    let x2: int = x1 + (if w >= 60 { 8int } else { 0int });
    let x3: int = x2 + 10;
    let x4: int = x3 + (if w >= 68 { 8int } else { 0int });
    let x5: int = x4 + (if w >= 76 { 7int } else { 0int });
    seq![FileColumn { col: FileCol::File, x: 3, w: 24, right: false }]
        + one_if(dir_w > 0, FileColumn { col: FileCol::Dir, x: 28, w: dir_w as u16, right: false })
        + one_if(w >= 60, FileColumn { col: FileCol::Kind, x: x1 as u16, w: 7, right: false })
        + seq![FileColumn { col: FileCol::Rate, x: x2 as u16, w: 9, right: true }]
        + one_if(w >= 68, FileColumn { col: FileCol::Total, x: x3 as u16, w: 7, right: true })
        + one_if(w >= 76, FileColumn { col: FileCol::Seen, x: x4 as u16, w: 6, right: true })
        + one_if(spark > 0, FileColumn { col: FileCol::Spark, x: x5 as u16, w: spark as u16, right: false })
}

/// The first row of the window: the offset, kept on the list.
pub open spec fn files_first(total: nat, offset: nat) -> nat {
    let top: nat = if total >= 1 { (total - 1) as nat } else { 0 };
    if offset <= top { offset } else { top }
}

/// One past the last row of the window.
pub open spec fn files_last(total: nat, offset: nat, visible: nat) -> nat {
    let f = files_first(total, offset);
    if f + visible <= total { f + visible } else { total }
}

/// What the file box shows: its columns, the rows `[first, last)` of the
/// list, its sub-title and its footer.
#[derive(Debug, Clone)]
pub struct FilesPlan {
    pub columns: Vec<FileColumn>,
    pub first: usize,
    pub last: usize,
    pub sub: String,
    pub foot: String,
}

fn push_if(v: &mut Vec<FileColumn>, b: bool, c: FileColumn)
    ensures
        final(v)@ == old(v)@ + one_if(b, c),
{
    if b {
        v.push(c);
    } else {
        assert(old(v)@ + one_if(b, c) =~= old(v)@);
    }
}

/// The file box at inner width `inner_w`, `visible` rows high, over
/// `total` files scrolled to `offset`, with the filter text `filter`:
/// the columns of [`file_columns`]; the rows from the offset, kept on the
/// list, for as many as fit; `N active`, or `N matching "…"` with the
/// filter cut to 20 characters; and `a-b of n`, or `nothing changing`.
pub fn files_plan(inner_w: u16, wide: bool, visible: usize, total: usize, filter: &str, offset: usize) -> (p: FilesPlan)
    ensures
        p.columns@ == file_columns(inner_w, wide),
        p.first == files_first(total as nat, offset as nat),
        p.last == files_last(total as nat, offset as nat, visible as nat),
        p.sub@ == (if filter@.len() == 0 {
            decimal(total as nat) + " active"@
        } else {
            decimal(total as nat) + " matching \""@ + clamp_text(filter@, 20) + "\""@
        }),
        p.foot@ == (if total == 0 {
            "nothing changing"@
        } else {
            decimal(p.first as nat + 1) + "-"@ + decimal(p.last as nat) + " of "@ + decimal(total as nat)
        }),
{
    let w = inner_w;
    let spark: u16 = if wide && w >= 108 { if w - 96 <= 18 { w - 96 } else { 18 } } else { 0 };
    let fixed_right: u16 = 10 + (if w >= 68 { 8 } else { 0 }) + (if w >= 76 { 7 } else { 0 }) + spark;
    let need: u16 = 29 + (if w >= 60 { 8 } else { 0 }) + fixed_right;
    let dir_w: u16 = if w >= need { if w - need <= 44 { w - need } else { 44 } } else { 0 };
    assert(spark as int == file_spark_w(w, wide));
    assert(dir_w as int == file_dir_w(w, wide));
    let x1: u16 = if dir_w > 0 { 28 + dir_w + 1 } else { 28 };
    let x2: u16 = x1 + (if w >= 60 { 8 } else { 0 });
    let x3: u16 = x2 + 10;
    let x4: u16 = x3 + (if w >= 68 { 8 } else { 0 });
    let x5: u16 = x4 + (if w >= 76 { 7 } else { 0 });
    let mut columns: Vec<FileColumn> = Vec::new();
    columns.push(FileColumn { col: FileCol::File, x: 3, w: 24, right: false });
    push_if(&mut columns, dir_w > 0, FileColumn { col: FileCol::Dir, x: 28, w: dir_w, right: false });
    push_if(&mut columns, w >= 60, FileColumn { col: FileCol::Kind, x: x1, w: 7, right: false });
    columns.push(FileColumn { col: FileCol::Rate, x: x2, w: 9, right: true });
    push_if(&mut columns, w >= 68, FileColumn { col: FileCol::Total, x: x3, w: 7, right: true });
    push_if(&mut columns, w >= 76, FileColumn { col: FileCol::Seen, x: x4, w: 6, right: true });
    push_if(&mut columns, spark > 0, FileColumn { col: FileCol::Spark, x: x5, w: spark, right: false });
    proof {
        assert(columns@ =~= file_columns(w, wide));
    }
    let top = if total >= 1 { total - 1 } else { 0 };
    let first = if offset <= top { offset } else { top };
    let last = if visible <= total - first { first + visible } else { total };
    let sub = if filter.unicode_len() == 0 {
        cat(format_u64(total as u64), " active")
    } else {
        cat(cat(cat(format_u64(total as u64), " matching \""), clamp(filter, 20).as_str()), "\"")
    };
    let foot = if total == 0 {
        owned("nothing changing")
    } else {
        cat(cat(cat(cat(format_u64(first as u64 + 1), "-"), format_u64(last as u64).as_str()), " of "),
            format_u64(total as u64).as_str())
    };
    FilesPlan { columns, first, last, sub, foot }
}

} // verus!
