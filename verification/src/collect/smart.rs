//! SMART attributes from `smartctl -A --json`: the headline fields —
//! temperature, power-on hours, power cycles and NVMe wear — and the ATA
//! attribute table, read out of the JSON `smartctl` prints.
//!
//! Running `smartctl` and parsing its output into [`Json`] are the
//! caller's part; what the document says is decided here.

use vstd::prelude::*;
use crate::text::owned;

verus! {

/// A JSON number, by the readings the logic takes of it.
#[derive(Debug, Clone, Copy, PartialEq, Eq, Structural)]
pub struct JsonNumber {
    /// The number as an `i64`, where it is an integer that fits.
    pub as_i64: Option<i64>,
    /// The number as a `u64`, where it is a non-negative integer that fits.
    pub as_u64: Option<u64>,
}

/// A JSON document.
#[derive(Debug)]
pub enum Json {
    Null,
    Bool(bool),
    Number(JsonNumber),
    Str(String),
    Array(Vec<Json>),
    /// An object's members, each key once.
    Object(Vec<(String, Json)>),
}

/// The member `key` of an object's members.
pub open spec fn member(es: Seq<(String, Json)>, key: Seq<char>) -> Option<Json>
    decreases es.len(),
{
    if es.len() == 0 {
        None
    } else if es[0].0@ == key {
        Some(es[0].1)
    } else {
        member(es.drop_first(), key)
    }
}

/// `Value::get`: an object's member; `None` for anything else.
pub open spec fn jget(v: Option<Json>, key: Seq<char>) -> Option<Json> {
    match v {
        Some(Json::Object(es)) => member(es@, key),
        _ => None,
    }
}

/// `Value::as_i64`.
pub open spec fn as_i64(v: Option<Json>) -> Option<i64> {
    match v {
        Some(Json::Number(n)) => n.as_i64,
        _ => None,
    }
}

/// `Value::as_u64`.
pub open spec fn as_u64(v: Option<Json>) -> Option<u64> {
    match v {
        Some(Json::Number(n)) => n.as_u64,
        _ => None,
    }
}

/// `Value::as_str`.
pub open spec fn as_str(v: Option<Json>) -> Option<Seq<char>> {
    match v {
        Some(Json::Str(s)) => Some(s@),
        _ => None,
    }
}

fn get<'a>(v: Option<&'a Json>, key: &str) -> (r: Option<&'a Json>)
    ensures
        match r {
            Some(x) => jget(match v { Some(j) => Some(*j), None => None }, key@) == Some(*x),
            None => jget(match v { Some(j) => Some(*j), None => None }, key@) is None,
        },
{
    match v {
        Some(Json::Object(es)) => {
            let mut i: usize = 0;
            proof {
                assert(es@.skip(0) =~= es@);
                assert(jget(match v { Some(j) => Some(*j), None => None }, key@) == member(es@, key@));
            }
            while i < es.len()
                invariant
                    0 <= i <= es@.len(),
                    member(es@, key@) == member(es@.skip(i as int), key@),
                    jget(match v { Some(j) => Some(*j), None => None }, key@) == member(es@, key@),
                decreases es@.len() - i,
            {
                proof {
                    assert(es@.skip(i as int)[0] == es@[i as int]);
                    assert(es@.skip(i as int).drop_first() =~= es@.skip(i + 1));
                }
                if crate::text::str_eq(es[i].0.as_str(), key) {
                    proof {
                        assert(es@.skip(i as int).len() > 0);
                        assert(member(es@.skip(i as int), key@) == Some(es@[i as int].1));
                    }
                    return Some(&es[i].1);
                }
                i += 1;
            }
            proof {
                assert(es@.skip(i as int).len() == 0);
            }
            None
        },
        _ => None,
    }
}

fn num_i64(v: Option<&Json>) -> (r: Option<i64>)
    ensures
        r == as_i64(match v { Some(j) => Some(*j), None => None }),
{
    match v {
        Some(Json::Number(n)) => n.as_i64,
        _ => None,
    }
}

fn num_u64(v: Option<&Json>) -> (r: Option<u64>)
    ensures
        r == as_u64(match v { Some(j) => Some(*j), None => None }),
{
    match v {
        Some(Json::Number(n)) => n.as_u64,
        _ => None,
    }
}

fn text_of(v: Option<&Json>) -> (r: Option<String>)
    ensures
        crate::config::opt_view(r) == as_str(match v { Some(j) => Some(*j), None => None }),
{
    match v {
        Some(Json::Str(s)) => Some(owned(s.as_str())),
        _ => None,
    }
}

} // verus!

verus! {

/// One row of an ATA drive's attribute table.
#[derive(Debug, Clone)]
pub struct AtaAttr {
    pub id: u8,
    pub name: String,
    pub value: u32,
    pub worst: u32,
    pub thresh: Option<u32>,
    pub raw: String,
}

/// The SMART reading of one device.
#[derive(Debug, Clone)]
pub struct SmartTick {
    pub device: String,
    pub temperature_c: Option<i16>,
    pub power_on_hours: Option<u64>,
    pub power_cycles: Option<u64>,
    pub percentage_used: Option<u8>,
    pub available_spare: Option<u8>,
    pub data_units_read: Option<u64>,
    pub data_units_written: Option<u64>,
    /// Free-form attributes, for ATA drives.
    pub ata_attrs: Vec<AtaAttr>,
}

pub ghost struct AtaModel {
    pub id: u8,
    pub name: Seq<char>,
    pub value: u32,
    pub worst: u32,
    pub thresh: Option<u32>,
    pub raw: Seq<char>,
}

pub ghost struct SmartModel {
    pub device: Seq<char>,
    pub temperature_c: Option<i16>,
    pub power_on_hours: Option<u64>,
    pub power_cycles: Option<u64>,
    pub percentage_used: Option<u8>,
    pub available_spare: Option<u8>,
    pub data_units_read: Option<u64>,
    pub data_units_written: Option<u64>,
    pub ata_attrs: Seq<AtaModel>,
}

impl View for AtaAttr {
    type V = AtaModel;

    open spec fn view(&self) -> AtaModel {
        AtaModel { id: self.id, name: self.name@, value: self.value, worst: self.worst, thresh: self.thresh, raw: self.raw@ }
    }
}

impl View for SmartTick {
    type V = SmartModel;

    open spec fn view(&self) -> SmartModel {
        SmartModel {
            device: self.device@,
            temperature_c: self.temperature_c,
            power_on_hours: self.power_on_hours,
            power_cycles: self.power_cycles,
            percentage_used: self.percentage_used,
            available_spare: self.available_spare,
            data_units_read: self.data_units_read,
            data_units_written: self.data_units_written,
            ata_attrs: self.ata_attrs@.map_values(|a: AtaAttr| a@),
        }
    }
}

pub open spec fn opt_i16(o: Option<i64>) -> Option<i16> {
    match o {
        Some(n) => Some(n as i16),
        None => None,
    }
}

pub open spec fn opt_u8(o: Option<u64>) -> Option<u8> {
    match o {
        Some(n) => Some(n as u8),
        None => None,
    }
}

/// The temperature summary `smartctl` emits for every drive: nested as
/// `.temperature.current`, or (in some versions) a bare `.temperature`.
pub open spec fn summary_temperature(v: Option<Json>) -> Option<i16> {
    let t = jget(v, "temperature"@);
    match as_i64(jget(t, "current"@)) {
        Some(c) => Some(c as i16),
        None => opt_i16(as_i64(t)),
    }
}

/// The reading before the ATA table: the summary temperature, overridden
/// by the NVMe health log's fields where the drive has one.
pub open spec fn nvme_reading(name: Seq<char>, v: Option<Json>) -> SmartModel {
    let base = SmartModel {
        device: name,
        temperature_c: summary_temperature(v),
        power_on_hours: None,
        power_cycles: None,
        percentage_used: None,
        available_spare: None,
        data_units_read: None,
        data_units_written: None,
        ata_attrs: Seq::empty(),
    };
    let log = jget(v, "nvme_smart_health_information_log"@);
    if log is Some {
        SmartModel {
            temperature_c: opt_i16(as_i64(jget(log, "temperature"@))),
            power_on_hours: as_u64(jget(log, "power_on_hours"@)),
            power_cycles: as_u64(jget(log, "power_cycles"@)),
            percentage_used: opt_u8(as_u64(jget(log, "percentage_used"@))),
            available_spare: opt_u8(as_u64(jget(log, "available_spare"@))),
            data_units_read: as_u64(jget(log, "data_units_read"@)),
            data_units_written: as_u64(jget(log, "data_units_written"@)),
            ..base
        }
    } else {
        base
    }
}

/// The attribute one row of the ATA table describes.
pub open spec fn ata_attr(a: Json, id: u64) -> AtaModel {
    let row = Some(a);
    AtaModel {
        id: id as u8,
        name: match as_str(jget(row, "name"@)) { Some(s) => s, None => Seq::empty() },
        value: (match as_u64(jget(row, "value"@)) { Some(n) => n, None => 0 }) as u32,
        worst: (match as_u64(jget(row, "worst"@)) { Some(n) => n, None => 0 }) as u32,
        thresh: match as_u64(jget(row, "thresh"@)) { Some(n) => Some(n as u32), None => None },
        raw: match as_str(jget(jget(row, "raw"@), "string"@)) { Some(s) => s, None => Seq::empty() },
    }
}

/// One row of the ATA table, recorded and — for power-on hours (9),
/// power cycles (12) and reallocated sectors (5) — lifted into the
/// headline fields: hours and cycles only where nothing set them, and a
/// non-zero reallocated count marks the drive worn.
pub open spec fn ata_step(t: SmartModel, a: Json) -> SmartModel {
    match as_u64(jget(Some(a), "id"@)) {
        None => t,
        Some(id) => {
            let t2 = SmartModel { ata_attrs: t.ata_attrs.push(ata_attr(a, id)), ..t };
            let raw_int = as_u64(jget(jget(Some(a), "raw"@), "value"@));
            let code = id as u8;
            if code == 9 && t2.power_on_hours is None {
                SmartModel { power_on_hours: raw_int, ..t2 }
            } else if code == 12 && t2.power_cycles is None {
                SmartModel { power_cycles: raw_int, ..t2 }
            } else if code == 5 {
                SmartModel {
                    percentage_used: match raw_int {
                        Some(r) => if r == 0 { t2.percentage_used } else { Some(100u8) },
                        None => t2.percentage_used,
                    },
                    ..t2
                }
            } else {
                t2
            }
        },
    }
}

pub open spec fn ata_fold(t: SmartModel, rows: Seq<Json>) -> SmartModel
    decreases rows.len(),
{
    if rows.len() == 0 {
        t
    } else {
        ata_step(ata_fold(t, rows.drop_last()), rows.last())
    }
}

/// The ATA attribute table, if the document has one.
pub open spec fn ata_table(v: Option<Json>) -> Option<Seq<Json>> {
    match jget(jget(v, "ata_smart_attributes"@), "table"@) {
        Some(Json::Array(rows)) => Some(rows@),
        _ => None,
    }
}

/// A row of the ATA table reports reallocated sectors: its id names
/// attribute 5 and its raw value is a non-zero count.
pub open spec fn reports_reallocations(a: Json) -> bool {
    &&& as_u64(jget(Some(a), "id"@)) matches Some(id) && (id as u8) == 5
    &&& as_u64(jget(jget(Some(a), "raw"@), "value"@)) matches Some(r) && r != 0
}

/// Only reallocated sectors mark an ATA drive worn: after its attribute
/// table the wear is 100% exactly when some row reports a non-zero
/// reallocated count, and otherwise what it was before — a healthy drive
/// with no reallocations is never flagged.
pub proof fn law_only_reallocated_sectors_mark_a_drive_worn(t: SmartModel, rows: Seq<Json>)
    ensures
        ata_fold(t, rows).percentage_used == if exists|k: int| 0 <= k < rows.len() && reports_reallocations(#[trigger] rows[k]) {
            Some(100u8)
        } else {
            t.percentage_used
        },
    decreases rows.len(),
{
    if rows.len() > 0 {
        let init = rows.drop_last();
        law_only_reallocated_sectors_mark_a_drive_worn(t, init);
        let a = rows.last();
        assert(rows[rows.len() - 1] == a);
        if exists|k: int| 0 <= k < init.len() && reports_reallocations(#[trigger] init[k]) {
            let k = choose|k: int| 0 <= k < init.len() && reports_reallocations(#[trigger] init[k]);
            assert(rows[k] == init[k]);
        }
        if exists|k: int| 0 <= k < rows.len() && reports_reallocations(#[trigger] rows[k]) {
            let k = choose|k: int| 0 <= k < rows.len() && reports_reallocations(#[trigger] rows[k]);
            if k < rows.len() - 1 {
                assert(init[k] == rows[k]);
            }
        }
    }
}

/// What `smartctl -A --json` output says about device `name`.
pub open spec fn smart_reading(name: Seq<char>, v: Json) -> SmartModel {
    let t = nvme_reading(name, Some(v));
    match ata_table(Some(v)) {
        Some(rows) => ata_fold(t, rows),
        None => t,
    }
}

} // verus!

verus! {

fn ata_attr_of(a: &Json, id: u64) -> (r: AtaAttr)
    ensures
        r@ == ata_attr(*a, id),
{
    let row = Some(a);
    let name = match text_of(get(row, "name")) {
        Some(s) => s,
        None => String::new(),
    };
    let value = match num_u64(get(row, "value")) {
        Some(n) => n,
        None => 0,
    };
    let worst = match num_u64(get(row, "worst")) {
        Some(n) => n,
        None => 0,
    };
    let thresh = match num_u64(get(row, "thresh")) {
        Some(n) => Some(n as u32),
        None => None,
    };
    let raw = match text_of(get(get(row, "raw"), "string")) {
        Some(s) => s,
        None => String::new(),
    };
    AtaAttr { id: id as u8, name, value: value as u32, worst: worst as u32, thresh, raw }
}

impl SmartTick {
    /// Record one row of the ATA table.
    fn ata_row(&mut self, a: &Json)
        ensures
            final(self)@ == ata_step(old(self)@, *a),
    {
        let row = Some(a);
        let id = match num_u64(get(row, "id")) {
            Some(id) => id,
            None => return,
        };
        let attr = ata_attr_of(a, id);
        proof {
            assert(self.ata_attrs@.push(attr).map_values(|x: AtaAttr| x@)
                =~= self.ata_attrs@.map_values(|x: AtaAttr| x@).push(attr@));
        }
        self.ata_attrs.push(attr);
        let raw_int = num_u64(get(get(row, "raw"), "value"));
        let code = id as u8;
        if code == 9 && self.power_on_hours.is_none() {
            self.power_on_hours = raw_int;
        } else if code == 12 && self.power_cycles.is_none() {
            self.power_cycles = raw_int;
        } else if code == 5 {
            match raw_int {
                Some(r) => {
                    if r != 0 {
                        self.percentage_used = Some(100u8);
                    }
                },
                None => {},
            }
        }
    }
}

/// What `smartctl -A --json` output says about device `name`.
pub fn smart_tick_from_json(name: &str, v: &Json) -> (t: SmartTick)
    ensures
        t@ == smart_reading(name@, *v),
{
    let doc = Some(v);
    let temp = get(doc, "temperature");
    let summary = match num_i64(get(temp, "current")) {
        Some(c) => Some(c as i16),
        None => match num_i64(temp) {
            Some(c) => Some(c as i16),
            None => None,
        },
    };
    let mut t = SmartTick {
        device: owned(name),
        temperature_c: summary,
        power_on_hours: None,
        power_cycles: None,
        percentage_used: None,
        available_spare: None,
        data_units_read: None,
        data_units_written: None,
        ata_attrs: Vec::new(),
    };
    proof {
        assert(t@.ata_attrs =~= Seq::<AtaModel>::empty());
    }
    let log = get(doc, "nvme_smart_health_information_log");
    if log.is_some() {
        t.temperature_c = match num_i64(get(log, "temperature")) {
            Some(c) => Some(c as i16),
            None => None,
        };
        t.power_on_hours = num_u64(get(log, "power_on_hours"));
        t.power_cycles = num_u64(get(log, "power_cycles"));
        t.percentage_used = match num_u64(get(log, "percentage_used")) {
            Some(n) => Some(n as u8),
            None => None,
        };
        t.available_spare = match num_u64(get(log, "available_spare")) {
            Some(n) => Some(n as u8),
            None => None,
        };
        t.data_units_read = num_u64(get(log, "data_units_read"));
        t.data_units_written = num_u64(get(log, "data_units_written"));
    }
    assert(t@ == nvme_reading(name@, Some(*v)));
    let table = get(get(doc, "ata_smart_attributes"), "table");
    match table {
        Some(Json::Array(rows)) => {
            let ghost t0 = t@;
            let mut i: usize = 0;
            while i < rows.len()
                invariant
                    0 <= i <= rows@.len(),
                    t@ == ata_fold(t0, rows@.take(i as int)),
                decreases rows@.len() - i,
            {
                proof {
                    assert(rows@.take(i + 1).drop_last() =~= rows@.take(i as int));
                }
                t.ata_row(&rows[i]);
                i += 1;
            }
            proof {
                assert(rows@.take(rows@.len() as int) =~= rows@);
            }
        },
        _ => {},
    }
    t
}

} // verus!

verus! {

/// Milliseconds the collector treats as already elapsed when it is made,
/// so the first refresh is due at once at any interval up to an hour.
pub const STARTUP_LEAD_MS: u64 = 3_600_000;

/// When to poll `smartctl`, and what it last said per device. Time is
/// passed in, in milliseconds on a monotonic clock.
#[derive(Debug, Clone)]
pub struct SmartCollector {
    /// `None` until the first probe; whether `smartctl` ran.
    pub have_smartctl: Option<bool>,
    /// The latest reading per device, each device once.
    pub by_device: Vec<(String, SmartTick)>,
    /// When the collector was made.
    pub created_ms: u64,
    /// When the last refresh started, if one has.
    pub last_refresh_ms: Option<u64>,
    pub interval_secs: u64,
}

/// The readings as device names and their models, in order.
pub open spec fn readings_view(es: Seq<(String, SmartTick)>) -> Seq<(Seq<char>, SmartModel)> {
    es.map_values(|e: (String, SmartTick)| (e.0@, e.1@))
}

/// Milliseconds since the last refresh; before the first, since an hour
/// before the collector was made.
pub open spec fn since_refresh(c: SmartCollector, now: u64) -> int {
    match c.last_refresh_ms {
        Some(t) => if now >= t { now - t } else { 0 },
        None => if now >= c.created_ms { now - c.created_ms + STARTUP_LEAD_MS } else { STARTUP_LEAD_MS as int },
    }
}

impl SmartCollector {
    pub fn new(now_ms: u64) -> (c: SmartCollector)
        ensures
            c.have_smartctl is None,
            c.by_device@.len() == 0,
            c.created_ms == now_ms,
            c.last_refresh_ms is None,
            c.interval_secs == 300,
    {
        SmartCollector { have_smartctl: None, by_device: Vec::new(), created_ms: now_ms, last_refresh_ms: None, interval_secs: 300 }
    }

    pub fn smartctl_available(&self) -> (b: bool)
        ensures
            b == (self.have_smartctl == Some(true)),
    {
        match self.have_smartctl {
            Some(true) => true,
            _ => false,
        }
    }

    pub fn current_interval(&self) -> (s: u64)
        ensures
            s == self.interval_secs,
    {
        self.interval_secs
    }

    pub fn set_interval(&mut self, secs: u64)
        ensures
            *final(self) == (SmartCollector { interval_secs: secs, ..*old(self) }),
    {
        self.interval_secs = secs;
    }

    fn elapsed_ms(&self, now_ms: u64) -> (e: u128)
        ensures
            e == since_refresh(*self, now_ms),
    {
        match self.last_refresh_ms {
            Some(t) => if now_ms >= t { (now_ms - t) as u128 } else { 0 },
            None => if now_ms >= self.created_ms {
                (now_ms - self.created_ms) as u128 + STARTUP_LEAD_MS as u128
            } else {
                STARTUP_LEAD_MS as u128
            },
        }
    }

    /// Whole seconds until the next automatic refresh; zero once the
    /// interval has elapsed.
    pub fn secs_until_next_refresh(&self, now_ms: u64) -> (s: u64)
        ensures
            s == if since_refresh(*self, now_ms) >= self.interval_secs * 1000 {
                0
            } else {
                ((self.interval_secs * 1000 - since_refresh(*self, now_ms)) / 1000) as u64
            },
    {
        let e = self.elapsed_ms(now_ms);
        let iv = self.interval_secs as u128 * 1000;
        if e >= iv {
            0
        } else {
            ((iv - e) / 1000) as u64
        }
    }

    /// Whether `smartctl` still has to be probed for.
    pub fn needs_probe(&self) -> (b: bool)
        ensures
            b == (self.have_smartctl is None),
    {
        self.have_smartctl.is_none()
    }

    /// Record whether the probe found `smartctl`.
    pub fn record_probe(&mut self, found: bool)
        ensures
            *final(self) == (SmartCollector { have_smartctl: Some(found), ..*old(self) }),
    {
        self.have_smartctl = Some(found);
    }

    /// Whether a refresh is due: `smartctl` is there and the interval has
    /// elapsed. A forced refresh needs only the first.
    pub fn refresh_due(&self, now_ms: u64, force: bool) -> (b: bool)
        ensures
            b == (self.have_smartctl == Some(true) && (force || since_refresh(*self, now_ms) >= self.interval_secs * 1000)),
    {
        if !self.smartctl_available() {
            return false;
        }
        force || self.elapsed_ms(now_ms) >= self.interval_secs as u128 * 1000
    }

    /// A refresh starts at `now_ms`.
    pub fn begin_refresh(&mut self, now_ms: u64)
        ensures
            *final(self) == (SmartCollector { last_refresh_ms: Some(now_ms), ..*old(self) }),
    {
        self.last_refresh_ms = Some(now_ms);
    }

    /// When the last refresh started, if one has.
    pub fn last_refresh_at(&self) -> (r: Option<u64>)
        ensures
            r == self.last_refresh_ms,
    {
        self.last_refresh_ms
    }

    /// Keep `tick` as `name`'s reading, replacing an older one: the older
    /// reading is replaced where it stood, or the new one goes last; no
    /// other reading and nothing else of the collector changes.
    pub fn record(&mut self, name: &str, tick: SmartTick)
        requires
            crate::keyed::keys_distinct(old(self).by_device@),
        ensures
            readings_view(final(self).by_device@) == match crate::keyed::key_index(old(self).by_device@, name@) {
                Some(i) => readings_view(old(self).by_device@).update(i, (name@, tick@)),
                None => readings_view(old(self).by_device@).push((name@, tick@)),
            },
            final(self).have_smartctl == old(self).have_smartctl,
            final(self).created_ms == old(self).created_ms,
            final(self).last_refresh_ms == old(self).last_refresh_ms,
            final(self).interval_secs == old(self).interval_secs,
            crate::keyed::keys_distinct(final(self).by_device@),
            crate::keyed::keys_of(final(self).by_device@).to_set()
                == crate::keyed::keys_of(old(self).by_device@).to_set().insert(name@),
            exists|i: int| 0 <= i < final(self).by_device@.len() && (#[trigger] final(self).by_device@[i]).0@ == name@
                && final(self).by_device@[i].1@ == tick@,
    {
        let ghost before = self.by_device@;
        proof {
            crate::keyed::lemma_key_index(before, name@);
        }
        match crate::keyed::find_key(&self.by_device, name) {
            Some(i) => {
                let (k, _) = self.by_device.remove(i);
                self.by_device.insert(i, (k, tick));
                proof {
                    let after = self.by_device@;
                    assert(after =~= before.update(i as int, after[i as int]));
                    assert forall|a: int, b: int| 0 <= a < after.len() && 0 <= b < after.len() && a != b
                        implies (#[trigger] after[a]).0@ != (#[trigger] after[b]).0@ by {
                        assert(after[a].0@ == before[a].0@ && after[b].0@ == before[b].0@);
                    }
                    assert(crate::keyed::keys_of(after) =~= crate::keyed::keys_of(before));
                    assert(crate::keyed::keys_of(before)[i as int] == name@);
                    assert(crate::keyed::keys_of(before).to_set().insert(name@) =~= crate::keyed::keys_of(before).to_set());
                    assert(after[i as int].0@ == name@);
                    assert(readings_view(after) =~= readings_view(before).update(i as int, (name@, tick@)));
                }
            },
            None => {
                let k = owned(name);
                self.by_device.push((k, tick));
                proof {
                    let after = self.by_device@;
                    assert forall|a: int, b: int| 0 <= a < after.len() && 0 <= b < after.len() && a != b
                        implies (#[trigger] after[a]).0@ != (#[trigger] after[b]).0@ by {
                        if a < before.len() {
                            assert(after[a] == before[a]);
                        }
                        if b < before.len() {
                            assert(after[b] == before[b]);
                        }
                    }
                    assert(crate::keyed::keys_of(after) =~= crate::keyed::keys_of(before).push(name@));
                    crate::keyed::keys_of(before).lemma_push_to_set_commute(name@);
                    assert(after[before.len() as int].0@ == name@);
                    assert(readings_view(after) =~= readings_view(before).push((name@, tick@)));
                }
            },
        }
    }
}

} // verus!

verus! {

impl SmartCollector {
    /// The latest reading for `name`, if there is one.
    pub fn reading(&self, name: &str) -> (r: Option<&SmartTick>)
        ensures
            match crate::keyed::key_index(self.by_device@, name@) {
                Some(i) => r == Some(&self.by_device@[i].1),
                None => r is None,
            },
    {
        match crate::keyed::find_key(&self.by_device, name) {
            Some(i) => Some(&self.by_device[i].1),
            None => None,
        }
    }
}

} // verus!

verus! {

/// What the front end is to do for SMART on this tick.
#[derive(Debug, Clone, Copy, PartialEq, Eq, Structural)]
pub enum SmartAction {
    /// Find out whether `smartctl` is installed, and report it with
    /// [`SmartCollector::record_probe`].
    Probe,
    /// Query every device and [`SmartCollector::record`] each reading.
    Query,
    /// Nothing is due.
    Idle,
}

/// The step a refresh request takes: probe first; without `smartctl`
/// nothing; otherwise a query, now if forced, else once the interval has
/// elapsed, marking the collector refreshed at `now`.
pub open spec fn refresh_step(c: SmartCollector, now: u64, force: bool) -> (SmartCollector, SmartAction) {
    match c.have_smartctl {
        None => (c, SmartAction::Probe),
        Some(false) => (c, SmartAction::Idle),
        Some(true) => if force || since_refresh(c, now) >= c.interval_secs * 1000 {
            (SmartCollector { last_refresh_ms: Some(now), ..c }, SmartAction::Query)
        } else {
            (c, SmartAction::Idle)
        },
    }
}

impl SmartCollector {
    /// Called every tick: query the devices once the interval has elapsed.
    pub fn refresh_if_due(&mut self, now_ms: u64) -> (a: SmartAction)
        ensures
            (*final(self), a) == refresh_step(*old(self), now_ms, false),
    {
        self.refresh_step_at(now_ms, false)
    }

    /// The `r` key: query the devices now, whatever the interval.
    pub fn force_refresh(&mut self, now_ms: u64) -> (a: SmartAction)
        ensures
            (*final(self), a) == refresh_step(*old(self), now_ms, true),
    {
        self.refresh_step_at(now_ms, true)
    }

    fn refresh_step_at(&mut self, now_ms: u64, force: bool) -> (a: SmartAction)
        ensures
            (*final(self), a) == refresh_step(*old(self), now_ms, force),
    {
        if self.needs_probe() {
            return SmartAction::Probe;
        }
        if !self.refresh_due(now_ms, force) {
            return SmartAction::Idle;
        }
        self.begin_refresh(now_ms);
        SmartAction::Query
    }
}

} // verus!

verus! {

/// Unforced, the collector queries the devices at most once an interval:
/// a query is only made once the interval has elapsed, and any request
/// before the next interval is up is answered with nothing to do.
pub proof fn law_smart_queries_at_most_once_an_interval(c: SmartCollector, now: u64, later: u64)
    ensures
        refresh_step(c, now, false).1 == SmartAction::Query ==> since_refresh(c, now) >= c.interval_secs * 1000,
        refresh_step(c, now, false).1 == SmartAction::Query && now <= later && later < now + c.interval_secs * 1000
            ==> refresh_step(refresh_step(c, now, false).0, later, false).1 == SmartAction::Idle,
{
}

/// Without `smartctl` nothing is ever run, forced or not.
pub proof fn law_no_smartctl_means_no_queries(c: SmartCollector, now: u64, force: bool)
    requires
        c.have_smartctl == Some(false),
    ensures
        refresh_step(c, now, force) == (c, SmartAction::Idle),
{
}

} // verus!

verus! {

// ── reading `smartctl` output ───────────────────────────────────────────

#[verifier::external_type_specification]
#[verifier::external_body]
pub struct ExJsonValue(serde_json::Value);

/// What `serde_json::from_slice` makes of `bytes`, in the library's terms:
/// `None` where they are not one JSON document. It depends on the bytes
/// alone.
pub uninterp spec fn parsed_json(bytes: Seq<u8>) -> Option<Json>;

/// A `serde_json::Value` carried over into `Json`, variant for variant.
/// Nothing is claimed of the result here; what a parse gives is stated on
/// `parse_json`.
#[verifier::external_body]
fn json_of(v: &serde_json::Value) -> Json {
    match v {
        serde_json::Value::Null => Json::Null,
        serde_json::Value::Bool(b) => Json::Bool(*b),
        serde_json::Value::Number(n) => Json::Number(JsonNumber { as_i64: n.as_i64(), as_u64: n.as_u64() }),
        serde_json::Value::String(t) => Json::Str(t.clone()),
        serde_json::Value::Array(a) => Json::Array(a.iter().map(json_of).collect()),
        serde_json::Value::Object(o) => Json::Object(o.iter().map(|(k, x)| (k.clone(), json_of(x))).collect()),
    }
}

/// `serde_json::from_slice::<serde_json::Value>`, carried over into `Json`.
/// Claims that the result is a function of the bytes, and is `None` where
/// the parse fails; which documents parse, and to what, is left to
/// serde_json and named, not restated.
#[verifier::external_body]
fn parse_json(bytes: &[u8]) -> (r: Option<Json>)
    ensures
        r == parsed_json(bytes@),
{
    match serde_json::from_slice::<serde_json::Value>(bytes) {
        Ok(v) => Some(json_of(&v)),
        Err(_) => None,
    }
}

/// The reading `smartctl -A --json` printed for device `name`: `None` where
/// its output is not JSON. The exit status is not looked at, since
/// `smartctl` exits nonzero on warnings and still prints its report.
pub fn smart_tick_from_output(name: &str, stdout: &[u8]) -> (t: Option<SmartTick>)
    ensures
        match parsed_json(stdout@) {
            Some(v) => t matches Some(x) && x@ == smart_reading(name@, v),
            None => t is None,
        },
{
    match parse_json(stdout) {
        Some(v) => Some(smart_tick_from_json(name, &v)),
        None => None,
    }
}

} // verus!
