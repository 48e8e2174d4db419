//! Per-device IO counters from `/proc/diskstats`.
//!
//! The file's counters are cumulative since boot: sectors (always 512
//! bytes in this interface), operations and milliseconds spent, per
//! direction, plus the requests in flight and the time with any request in
//! flight on kernels from 2.6.25 on.

use vstd::prelude::*;
use crate::text::{
    contains, is_digit, lines, parse_u32, parse_u64, parse_uint, range_contains, range_has_prefix,
    ranges_in, ranges_view, starts_with, to_chars, words,
};

verus! {

/// Bytes per sector in `/proc/diskstats`, whatever the drive's own.
pub const SECTOR_BYTES: u64 = 512;

/// Nanoseconds per millisecond.
pub const MS_TO_NS: u64 = 1_000_000;

/// Milliseconds between per-device samples: 5 Hz.
pub const SAMPLE_MS: usize = 200;

/// Milliseconds per sample in the fast aggregate ring.
pub const FAST_SAMPLE_MS: usize = 200;

/// Seconds of history every chart on the dense screen covers.
pub const HISTORY_SECS: usize = 60;

/// Milliseconds per retained history sample.
pub const HISTORY_MS: usize = 500;

/// Milliseconds per column of the dense view's graph ring: one ring entry
/// per column, so a new reading scrolls the graph by exactly one.
pub const GRAPH_SAMPLE_MS: usize = 500;

/// Seconds of history the per-device ring holds.
pub const DEVICE_RING_SECS: usize = 48;

/// Seconds of history the host-wide 1 Hz ring holds.
pub const AGG_RING_SECS: usize = 300;

/// Index of the first bucket of the histogram's tail, past 10 ms.
pub const LAT_TAIL_FROM: usize = 5;

/// Ops per latency bucket are kept for this many samples: 60 s at 5 Hz.
pub const LATENCY_WINDOW: usize = 300;

/// Buckets of the service-time histogram.
pub const LAT_BUCKETS: usize = 7;

/// Cumulative counters for one device.
#[derive(Debug, Clone, Copy, PartialEq, Eq)]
pub struct DeviceTotals {
    pub bytes_read: u64,
    pub bytes_written: u64,
    pub ops_read: u64,
    pub ops_written: u64,
    pub total_time_read_ns: u64,
    pub total_time_write_ns: u64,
    /// Time with IO in flight; `None` where the kernel does not say.
    pub busy_ns: Option<u64>,
    /// Requests in flight at sample time; not cumulative.
    pub inflight: Option<u32>,
}

/// `a * b`, or the largest `u64` where the product does not fit.
pub open spec fn sat_mul(a: u64, b: u64) -> u64 {
    if a * b > u64::MAX {
        u64::MAX
    } else {
        (a * b) as u64
    }
}

/// `u64::saturating_mul`.
pub fn saturating_mul(a: u64, b: u64) -> (r: u64)
    ensures
        r == sat_mul(a, b),
{
    match a.checked_mul(b) {
        Some(p) => p,
        None => u64::MAX,
    }
}

/// Prefixes of whole devices whose names end in an index digit; their own
/// partitions carry a `p`, as `md0p1` does.
pub open spec fn indexed_whole(name: Seq<char>) -> bool {
    ||| starts_with(name, "dm-"@)
    ||| starts_with(name, "md"@)
    ||| starts_with(name, "sr"@)
    ||| starts_with(name, "zram"@)
    ||| starts_with(name, "nbd"@)
    ||| starts_with(name, "zd"@)
}

/// A partition rather than a whole device: NVMe, MMC and the indexed
/// whole devices mark partitions with a `p`; every other name is a
/// partition when it ends in a digit (`sda1`, `vdb2`).
pub open spec fn partition_name(name: Seq<char>) -> bool {
    if starts_with(name, "nvme"@) || starts_with(name, "mmcblk"@) || indexed_whole(name) {
        contains(name, "p"@)
    } else {
        name.len() > 0 && is_digit(name.last())
    }
}

/// Whether `v[lo..hi]` names a partition.
fn range_is_partition(v: &Vec<char>, lo: usize, hi: usize) -> (b: bool)
    requires
        lo <= hi <= v@.len(),
    ensures
        b == partition_name(v@.subrange(lo as int, hi as int)),
{
    if range_has_prefix(v, lo, hi, "nvme") || range_has_prefix(v, lo, hi, "mmcblk")
        || range_has_prefix(v, lo, hi, "dm-") || range_has_prefix(v, lo, hi, "md")
        || range_has_prefix(v, lo, hi, "sr") || range_has_prefix(v, lo, hi, "zram")
        || range_has_prefix(v, lo, hi, "nbd") || range_has_prefix(v, lo, hi, "zd") {
        return range_contains(v, lo, hi, "p");
    }
    hi > lo && '0' <= v[hi - 1] && v[hi - 1] <= '9'
}

/// A partition rather than a whole device.
pub fn is_partition_name(name: &str) -> (b: bool)
    ensures
        b == partition_name(name@),
{
    let v = to_chars(name);
    proof {
        assert(v@.subrange(0, v@.len() as int) =~= v@);
    }
    range_is_partition(&v, 0, v.len())
}

/// A device stacked on others: md, dm (LVM, LUKS) or a ZFS zvol. Its
/// traffic also passes through the devices beneath it.
pub open spec fn stacked_name(name: Seq<char>) -> bool {
    starts_with(name, "dm-"@) || starts_with(name, "md"@) || starts_with(name, "zd"@)
}

/// A device stacked on others, whose traffic sums must leave out.
pub fn is_stacked_name(name: &str) -> (b: bool)
    ensures
        b == stacked_name(name@),
{
    let v = to_chars(name);
    proof {
        assert(v@.subrange(0, v@.len() as int) =~= v@);
    }
    range_has_prefix(&v, 0, v.len(), "dm-") || range_has_prefix(&v, 0, v.len(), "md")
        || range_has_prefix(&v, 0, v.len(), "zd")
}

} // verus!

verus! {

/// `str::parse::<u64>`.
pub open spec fn u64_of(s: Seq<char>) -> Option<u64> {
    match parse_uint(s, u64::MAX as nat) {
        Some(n) => Some(n as u64),
        None => None,
    }
}

/// `str::parse::<u32>`.
pub open spec fn u32_of(s: Seq<char>) -> Option<u32> {
    match parse_uint(s, u32::MAX as nat) {
        Some(n) => Some(n as u32),
        None => None,
    }
}

/// The device one line of `/proc/diskstats` reports, if it is one worth
/// keeping: lines with fewer than eleven fields, loop and ram devices,
/// partitions (which would count their disk's traffic twice) and lines
/// whose counters do not parse are skipped. In-flight requests (field 12)
/// and time busy (field 13) are optional: a kernel older than 2.6.25 loses
/// the utilisation, not the device.
pub open spec fn diskstats_line(line: Seq<char>) -> Option<(Seq<char>, DeviceTotals)> {
    let f = words(line);
    if f.len() < 11 {
        None
    } else {
        let name = f[2];
        if starts_with(name, "loop"@) || starts_with(name, "ram"@) || partition_name(name) {
            None
        } else {
            match (u64_of(f[3]), u64_of(f[5]), u64_of(f[6]), u64_of(f[7]), u64_of(f[9]), u64_of(f[10])) {
                (Some(reads), Some(sr), Some(msr), Some(writes), Some(sw), Some(msw)) => Some((
                    name,
                    DeviceTotals {
                        bytes_read: sat_mul(sr, SECTOR_BYTES),
                        bytes_written: sat_mul(sw, SECTOR_BYTES),
                        ops_read: reads,
                        ops_written: writes,
                        total_time_read_ns: sat_mul(msr, MS_TO_NS),
                        total_time_write_ns: sat_mul(msw, MS_TO_NS),
                        busy_ns: if f.len() > 12 {
                            match u64_of(f[12]) {
                                Some(ms) => Some(sat_mul(ms, MS_TO_NS)),
                                None => None,
                            }
                        } else {
                            None
                        },
                        inflight: if f.len() > 11 { u32_of(f[11]) } else { None },
                    },
                )),
                _ => None,
            }
        }
    }
}

/// Some entry of `es` is named `name`.
pub open spec fn has_name(es: Seq<(Seq<char>, DeviceTotals)>, name: Seq<char>) -> bool {
    exists|i: int| 0 <= i < es.len() && (#[trigger] es[i]).0 == name
}

/// No name occurs twice in `es`.
pub open spec fn distinct_names(es: Seq<(Seq<char>, DeviceTotals)>) -> bool {
    forall|i: int, j: int| 0 <= i < es.len() && 0 <= j < es.len() && i != j ==> (#[trigger] es[i]).0 != (#[trigger] es[j]).0
}

/// `es` with `name` mapped to `t`: its entry replaced where it has one,
/// else appended — a map insert that keeps first-seen order.
pub open spec fn upsert(es: Seq<(Seq<char>, DeviceTotals)>, name: Seq<char>, t: DeviceTotals) -> Seq<(Seq<char>, DeviceTotals)> {
    if has_name(es, name) {
        let i = choose|i: int| 0 <= i < es.len() && (#[trigger] es[i]).0 == name;
        es.update(i, (name, t))
    } else {
        es.push((name, t))
    }
}

/// The devices the lines `ls` report, each once, the last report winning.
pub open spec fn diskstats_entries(ls: Seq<Seq<char>>) -> Seq<(Seq<char>, DeviceTotals)>
    decreases ls.len(),
{
    if ls.len() == 0 {
        Seq::empty()
    } else {
        let prev = diskstats_entries(ls.drop_last());
        match diskstats_line(ls.last()) {
            Some((name, t)) => upsert(prev, name, t),
            None => prev,
        }
    }
}

/// The devices `/proc/diskstats` text reports.
pub open spec fn diskstats(text: Seq<char>) -> Seq<(Seq<char>, DeviceTotals)> {
    diskstats_entries(lines(text))
}

pub open spec fn entries_view(v: Seq<(String, DeviceTotals)>) -> Seq<(Seq<char>, DeviceTotals)> {
    v.map_values(|e: (String, DeviceTotals)| (e.0@, e.1))
}

/// Field `k` of the words `w` of `v`, read as a `u64`.
fn field_u64(v: &Vec<char>, w: &Vec<(usize, usize)>, k: usize) -> (r: Option<u64>)
    requires
        k < w@.len(),
        ranges_in(w@, v@.len()),
    ensures
        r == u64_of(ranges_view(v@, w@)[k as int]),
{
    let (a, b) = w[k];
    proof {
        assert(w@[k as int].0 <= w@[k as int].1);
    }
    match parse_u64(v, a, b) {
        Some(n) => Some(n),
        None => None,
    }
}

/// The device `v[lo..hi]` reports, as `diskstats_line` reads it.
fn read_diskstats_line(v: &Vec<char>, lo: usize, hi: usize) -> (r: Option<(String, DeviceTotals)>)
    requires
        lo <= hi <= v@.len(),
    ensures
        match diskstats_line(v@.subrange(lo as int, hi as int)) {
            Some((name, t)) => r matches Some(e) && e.0@ == name && e.1 == t,
            None => r is None,
        },
{
    let w = crate::text::word_ranges(v, lo, hi);
    let ghost f = words(v@.subrange(lo as int, hi as int));
    if w.len() < 11 {
        return None;
    }
    let (na, nb) = w[2];
    proof {
        assert(w@[2].0 <= w@[2].1);
        assert(f[2] == v@.subrange(na as int, nb as int));
    }
    if range_has_prefix(v, na, nb, "loop") || range_has_prefix(v, na, nb, "ram") || range_is_partition(v, na, nb) {
        return None;
    }
    let reads = match field_u64(v, &w, 3) { Some(x) => x, None => return None };
    let sr = match field_u64(v, &w, 5) { Some(x) => x, None => return None };
    let msr = match field_u64(v, &w, 6) { Some(x) => x, None => return None };
    let writes = match field_u64(v, &w, 7) { Some(x) => x, None => return None };
    let sw = match field_u64(v, &w, 9) { Some(x) => x, None => return None };
    let msw = match field_u64(v, &w, 10) { Some(x) => x, None => return None };
    let inflight = if w.len() > 11 {
        let (a, b) = w[11];
        proof {
            assert(w@[11].0 <= w@[11].1);
        }
        parse_u32(v, a, b)
    } else {
        None
    };
    let busy_ns = if w.len() > 12 {
        match field_u64(v, &w, 12) {
            Some(ms) => Some(saturating_mul(ms, MS_TO_NS)),
            None => None,
        }
    } else {
        None
    };
    let t = DeviceTotals {
        bytes_read: saturating_mul(sr, SECTOR_BYTES),
        bytes_written: saturating_mul(sw, SECTOR_BYTES),
        ops_read: reads,
        ops_written: writes,
        total_time_read_ns: saturating_mul(msr, MS_TO_NS),
        total_time_write_ns: saturating_mul(msw, MS_TO_NS),
        busy_ns,
        inflight,
    };
    Some((crate::text::string_of(v, na, nb), t))
}

} // verus!

verus! {

proof fn lemma_upsert_distinct(es: Seq<(Seq<char>, DeviceTotals)>, name: Seq<char>, t: DeviceTotals)
    requires
        distinct_names(es),
    ensures
        distinct_names(upsert(es, name, t)),
        has_name(upsert(es, name, t), name),
{
    if has_name(es, name) {
        let i = choose|i: int| 0 <= i < es.len() && (#[trigger] es[i]).0 == name;
        let u = es.update(i, (name, t));
        assert(u[i].0 == name);
        assert forall|a: int, b: int| 0 <= a < u.len() && 0 <= b < u.len() && a != b implies (#[trigger] u[a]).0 != (#[trigger] u[b]).0 by {
            assert(es[a].0 == u[a].0 && es[b].0 == u[b].0);
        }
    } else {
        let u = es.push((name, t));
        assert(u[es.len() as int].0 == name);
        assert forall|a: int, b: int| 0 <= a < u.len() && 0 <= b < u.len() && a != b implies (#[trigger] u[a]).0 != (#[trigger] u[b]).0 by {
            if a < es.len() && b < es.len() {
                assert(u[a] == es[a] && u[b] == es[b]);
            } else if a < es.len() {
                assert(u[a] == es[a]);
            } else if b < es.len() {
                assert(u[b] == es[b]);
            }
        }
    }
}

proof fn lemma_entries_distinct(ls: Seq<Seq<char>>)
    ensures
        distinct_names(diskstats_entries(ls)),
    decreases ls.len(),
{
    if ls.len() > 0 {
        lemma_entries_distinct(ls.drop_last());
        match diskstats_line(ls.last()) {
            Some((name, t)) => lemma_upsert_distinct(diskstats_entries(ls.drop_last()), name, t),
            None => {},
        }
    }
}

/// No device is listed twice, and none listed is a partition, a loop or a
/// ram device: a partition's traffic is its disk's, counted again.
pub proof fn law_diskstats_lists_whole_devices_once(text: Seq<char>)
    ensures
        distinct_names(diskstats(text)),
        forall|i: int| 0 <= i < diskstats(text).len() ==> {
            let n = (#[trigger] diskstats(text)[i]).0;
            &&& !partition_name(n)
            &&& !starts_with(n, "loop"@)
            &&& !starts_with(n, "ram"@)
        },
{
    lemma_entries_distinct(lines(text));
    lemma_entries_whole(lines(text));
}

/// Every entry came from a line that passed the filters.
pub open spec fn whole_entries(es: Seq<(Seq<char>, DeviceTotals)>) -> bool {
    forall|i: int| 0 <= i < es.len() ==> {
        let n = (#[trigger] es[i]).0;
        &&& !partition_name(n)
        &&& !starts_with(n, "loop"@)
        &&& !starts_with(n, "ram"@)
    }
}

proof fn lemma_entries_whole(ls: Seq<Seq<char>>)
    ensures
        whole_entries(diskstats_entries(ls)),
    decreases ls.len(),
{
    if ls.len() > 0 {
        lemma_entries_whole(ls.drop_last());
        let prev = diskstats_entries(ls.drop_last());
        match diskstats_line(ls.last()) {
            Some((name, t)) => {
                let u = upsert(prev, name, t);
                assert forall|i: int| 0 <= i < u.len() implies {
                    let n = (#[trigger] u[i]).0;
                    &&& !partition_name(n)
                    &&& !starts_with(n, "loop"@)
                    &&& !starts_with(n, "ram"@)
                } by {
                    if i < prev.len() && u[i] == prev[i] {
                    }
                }
            },
            None => {},
        }
    }
}

/// The devices `/proc/diskstats` text reports, each once, in the order
/// first seen; a repeated name keeps its last report.
pub fn parse_diskstats(text: &str) -> (r: Vec<(String, DeviceTotals)>)
    ensures
        entries_view(r@) == diskstats(text@),
{
    let v = to_chars(text);
    let lr = crate::text::line_ranges(&v);
    let ghost ls = lines(text@);
    let mut out: Vec<(String, DeviceTotals)> = Vec::new();
    let mut k: usize = 0;
    proof {
        assert(entries_view(out@) =~= diskstats_entries(ls.take(0)));
    }
    while k < lr.len()
        invariant
            v@ == text@,
            ls == lines(text@),
            ranges_in(lr@, v@.len()),
            ranges_view(v@, lr@) == ls,
            0 <= k <= lr@.len(),
            entries_view(out@) == diskstats_entries(ls.take(k as int)),
        decreases lr@.len() - k,
    {
        let (lo, hi) = lr[k];
        proof {
            assert(ls.take(k + 1).drop_last() =~= ls.take(k as int));
            assert(lr@[k as int].0 <= lr@[k as int].1);
            assert(ls[k as int] == v@.subrange(lo as int, hi as int));
            lemma_entries_distinct(ls.take(k as int));
        }
        match read_diskstats_line(&v, lo, hi) {
            Some((name, t)) => upsert_entry(&mut out, name, t),
            None => {},
        }
        k += 1;
    }
    proof {
        assert(ls.take(ls.len() as int) =~= ls);
    }
    out
}

/// Map `name` to `t` in `out`, as `upsert` does.
fn upsert_entry(out: &mut Vec<(String, DeviceTotals)>, name: String, t: DeviceTotals)
    requires
        distinct_names(entries_view(old(out)@)),
    ensures
        entries_view(final(out)@) == upsert(entries_view(old(out)@), name@, t),
{
    let ghost es = entries_view(out@);
    let mut i: usize = 0;
    while i < out.len()
        invariant
            es == entries_view(out@),
            es == entries_view(old(out)@),
            distinct_names(es),
            0 <= i <= out@.len(),
            forall|j: int| 0 <= j < i ==> (#[trigger] es[j]).0 != name@,
        decreases out@.len() - i,
    {
        if crate::text::str_eq(out[i].0.as_str(), name.as_str()) {
            proof {
                assert(es[i as int].0 == name@);
                assert(has_name(es, name@));
                let c = choose|c: int| 0 <= c < es.len() && (#[trigger] es[c]).0 == name@;
                assert(c == i);
            }
            let ghost before = out@;
            out.set(i, (name, t));
            proof {
                assert(entries_view(out@) =~= es.update(i as int, (name@, t)));
            }
            return;
        }
        i += 1;
    }
    proof {
        assert(!has_name(es, name@));
        assert(entries_view(out@.push((name, t))) =~= es.push((name@, t)));
    }
    out.push((name, t));
}

/// The counters `entries` hold for `name`, if it is listed.
pub fn lookup(entries: &Vec<(String, DeviceTotals)>, name: &str) -> (r: Option<DeviceTotals>)
    ensures
        match r {
            Some(t) => exists|i: int| 0 <= i < entries@.len() && (#[trigger] entries@[i]).0@ == name@ && entries@[i].1 == t,
            None => forall|i: int| 0 <= i < entries@.len() ==> (#[trigger] entries@[i]).0@ != name@,
        },
{
    let mut i: usize = 0;
    while i < entries.len()
        invariant
            0 <= i <= entries@.len(),
            forall|j: int| 0 <= j < i ==> (#[trigger] entries@[j]).0@ != name@,
        decreases entries@.len() - i,
    {
        if crate::text::str_eq(entries[i].0.as_str(), name) {
            return Some(entries[i].1);
        }
        i += 1;
    }
    None
}

} // verus!

verus! {

/// The saturating total of bucket `b` over `samples`.
pub open spec fn bucket_total(samples: Seq<[u64; 7]>, b: int) -> u64
    decreases samples.len(),
{
    if samples.len() == 0 {
        0
    } else {
        let prev = bucket_total(samples.drop_last(), b);
        let add = samples.last()@[b];
        if prev + add > u64::MAX {
            u64::MAX
        } else {
            (prev + add) as u64
        }
    }
}

/// The window after one more sample: the oldest go until there is room.
pub open spec fn slid(samples: Seq<[u64; 7]>, s: [u64; 7]) -> Seq<[u64; 7]> {
    if samples.len() >= LATENCY_WINDOW {
        samples.skip(samples.len() - (LATENCY_WINDOW - 1)).push(s)
    } else {
        samples.push(s)
    }
}

/// Ops per latency bucket, one entry per sample, over a window that slides
/// rather than accumulating since boot.
#[derive(Debug, Clone)]
pub struct LatencyHistory {
    pub samples: Vec<[u64; 7]>,
}

impl LatencyHistory {
    pub fn new() -> (h: LatencyHistory)
        ensures
            h.samples@.len() == 0,
    {
        LatencyHistory { samples: Vec::new() }
    }

    /// Record one sample, dropping the oldest until the window has room.
    pub fn push(&mut self, s: [u64; 7])
        ensures
            final(self).samples@ == slid(old(self).samples@, s),
    {
        let ghost start = self.samples@;
        let n0 = self.samples.len();
        let mut dropped: usize = 0;
        while self.samples.len() >= LATENCY_WINDOW
            invariant
                dropped <= start.len(),
                start.len() == n0,
                self.samples@ == start.skip(dropped as int),
                start.len() >= LATENCY_WINDOW ==> start.len() - dropped >= LATENCY_WINDOW - 1,
                start.len() < LATENCY_WINDOW ==> dropped == 0,
            decreases self.samples@.len(),
        {
            self.samples.remove(0);
            proof {
                assert(start.skip(dropped as int).drop_first() =~= start.skip(dropped + 1));
            }
            dropped += 1;
        }
        proof {
            if start.len() < LATENCY_WINDOW {
                assert(start.skip(0) =~= start);
            }
        }
        self.samples.push(s);
    }

    /// Ops per bucket across the whole retained window, saturating.
    pub fn hist_sum(&self) -> (out: [u64; 7])
        ensures
            forall|b: int| 0 <= b < 7 ==> #[trigger] out@[b] == bucket_total(self.samples@, b),
    {
        let mut out: [u64; 7] = [0u64; 7];
        let mut i: usize = 0;
        while i < self.samples.len()
            invariant
                0 <= i <= self.samples@.len(),
                forall|b: int| 0 <= b < 7 ==> #[trigger] out@[b] == bucket_total(self.samples@.take(i as int), b),
            decreases self.samples@.len() - i,
        {
            let s = self.samples[i];
            proof {
                assert(self.samples@.take(i + 1).drop_last() =~= self.samples@.take(i as int));
            }
            let mut b: usize = 0;
            while b < 7
                invariant
                    0 <= b <= 7,
                    0 <= i < self.samples@.len(),
                    s == self.samples@[i as int],
                    self.samples@.take(i + 1).drop_last() == self.samples@.take(i as int),
                    forall|c: int| 0 <= c < b ==> #[trigger] out@[c] == bucket_total(self.samples@.take(i + 1), c),
                    forall|c: int| b <= c < 7 ==> #[trigger] out@[c] == bucket_total(self.samples@.take(i as int), c),
                decreases 7 - b,
            {
                let v = out[b].saturating_add(s[b]);
                out[b] = v;
                b += 1;
            }
            i += 1;
        }
        proof {
            assert(self.samples@.take(self.samples@.len() as int) =~= self.samples@);
        }
        out
    }
}

/// The window never holds more than its length of samples, and the newest
/// sample is always its last.
pub proof fn law_the_latency_window_slides(samples: Seq<[u64; 7]>, s: [u64; 7])
    requires
        samples.len() <= LATENCY_WINDOW,
    ensures
        slid(samples, s).len() <= LATENCY_WINDOW,
        slid(samples, s).last() == s,
        samples.len() == LATENCY_WINDOW ==> slid(samples, s).drop_last() == samples.drop_first(),
{
    if samples.len() == LATENCY_WINDOW {
        assert(slid(samples, s).drop_last() =~= samples.drop_first());
    }
}

} // verus!

verus! {

/// How far each counter of a device moved between two samples. Counters
/// that went backwards (a reset) count as not having moved.
#[derive(Debug, Clone, Copy, PartialEq, Eq, Structural)]
pub struct CounterDelta {
    pub bytes_read: u64,
    pub bytes_written: u64,
    pub ops_read: u64,
    pub ops_written: u64,
    pub time_read_ns: u64,
    pub time_write_ns: u64,
    /// Time with IO in flight; `None` unless both samples report it.
    pub busy_ns: Option<u64>,
    /// Requests in flight at the later sample.
    pub inflight: Option<u32>,
}

pub open spec fn sat_sub(a: u64, b: u64) -> u64 {
    if a >= b { (a - b) as u64 } else { 0 }
}

pub open spec fn delta_of(cur: DeviceTotals, prev: DeviceTotals) -> CounterDelta {
    CounterDelta {
        bytes_read: sat_sub(cur.bytes_read, prev.bytes_read),
        bytes_written: sat_sub(cur.bytes_written, prev.bytes_written),
        ops_read: sat_sub(cur.ops_read, prev.ops_read),
        ops_written: sat_sub(cur.ops_written, prev.ops_written),
        time_read_ns: sat_sub(cur.total_time_read_ns, prev.total_time_read_ns),
        time_write_ns: sat_sub(cur.total_time_write_ns, prev.total_time_write_ns),
        busy_ns: match (cur.busy_ns, prev.busy_ns) {
            (Some(a), Some(b)) => Some(sat_sub(a, b)),
            _ => None,
        },
        inflight: cur.inflight,
    }
}

/// A device's movement since the previous sample; `None` on its first
/// sighting, when there is no baseline to subtract — counting everything
/// since boot as one tick's traffic would set every scale.
pub open spec fn device_delta(prev: Seq<(String, DeviceTotals)>, name: Seq<char>, cur: DeviceTotals) -> Option<CounterDelta> {
    match crate::keyed::key_index(prev, name) {
        Some(i) => Some(delta_of(cur, prev[i].1)),
        None => None,
    }
}

/// A device's delta is how far each of its counters moved since its entry
/// in the previous sample: the current count minus the previous one, or
/// nothing where the counter went backwards; time in flight only where
/// both samples report it; the requests in flight as the current sample
/// says. A device the previous sample did not list has no delta.
pub proof fn law_a_delta_is_how_far_each_counter_moved(
    prev: Seq<(String, DeviceTotals)>,
    name: Seq<char>,
    cur: DeviceTotals,
    j: int,
)
    requires
        0 <= j < prev.len(),
        prev[j].0@ == name,
        forall|x: int| 0 <= x < j ==> (#[trigger] prev[x]).0@ != name,
    ensures
        ({
            let p = prev[j].1;
            &&& device_delta(prev, name, cur) is Some
            &&& {
                let d = device_delta(prev, name, cur)->0;
                &&& cur.ops_written >= p.ops_written ==> d.ops_written + p.ops_written == cur.ops_written
                &&& cur.ops_written < p.ops_written ==> d.ops_written == 0
                &&& cur.ops_read >= p.ops_read ==> d.ops_read + p.ops_read == cur.ops_read
                &&& cur.ops_read < p.ops_read ==> d.ops_read == 0
                &&& cur.bytes_written >= p.bytes_written ==> d.bytes_written + p.bytes_written == cur.bytes_written
                &&& cur.bytes_written < p.bytes_written ==> d.bytes_written == 0
                &&& cur.bytes_read >= p.bytes_read ==> d.bytes_read + p.bytes_read == cur.bytes_read
                &&& cur.bytes_read < p.bytes_read ==> d.bytes_read == 0
                &&& cur.total_time_read_ns >= p.total_time_read_ns ==> d.time_read_ns + p.total_time_read_ns == cur.total_time_read_ns
                &&& cur.total_time_read_ns < p.total_time_read_ns ==> d.time_read_ns == 0
                &&& cur.total_time_write_ns >= p.total_time_write_ns ==> d.time_write_ns + p.total_time_write_ns == cur.total_time_write_ns
                &&& cur.total_time_write_ns < p.total_time_write_ns ==> d.time_write_ns == 0
                &&& (d.busy_ns is Some <==> (cur.busy_ns is Some && p.busy_ns is Some))
                &&& (d.busy_ns matches Some(b) ==> (cur.busy_ns->0 >= p.busy_ns->0 ==> b + p.busy_ns->0 == cur.busy_ns->0)
                    && (cur.busy_ns->0 < p.busy_ns->0 ==> b == 0))
                &&& d.inflight == cur.inflight
            }
        }),
{
    crate::keyed::lemma_key_index(prev, name);
    match crate::keyed::key_index(prev, name) {
        Some(k) => {
            if k < j {
                assert(prev[k].0@ != name);
            }
            if k > j {
                assert(prev[j].0@ != name);
            }
        },
        None => {
            assert(prev[j].0@ != name);
        },
    }
}

/// On its first sighting a device has no delta: nothing to subtract from.
pub proof fn law_a_new_device_has_no_delta(prev: Seq<(String, DeviceTotals)>, name: Seq<char>, cur: DeviceTotals)
    requires
        forall|x: int| 0 <= x < prev.len() ==> (#[trigger] prev[x]).0@ != name,
    ensures
        device_delta(prev, name, cur) is None,
{
    crate::keyed::lemma_key_index(prev, name);
    if let Some(k) = crate::keyed::key_index(prev, name) {
        assert(prev[k].0@ != name);
    }
}

/// Every device of the current sample, in its order, with its movement
/// since the previous one.
pub fn counter_deltas(prev: &Vec<(String, DeviceTotals)>, cur: &Vec<(String, DeviceTotals)>) -> (r: Vec<(String, Option<CounterDelta>)>)
    ensures
        r@.len() == cur@.len(),
        forall|i: int| 0 <= i < cur@.len() ==> (#[trigger] r@[i]).0@ == cur@[i].0@
            && r@[i].1 == device_delta(prev@, cur@[i].0@, cur@[i].1),
{
    let mut out: Vec<(String, Option<CounterDelta>)> = Vec::new();
    let mut i: usize = 0;
    while i < cur.len()
        invariant
            0 <= i <= cur@.len(),
            out@.len() == i,
            forall|j: int| 0 <= j < i ==> (#[trigger] out@[j]).0@ == cur@[j].0@
                && out@[j].1 == device_delta(prev@, cur@[j].0@, cur@[j].1),
        decreases cur@.len() - i,
    {
        let name = &cur[i].0;
        let c = cur[i].1;
        let d = match crate::keyed::find_key(prev, name.as_str()) {
            Some(k) => {
                let p = prev[k].1;
                Some(CounterDelta {
                    bytes_read: c.bytes_read.saturating_sub(p.bytes_read),
                    bytes_written: c.bytes_written.saturating_sub(p.bytes_written),
                    ops_read: c.ops_read.saturating_sub(p.ops_read),
                    ops_written: c.ops_written.saturating_sub(p.ops_written),
                    time_read_ns: c.total_time_read_ns.saturating_sub(p.total_time_read_ns),
                    time_write_ns: c.total_time_write_ns.saturating_sub(p.total_time_write_ns),
                    busy_ns: match (c.busy_ns, p.busy_ns) {
                        (Some(a), Some(b)) => Some(a.saturating_sub(b)),
                        _ => None,
                    },
                    inflight: c.inflight,
                })
            },
            None => None,
        };
        out.push((name.clone(), d));
        i += 1;
    }
    out
}

} // verus!
