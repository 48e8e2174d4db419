//! Per-mount capacity growth: a window of usage samples per mount, from
//! which the trend and the time to full are read.
//!
//! One sample per mount per second is kept for [`WINDOW_MS`]; the trend is
//! the slope across the window. Nothing is reported until
//! [`MIN_OBSERVATION_MS`] has been observed — a slope over three seconds
//! extrapolates any build into "4 hours left" — and no deadline is
//! projected unless usage grows by more than a KiB a second.
//!
//! Time is passed in, in milliseconds on a monotonic clock, so that the
//! tracker is a function of what it was shown.

use vstd::prelude::*;
use crate::collect::filesystems::FsTick;

verus! {

/// How far back the trend looks.
pub const WINDOW_MS: u64 = 600_000;

/// Minimum observation span before any trend is reported.
pub const MIN_OBSERVATION_MS: u64 = 60_000;

/// Minimum interval between retained samples.
pub const SAMPLE_INTERVAL_MS: u64 = 950;

/// Usage samples `(time, used bytes)` for one mount, oldest first.
#[derive(Debug, Clone)]
pub struct Series {
    pub samples: Vec<(u64, u64)>,
    /// When the last sample was taken, if one ever was.
    pub last_push: Option<u64>,
}

pub ghost struct SeriesModel {
    pub samples: Seq<(u64, u64)>,
    pub last_push: Option<u64>,
}

impl View for Series {
    type V = SeriesModel;

    open spec fn view(&self) -> SeriesModel {
        SeriesModel { samples: self.samples@, last_push: self.last_push }
    }
}

/// The samples of `s` no older than the window at `now`; a sample stamped
/// after `now` counts as age zero.
pub open spec fn recent(s: Seq<(u64, u64)>, now: u64) -> Seq<(u64, u64)>
    decreases s.len(),
{
    if s.len() == 0 {
        Seq::empty()
    } else {
        let r = recent(s.drop_last(), now);
        if now - s.last().0 <= WINDOW_MS {
            r.push(s.last())
        } else {
            r
        }
    }
}

/// A sample is due unless one was taken less than the interval ago.
pub open spec fn sample_due(last_push: Option<u64>, now: u64) -> bool {
    match last_push {
        None => true,
        Some(lp) => now - lp >= SAMPLE_INTERVAL_MS,
    }
}

/// One observation of `used` at `now`.
pub open spec fn series_step(s: SeriesModel, used: u64, now: u64) -> SeriesModel {
    if sample_due(s.last_push, now) {
        SeriesModel { samples: recent(s.samples.push((now, used)), now), last_push: Some(now) }
    } else {
        s
    }
}

/// The series for one mount, keyed by mount.
pub open spec fn series_map(es: Seq<(String, Series)>) -> Map<Seq<char>, SeriesModel> {
    Map::new(
        |k: Seq<char>| exists|i: int| 0 <= i < es.len() && (#[trigger] es[i]).0@ == k,
        |k: Seq<char>| es[choose|i: int| 0 <= i < es.len() && (#[trigger] es[i]).0@ == k].1@,
    )
}

/// The tracker after seeing `fs`: zero-sized (synthetic) mounts are
/// skipped; the others get a sample if one is due.
pub open spec fn observe_one(m: Map<Seq<char>, SeriesModel>, fs: FsTick, now: u64) -> Map<Seq<char>, SeriesModel> {
    if fs.size_bytes == 0 {
        m
    } else {
        let prev = if m.contains_key(fs.mount@) {
            m[fs.mount@]
        } else {
            SeriesModel { samples: Seq::empty(), last_push: None }
        };
        m.insert(fs.mount@, series_step(prev, fs.used_bytes, now))
    }
}

pub open spec fn observe_all(m: Map<Seq<char>, SeriesModel>, fss: Seq<FsTick>, now: u64) -> Map<Seq<char>, SeriesModel>
    decreases fss.len(),
{
    if fss.len() == 0 {
        m
    } else {
        observe_one(observe_all(m, fss.drop_last(), now), fss.last(), now)
    }
}

/// The mounts `fss` lists.
pub open spec fn live_mounts(fss: Seq<FsTick>) -> Set<Seq<char>> {
    Set::new(|k: Seq<char>| exists|i: int| 0 <= i < fss.len() && (#[trigger] fss[i]).mount@ == k)
}

/// What one round of observation does: every listed mount is sampled,
/// then every mount no longer listed is forgotten, so an unmounted
/// volume's history cannot be resurrected against another filesystem.
pub open spec fn observed(m: Map<Seq<char>, SeriesModel>, fss: Seq<FsTick>, now: u64) -> Map<Seq<char>, SeriesModel> {
    observe_all(m, fss, now).restrict(live_mounts(fss))
}

/// Usage samples per mount.
#[derive(Debug, Clone)]
pub struct GrowthTracker {
    pub by_mount: Vec<(String, Series)>,
}

impl GrowthTracker {
    /// No mount has one mount entry twice.
    pub open spec fn wf(&self) -> bool {
        crate::keyed::keys_distinct(self.by_mount@)
    }

    pub open spec fn model(&self) -> Map<Seq<char>, SeriesModel> {
        series_map(self.by_mount@)
    }

    pub fn new() -> (t: GrowthTracker)
        ensures
            t.wf(),
            t.model() == Map::<Seq<char>, SeriesModel>::empty(),
    {
        let t = GrowthTracker { by_mount: Vec::new() };
        proof {
            assert(t.model() =~= Map::<Seq<char>, SeriesModel>::empty());
        }
        t
    }
}

} // verus!

verus! {

impl Series {
    /// Take a sample of `used` at `now` if one is due, and drop the samples
    /// that have left the window.
    pub fn step(&mut self, used: u64, now: u64)
        ensures
            final(self)@ == series_step(old(self)@, used, now),
    {
        let due = match self.last_push {
            None => true,
            Some(lp) => now >= lp && now - lp >= SAMPLE_INTERVAL_MS,
        };
        if !due {
            return;
        }
        self.samples.push((now, used));
        let ghost all = self.samples@;
        let mut kept: Vec<(u64, u64)> = Vec::new();
        let mut i: usize = 0;
        while i < self.samples.len()
            invariant
                0 <= i <= self.samples@.len(),
                self.samples@ == all,
                kept@ == recent(all.take(i as int), now),
            decreases self.samples@.len() - i,
        {
            let s = self.samples[i];
            proof {
                assert(all.take(i + 1).drop_last() =~= all.take(i as int));
            }
            if now < s.0 || now - s.0 <= WINDOW_MS {
                kept.push(s);
            }
            i += 1;
        }
        proof {
            assert(all.take(all.len() as int) =~= all);
        }
        self.samples = kept;
        self.last_push = Some(now);
    }
}

proof fn lemma_map_update(es: Seq<(String, Series)>, i: int, e: (String, Series))
    requires
        crate::keyed::keys_distinct(es),
        0 <= i < es.len(),
        e.0@ == es[i].0@,
    ensures
        crate::keyed::keys_distinct(es.update(i, e)),
        series_map(es.update(i, e)) == series_map(es).insert(e.0@, e.1@),
{
    let u = es.update(i, e);
    assert forall|a: int, b: int| 0 <= a < u.len() && 0 <= b < u.len() && a != b implies (#[trigger] u[a]).0@ != (#[trigger] u[b]).0@ by {
        assert(u[a].0@ == es[a].0@ && u[b].0@ == es[b].0@);
    }
    let m1 = series_map(u);
    let m2 = series_map(es).insert(e.0@, e.1@);
    assert forall|k: Seq<char>| m1.contains_key(k) <==> m2.contains_key(k) by {
        if m2.contains_key(k) && k != e.0@ {
            let j = choose|j: int| 0 <= j < es.len() && (#[trigger] es[j]).0@ == k;
            assert(u[j].0@ == k);
        }
        if m1.contains_key(k) {
            let j = choose|j: int| 0 <= j < u.len() && (#[trigger] u[j]).0@ == k;
            assert(j != i ==> es[j].0@ == k);
        }
        if k == e.0@ {
            assert(u[i].0@ == k);
        }
    }
    assert forall|k: Seq<char>| m1.contains_key(k) implies m1[k] == m2[k] by {
        let j = choose|j: int| 0 <= j < u.len() && (#[trigger] u[j]).0@ == k;
        if k == e.0@ {
            assert(j == i);
        } else {
            assert(j != i);
            assert(es[j].0@ == k);
            let j2 = choose|j2: int| 0 <= j2 < es.len() && (#[trigger] es[j2]).0@ == k;
            assert(j2 == j);
        }
    }
    assert(m1 =~= m2);
}

proof fn lemma_map_push(es: Seq<(String, Series)>, e: (String, Series))
    requires
        crate::keyed::keys_distinct(es),
        forall|j: int| 0 <= j < es.len() ==> (#[trigger] es[j]).0@ != e.0@,
    ensures
        crate::keyed::keys_distinct(es.push(e)),
        series_map(es.push(e)) == series_map(es).insert(e.0@, e.1@),
{
    let u = es.push(e);
    let n = es.len() as int;
    assert forall|a: int, b: int| 0 <= a < u.len() && 0 <= b < u.len() && a != b implies (#[trigger] u[a]).0@ != (#[trigger] u[b]).0@ by {
        if a < n {
            assert(u[a] == es[a]);
        }
        if b < n {
            assert(u[b] == es[b]);
        }
    }
    let m1 = series_map(u);
    let m2 = series_map(es).insert(e.0@, e.1@);
    assert forall|k: Seq<char>| m1.contains_key(k) <==> m2.contains_key(k) by {
        if m2.contains_key(k) && k != e.0@ {
            let j = choose|j: int| 0 <= j < es.len() && (#[trigger] es[j]).0@ == k;
            assert(u[j] == es[j]);
        }
        if m1.contains_key(k) {
            let j = choose|j: int| 0 <= j < u.len() && (#[trigger] u[j]).0@ == k;
            if j < n {
                assert(u[j] == es[j]);
            }
        }
        if k == e.0@ {
            assert(u[n].0@ == k);
        }
    }
    assert forall|k: Seq<char>| m1.contains_key(k) implies m1[k] == m2[k] by {
        let j = choose|j: int| 0 <= j < u.len() && (#[trigger] u[j]).0@ == k;
        if k == e.0@ {
            assert(j == n);
        } else {
            assert(j < n);
            assert(u[j] == es[j]);
            let j2 = choose|j2: int| 0 <= j2 < es.len() && (#[trigger] es[j2]).0@ == k;
            assert(u[j2] == es[j2]);
            assert(j2 == j);
        }
    }
    assert(m1 =~= m2);
}

impl GrowthTracker {
    fn observe_fs(&mut self, fs: &FsTick, now: u64)
        requires
            old(self).wf(),
        ensures
            final(self).wf(),
            final(self).model() == observe_one(old(self).model(), *fs, now),
    {
        if fs.size_bytes == 0 {
            return;
        }
        let ghost es = self.by_mount@;
        let key = fs.mount.as_str();
        assert(key@ == fs.mount@);
        match crate::keyed::find_key(&self.by_mount, key) {
            Some(i) => {
                proof {
                    crate::keyed::lemma_key_index(es, fs.mount@);
                    assert(series_map(es).contains_key(fs.mount@));
                    let j = choose|j: int| 0 <= j < es.len() && (#[trigger] es[j]).0@ == fs.mount@;
                    assert(es[i as int].0@ == fs.mount@);
                    assert(crate::keyed::keys_distinct(es));
                    if j != i {
                        assert(es[j].0@ != es[i as int].0@);
                    }
                    assert(j == i);
                }
                let (name, mut series) = self.by_mount.remove(i);
                series.step(fs.used_bytes, now);
                self.by_mount.insert(i, (name, series));
                proof {
                    assert(self.by_mount@ =~= es.update(i as int, (name, series)));
                    lemma_map_update(es, i as int, (name, series));
                }
            },
            None => {
                proof {
                    crate::keyed::lemma_key_index(es, fs.mount@);
                    assert(!series_map(es).contains_key(fs.mount@));
                }
                let mut series = Series { samples: Vec::new(), last_push: None };
                proof {
                    assert(series@ == (SeriesModel { samples: Seq::empty(), last_push: None }));
                }
                series.step(fs.used_bytes, now);
                let name = crate::text::owned(fs.mount.as_str());
                proof {
                    lemma_map_push(es, (name, series));
                }
                self.by_mount.push((name, series));
            },
        }
    }
}

} // verus!

verus! {

/// Whether `fss` lists a mount named `name`.
fn is_live(fss: &Vec<FsTick>, name: &str) -> (b: bool)
    ensures
        b == live_mounts(fss@).contains(name@),
{
    let mut i: usize = 0;
    while i < fss.len()
        invariant
            0 <= i <= fss@.len(),
            forall|j: int| 0 <= j < i ==> (#[trigger] fss@[j]).mount@ != name@,
        decreases fss@.len() - i,
    {
        if crate::text::str_eq(fss[i].mount.as_str(), name) {
            proof {
                assert(fss@[i as int].mount@ == name@);
            }
            return true;
        }
        i += 1;
    }
    false
}

impl GrowthTracker {
    /// Record the current usage of every listed mount, a sample per mount
    /// at most once per interval, and forget the mounts no longer listed.
    pub fn observe(&mut self, fss: &Vec<FsTick>, now: u64)
        requires
            old(self).wf(),
        ensures
            final(self).wf(),
            final(self).model() == observed(old(self).model(), fss@, now),
    {
        let ghost m0 = self.model();
        let mut k: usize = 0;
        while k < fss.len()
            invariant
                0 <= k <= fss@.len(),
                self.wf(),
                self.model() == observe_all(m0, fss@.take(k as int), now),
            decreases fss@.len() - k,
        {
            proof {
                assert(fss@.take(k + 1).drop_last() =~= fss@.take(k as int));
            }
            self.observe_fs(&fss[k], now);
            k += 1;
        }
        proof {
            assert(fss@.take(fss@.len() as int) =~= fss@);
        }
        let ghost es = self.by_mount@;
        let ghost live = live_mounts(fss@);
        let mut kept: Vec<(String, Series)> = Vec::new();
        while self.by_mount.len() > 0
            invariant
                crate::keyed::keys_distinct(es),
                live == live_mounts(fss@),
                self.by_mount@.len() <= es.len(),
                self.by_mount@ == es.take(self.by_mount@.len() as int),
                forall|j: int| 0 <= j < kept@.len() ==> live.contains((#[trigger] kept@[j]).0@)
                    && exists|i: int| self.by_mount@.len() <= i < es.len() && kept@[j] == es[i],
                forall|i: int| self.by_mount@.len() <= i < es.len() && live.contains((#[trigger] es[i]).0@)
                    ==> exists|j: int| 0 <= j < kept@.len() && kept@[j] == es[i],
                crate::keyed::keys_distinct(kept@),
            decreases self.by_mount@.len(),
        {
            let ghost n = self.by_mount@.len();
            let e = self.by_mount.pop().unwrap();
            proof {
                assert(e == es[n - 1]);
                assert(self.by_mount@ =~= es.take(n - 1));
            }
            if is_live(fss, e.0.as_str()) {
                let ghost before = kept@;
                proof {
                    assert forall|j: int| 0 <= j < before.len() implies (#[trigger] before[j]).0@ != e.0@ by {
                        let i = choose|i: int| n <= i < es.len() && before[j] == es[i];
                        assert(es[i].0@ != es[n - 1].0@);
                    }
                }
                kept.push(e);
                proof {
                    assert forall|a: int, b: int| 0 <= a < kept@.len() && 0 <= b < kept@.len() && a != b implies (#[trigger] kept@[a]).0@ != (#[trigger] kept@[b]).0@ by {
                        if a < before.len() && b < before.len() {
                            assert(kept@[a] == before[a] && kept@[b] == before[b]);
                        } else if a < before.len() {
                            assert(kept@[a] == before[a]);
                        } else if b < before.len() {
                            assert(kept@[b] == before[b]);
                        }
                    }
                    assert forall|j: int| 0 <= j < kept@.len() implies live.contains((#[trigger] kept@[j]).0@)
                        && exists|i: int| self.by_mount@.len() <= i < es.len() && kept@[j] == es[i] by {
                        if j < before.len() {
                            assert(kept@[j] == before[j]);
                        } else {
                            assert(kept@[j] == es[n - 1]);
                        }
                    }
                    assert forall|i: int| self.by_mount@.len() <= i < es.len() && live.contains((#[trigger] es[i]).0@)
                        implies exists|j: int| 0 <= j < kept@.len() && kept@[j] == es[i] by {
                        if i == n - 1 {
                            assert(kept@[before.len() as int] == es[i]);
                        } else {
                            let j = choose|j: int| 0 <= j < before.len() && before[j] == es[i];
                            assert(kept@[j] == before[j]);
                        }
                    }
                }
            }
        }
        proof {
            let m1 = series_map(kept@);
            let m2 = series_map(es).restrict(live);
            assert forall|key: Seq<char>| m1.contains_key(key) <==> m2.contains_key(key) by {
                if m1.contains_key(key) {
                    let j = choose|j: int| 0 <= j < kept@.len() && (#[trigger] kept@[j]).0@ == key;
                    let i = choose|i: int| 0 <= i < es.len() && kept@[j] == es[i];
                    assert(es[i].0@ == key);
                }
                if m2.contains_key(key) {
                    let i = choose|i: int| 0 <= i < es.len() && (#[trigger] es[i]).0@ == key;
                    let j = choose|j: int| 0 <= j < kept@.len() && kept@[j] == es[i];
                    assert(kept@[j].0@ == key);
                }
            }
            assert forall|key: Seq<char>| m1.contains_key(key) implies m1[key] == m2[key] by {
                let j = choose|j: int| 0 <= j < kept@.len() && (#[trigger] kept@[j]).0@ == key;
                let i = choose|i: int| 0 <= i < es.len() && kept@[j] == es[i];
                let i2 = choose|i2: int| 0 <= i2 < es.len() && (#[trigger] es[i2]).0@ == key;
                assert(es[i].0@ == key);
                if i != i2 {
                    assert(es[i].0@ != es[i2].0@);
                }
            }
            assert(m1 =~= m2);
        }
        self.by_mount = kept;
    }

    /// Whether a series is kept for `mount`.
    pub fn tracks(&self, mount: &str) -> (b: bool)
        ensures
            b == self.model().contains_key(mount@),
    {
        proof {
            crate::keyed::lemma_key_index(self.by_mount@, mount@);
        }
        match crate::keyed::find_key(&self.by_mount, mount) {
            Some(_) => true,
            None => false,
        }
    }
}

} // verus!

verus! {

/// The span between two sample times, zero if they run backwards.
pub open spec fn span(first: u64, last: u64) -> nat {
    if last >= first {
        (last - first) as nat
    } else {
        0
    }
}

/// The first and last samples of `mount`'s window, once the window spans
/// the minimum observation.
pub open spec fn trend_window(m: Map<Seq<char>, SeriesModel>, mount: Seq<char>) -> Option<((u64, u64), (u64, u64))> {
    if m.contains_key(mount) && m[mount].samples.len() > 0 {
        let s = m[mount].samples;
        if span(s[0].0, s.last().0) >= MIN_OBSERVATION_MS {
            Some((s[0], s.last()))
        } else {
            None
        }
    } else {
        None
    }
}

/// Usage grew by more than a KiB a second between the two samples —
/// anything slower is measurement noise, not a deadline.
pub open spec fn grows_fast(first: (u64, u64), last: (u64, u64)) -> bool {
    (last.1 as int - first.1 as int) * 1000 > 1024 * span(first.0, last.0)
}

impl GrowthTracker {
    /// The window a trend for `mount` is read from, or `None` while it is
    /// still too short to say anything honest.
    pub fn window(&self, mount: &str) -> (r: Option<((u64, u64), (u64, u64))>)
        requires
            self.wf(),
        ensures
            r == trend_window(self.model(), mount@),
    {
        proof {
            crate::keyed::lemma_key_index(self.by_mount@, mount@);
        }
        match crate::keyed::find_key(&self.by_mount, mount) {
            None => None,
            Some(i) => {
                let ghost es = self.by_mount@;
                proof {
                    let j = choose|j: int| 0 <= j < es.len() && (#[trigger] es[j]).0@ == mount@;
                    assert(es[i as int].0@ == mount@);
                    if j != i {
                        assert(es[j].0@ != es[i as int].0@);
                    }
                }
                let s = &self.by_mount[i].1.samples;
                if s.len() == 0 {
                    return None;
                }
                let first = s[0];
                let last = s[s.len() - 1];
                let sp = if last.0 >= first.0 { last.0 - first.0 } else { 0 };
                if sp >= MIN_OBSERVATION_MS {
                    Some((first, last))
                } else {
                    None
                }
            },
        }
    }
}

/// Whether usage grew by more than a KiB a second between two samples.
pub fn grows_fast_enough(first: (u64, u64), last: (u64, u64)) -> (b: bool)
    ensures
        b == grows_fast(first, last),
{
    if last.1 <= first.1 {
        return false;
    }
    let delta = (last.1 - first.1) as u128;
    let sp: u128 = if last.0 >= first.0 { (last.0 - first.0) as u128 } else { 0 };
    assert(delta * 1000 <= u64::MAX as u128 * 1000) by (nonlinear_arith)
        requires
            delta <= u64::MAX as u128;
    assert(sp * 1024 <= u64::MAX as u128 * 1024) by (nonlinear_arith)
        requires
            sp <= u64::MAX as u128;
    delta * 1000 > 1024 * sp
}

/// A mount that has been seen and is listed again keeps its history; one
/// no longer listed is forgotten, whatever it held; a zero-sized mount is
/// never tracked unless it already was.
pub proof fn law_only_listed_mounts_are_tracked(m: Map<Seq<char>, SeriesModel>, fss: Seq<FsTick>, now: u64, k: Seq<char>)
    ensures
        observed(m, fss, now).contains_key(k) ==> live_mounts(fss).contains(k),
        live_mounts(fss).contains(k) && m.contains_key(k) ==> observed(m, fss, now).contains_key(k),
        (forall|i: int| 0 <= i < fss.len() && (#[trigger] fss[i]).mount@ == k ==> fss[i].size_bytes == 0)
            && !m.contains_key(k) ==> !observed(m, fss, now).contains_key(k),
{
    lemma_observe_keys(m, fss, now, k);
}

proof fn lemma_observe_keys(m: Map<Seq<char>, SeriesModel>, fss: Seq<FsTick>, now: u64, k: Seq<char>)
    ensures
        m.contains_key(k) ==> observe_all(m, fss, now).contains_key(k),
        (forall|i: int| 0 <= i < fss.len() && (#[trigger] fss[i]).mount@ == k ==> fss[i].size_bytes == 0)
            && !m.contains_key(k) ==> !observe_all(m, fss, now).contains_key(k),
    decreases fss.len(),
{
    if fss.len() > 0 {
        lemma_observe_keys(m, fss.drop_last(), now, k);
        if (forall|i: int| 0 <= i < fss.len() && (#[trigger] fss[i]).mount@ == k ==> fss[i].size_bytes == 0) {
            assert forall|i: int| 0 <= i < fss.drop_last().len() && (#[trigger] fss.drop_last()[i]).mount@ == k implies fss.drop_last()[i].size_bytes == 0 by {
                assert(fss.drop_last()[i] == fss[i]);
            }
            assert(fss.last() == fss[fss.len() - 1]);
        }
    }
}

} // verus!

verus! {

/// No trend is read from less than the minimum observation: a window is
/// only reported once its first and last samples are far enough apart.
pub proof fn law_no_trend_before_the_minimum_observation(m: Map<Seq<char>, SeriesModel>, mount: Seq<char>)
    ensures
        trend_window(m, mount) matches Some((first, last)) ==> span(first.0, last.0) >= MIN_OBSERVATION_MS,
{
}

/// Every sample a series keeps lies within the window of the latest
/// observation.
pub proof fn law_the_window_forgets_old_samples(s: Seq<(u64, u64)>, now: u64)
    ensures
        forall|i: int| 0 <= i < recent(s, now).len() ==> now - (#[trigger] recent(s, now)[i]).0 <= WINDOW_MS,
    decreases s.len(),
{
    if s.len() > 0 {
        law_the_window_forgets_old_samples(s.drop_last(), now);
        let r = recent(s.drop_last(), now);
        if now - s.last().0 <= WINDOW_MS {
            assert forall|i: int| 0 <= i < r.push(s.last()).len() implies now - (#[trigger] r.push(s.last())[i]).0 <= WINDOW_MS by {
                if i < r.len() {
                    assert(r.push(s.last())[i] == r[i]);
                }
            }
        }
    }
}

} // verus!
