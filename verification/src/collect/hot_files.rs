//! The Hot Files collector's decisions: which roots to watch, how each
//! kind of change is named, and how a failed watch is explained.

use vstd::prelude::*;
use crate::config::strings_view;
use crate::text::{cat, owned};

verus! {

/// The kind of change a file event reports.
#[derive(Debug, Clone, Copy, PartialEq, Eq, Structural)]
pub enum ActivityKind {
    Modified,
    Created,
    Removed,
    Metadata,
    Renamed,
    Other,
}

pub open spec fn activity_label(k: ActivityKind) -> Seq<char> {
    match k {
        ActivityKind::Modified => "modify"@,
        ActivityKind::Created => "create"@,
        ActivityKind::Removed => "remove"@,
        ActivityKind::Metadata => "meta"@,
        ActivityKind::Renamed => "rename"@,
        ActivityKind::Other => "other"@,
    }
}

impl ActivityKind {
    pub fn label(&self) -> (s: &'static str)
        ensures
            s@ == activity_label(*self),
    {
        match self {
            ActivityKind::Modified => "modify",
            ActivityKind::Created => "create",
            ActivityKind::Removed => "remove",
            ActivityKind::Metadata => "meta",
            ActivityKind::Renamed => "rename",
            ActivityKind::Other => "other",
        }
    }
}

// ── roots ────────────────────────────────────────────────────────────────

/// Roots that show real user activity without drowning in system churn:
/// the home directory when there is one, then the log and tmp directories.
pub open spec fn default_roots_of(home: Option<Seq<char>>) -> Seq<Seq<char>> {
    match home {
        Some(h) => seq![h, "/var/log"@, "/tmp"@],
        None => seq!["/var/log"@, "/tmp"@],
    }
}

pub fn default_roots(home: Option<&str>) -> (r: Vec<String>)
    ensures
        strings_view(r@) == default_roots_of(crate::config::home_view(home)),
{
    let mut r: Vec<String> = Vec::new();
    match home {
        Some(h) => r.push(owned(h)),
        None => {},
    }
    r.push(owned("/var/log"));
    r.push(owned("/tmp"));
    proof {
        assert(strings_view(r@) =~= default_roots_of(crate::config::home_view(home)));
    }
    r
}

/// `s` with every repeat of an earlier entry dropped, first positions kept.
pub open spec fn dedup(s: Seq<Seq<char>>) -> Seq<Seq<char>>
    decreases s.len(),
{
    if s.len() == 0 {
        Seq::empty()
    } else {
        let d = dedup(s.drop_last());
        if d.contains(s.last()) {
            d
        } else {
            d.push(s.last())
        }
    }
}

/// The roots to watch: `replace` stands in for the defaults entirely,
/// `extra` is added to whichever list won, and repeats collapse to their
/// first position — a doubled path in the tab's banner reads as a bug.
pub open spec fn roots_for(replace: Option<Seq<Seq<char>>>, extra: Seq<Seq<char>>, home: Option<Seq<char>>) -> Seq<Seq<char>> {
    let base = match replace {
        Some(r) => r,
        None => default_roots_of(home),
    };
    dedup(base + extra)
}

fn contains_str(v: &Vec<String>, s: &str) -> (b: bool)
    ensures
        b == strings_view(v@).contains(s@),
{
    let mut i: usize = 0;
    while i < v.len()
        invariant
            0 <= i <= v@.len(),
            forall|j: int| 0 <= j < i ==> (#[trigger] v@[j])@ != s@,
        decreases v@.len() - i,
    {
        if crate::text::str_eq(v[i].as_str(), s) {
            proof {
                assert(strings_view(v@)[i as int] == s@);
            }
            return true;
        }
        i += 1;
    }
    proof {
        if strings_view(v@).contains(s@) {
            let j = choose|j: int| 0 <= j < strings_view(v@).len() && strings_view(v@)[j] == s@;
            assert(v@[j]@ == s@);
        }
    }
    false
}

/// The roots to hand the watcher, given what the user asked for.
pub fn resolve_roots(replace: Option<Vec<String>>, extra: &Vec<String>, home: Option<&str>) -> (r: Vec<String>)
    ensures
        strings_view(r@) == roots_for(crate::settings::opt_strings_view(replace), strings_view(extra@), crate::config::home_view(home)),
{
    let base = match replace {
        Some(v) => v,
        None => default_roots(home),
    };
    let ghost all = strings_view(base@) + strings_view(extra@);
    let mut out: Vec<String> = Vec::new();
    let mut i: usize = 0;
    while i < base.len()
        invariant
            0 <= i <= base@.len(),
            all == strings_view(base@) + strings_view(extra@),
            strings_view(out@) == dedup(all.take(i as int)),
        decreases base@.len() - i,
    {
        proof {
            assert(all.take(i + 1).drop_last() =~= all.take(i as int));
            assert(all[i as int] == base@[i as int]@);
        }
        push_new(&mut out, base[i].as_str());
        i += 1;
    }
    let mut j: usize = 0;
    while j < extra.len()
        invariant
            0 <= j <= extra@.len(),
            all == strings_view(base@) + strings_view(extra@),
            strings_view(out@) == dedup(all.take(base@.len() + j)),
        decreases extra@.len() - j,
    {
        proof {
            assert(all.take(base@.len() + j + 1).drop_last() =~= all.take(base@.len() + j));
            assert(all[base@.len() + j] == extra@[j as int]@);
        }
        push_new(&mut out, extra[j].as_str());
        j += 1;
    }
    proof {
        assert(all.take(all.len() as int) =~= all);
    }
    out
}

/// Append `p` unless `out` already holds it.
fn push_new(out: &mut Vec<String>, p: &str)
    ensures
        strings_view(final(out)@) == if strings_view(old(out)@).contains(p@) {
            strings_view(old(out)@)
        } else {
            strings_view(old(out)@).push(p@)
        },
{
    if !contains_str(out, p) {
        let q = owned(p);
        proof {
            assert(strings_view(out@.push(q)) =~= strings_view(out@).push(p@));
        }
        out.push(q);
    }
}

proof fn lemma_dedup(s: Seq<Seq<char>>)
    ensures
        forall|i: int, j: int| 0 <= i < j < dedup(s).len() ==> dedup(s)[i] != dedup(s)[j],
        forall|x: Seq<char>| s.contains(x) <==> dedup(s).contains(x),
    decreases s.len(),
{
    if s.len() > 0 {
        lemma_dedup(s.drop_last());
        let d = dedup(s.drop_last());
        assert forall|x: Seq<char>| s.contains(x) <==> dedup(s).contains(x) by {
            let dl = s.drop_last();
            if s.contains(x) {
                let k = choose|k: int| 0 <= k < s.len() && s[k] == x;
                if k < s.len() - 1 {
                    assert(dl[k] == x);
                    assert(dl.contains(x));
                }
            }
            if dl.contains(x) {
                let k = choose|k: int| 0 <= k < dl.len() && dl[k] == x;
                assert(s[k] == x);
            }
            assert(s[s.len() - 1] == s.last());
            if !d.contains(s.last()) {
                let e = d.push(s.last());
                if e.contains(x) {
                    let k = choose|k: int| 0 <= k < e.len() && e[k] == x;
                    if k < d.len() {
                        assert(d[k] == x);
                        assert(d.contains(x));
                    }
                }
                if d.contains(x) {
                    let k = choose|k: int| 0 <= k < d.len() && d[k] == x;
                    assert(e[k] == x);
                }
                assert(e[d.len() as int] == s.last());
            }
        }
        if !d.contains(s.last()) {
            let e = d.push(s.last());
            assert forall|i: int, j: int| 0 <= i < j < e.len() implies e[i] != e[j] by {
                if j == d.len() {
                    assert(e[i] == d[i]);
                } else {
                    assert(e[i] == d[i] && e[j] == d[j]);
                }
            }
        }
    }
}

/// The watched roots never list a path twice, and every path asked for —
/// the replacements or the defaults, and the extras — is among them.
pub proof fn law_every_root_once(replace: Option<Seq<Seq<char>>>, extra: Seq<Seq<char>>, home: Option<Seq<char>>)
    ensures
        forall|i: int, j: int| 0 <= i < j < roots_for(replace, extra, home).len()
            ==> roots_for(replace, extra, home)[i] != roots_for(replace, extra, home)[j],
        forall|x: Seq<char>| extra.contains(x) ==> roots_for(replace, extra, home).contains(x),
        forall|x: Seq<char>| (match replace { Some(r) => r, None => default_roots_of(home) }).contains(x)
            ==> roots_for(replace, extra, home).contains(x),
{
    let base = match replace {
        Some(r) => r,
        None => default_roots_of(home),
    };
    lemma_dedup(base + extra);
    assert forall|x: Seq<char>| extra.contains(x) implies (base + extra).contains(x) by {
        let k = choose|k: int| 0 <= k < extra.len() && extra[k] == x;
        assert((base + extra)[base.len() + k] == x);
    }
    assert forall|x: Seq<char>| base.contains(x) implies (base + extra).contains(x) by {
        let k = choose|k: int| 0 <= k < base.len() && base[k] == x;
        assert((base + extra)[k] == x);
    }
}

proof fn lemma_dedup_distinct(s: Seq<Seq<char>>)
    requires
        forall|i: int, j: int| 0 <= i < j < s.len() ==> s[i] != s[j],
    ensures
        dedup(s) == s,
    decreases s.len(),
{
    if s.len() > 0 {
        let dl = s.drop_last();
        lemma_dedup_distinct(dl);
        if dl.contains(s.last()) {
            let k = choose|k: int| 0 <= k < dl.len() && dl[k] == s.last();
            assert(s[k] == s[s.len() - 1]);
        }
        assert(dl.push(s.last()) =~= s);
    }
}

proof fn lemma_dedup_absorbs(a: Seq<Seq<char>>, t: Seq<Seq<char>>)
    requires
        forall|x: Seq<char>| t.contains(x) ==> a.contains(x),
    ensures
        dedup(a + t) == dedup(a),
    decreases t.len(),
{
    if t.len() == 0 {
        assert(a + t =~= a);
    } else {
        let tl = t.drop_last();
        assert forall|x: Seq<char>| tl.contains(x) implies a.contains(x) by {
            let k = choose|k: int| 0 <= k < tl.len() && tl[k] == x;
            assert(t[k] == x);
        }
        lemma_dedup_absorbs(a, tl);
        assert((a + t).drop_last() =~= a + tl);
        assert(t.contains(t.last())) by {
            assert(t[t.len() - 1] == t.last());
        }
        lemma_dedup(a);
    }
}

/// Resolving the roots again, with the result as the replacement and the
/// same extras, gives the same roots back.
pub proof fn law_resolving_the_roots_again_changes_nothing(
    replace: Option<Seq<Seq<char>>>,
    extra: Seq<Seq<char>>,
    home: Option<Seq<char>>,
)
    ensures
        roots_for(Some(roots_for(replace, extra, home)), extra, home) == roots_for(replace, extra, home),
{
    let r = roots_for(replace, extra, home);
    law_every_root_once(replace, extra, home);
    lemma_dedup_distinct(r);
    lemma_dedup_absorbs(r, extra);
}

} // verus!

verus! {

// ── explaining a failed watch ────────────────────────────────────────────

/// Why watching a root failed, as the watcher reports it.
#[derive(Debug, Clone)]
pub enum WatchFailure {
    /// The kernel's budget of watches is spent.
    OutOfWatches,
    /// Anything else, with the watcher's own words for it.
    Failed(String),
}

/// A failed watch: why, and the paths the watcher names.
#[derive(Debug, Clone)]
pub struct WatchError {
    pub failure: WatchFailure,
    pub paths: Vec<String>,
}

/// The sysctl that fixes an exhausted budget, where there is one.
pub open spec fn watch_fix(linux: bool) -> Seq<char> {
    if linux {
        "raise fs.inotify.max_user_watches, or watch a narrower path"@
    } else {
        "watch a narrower path"@
    }
}

/// What the user is told when watching `root` fails: an exhausted budget
/// names the knob that fixes it; a failure on a directory beneath the root
/// names that directory, which is the real subject, rather than blaming
/// the root.
pub open spec fn watch_error_text(root: Seq<char>, failure: WatchFailure, first: Option<Seq<char>>, linux: bool) -> Seq<char> {
    match failure {
        WatchFailure::OutOfWatches => root
            + ": out of file watches \u{2014} watching is recursive, and costs one per directory underneath this path. To fix: "@
            + watch_fix(linux) + "."@,
        WatchFailure::Failed(reason) => match first {
            Some(p) => if p != root {
                root + ": skipped \u{2014} "@ + reason@ + " on "@ + p
                    + " (watching is recursive, so one unreadable directory underneath fails the whole root)"@
            } else {
                root + ": "@ + reason@
            },
            None => root + ": "@ + reason@,
        },
    }
}

/// Turn a failed watch into something a user can act on. `linux` says
/// whether the inotify budget applies.
pub fn describe_watch_error(root: &str, e: &WatchError, linux: bool) -> (s: String)
    ensures
        s@ == watch_error_text(root@, e.failure, if e.paths@.len() > 0 { Some(e.paths@[0]@) } else { None }, linux),
{
    match &e.failure {
        WatchFailure::OutOfWatches => {
            let fix = if linux {
                "raise fs.inotify.max_user_watches, or watch a narrower path"
            } else {
                "watch a narrower path"
            };
            let s = cat(owned(root),
                ": out of file watches \u{2014} watching is recursive, and costs one per directory underneath this path. To fix: ");
            cat(cat(s, fix), ".")
        },
        WatchFailure::Failed(reason) => {
            if e.paths.len() > 0 && !crate::text::str_eq(e.paths[0].as_str(), root) {
                let s = cat(cat(cat(owned(root), ": skipped \u{2014} "), reason.as_str()), " on ");
                cat(cat(s, e.paths[0].as_str()),
                    " (watching is recursive, so one unreadable directory underneath fails the whole root)")
            } else {
                cat(cat(owned(root), ": "), reason.as_str())
            }
        },
    }
}

} // verus!

verus! {

// ── which files stay tracked ────────────────────────────────────────────

/// A file unseen for longer than this many nanoseconds is forgotten.
pub const PRUNE_IDLE_NS: u64 = 30_000_000_000;

/// The most files tracked at once.
pub const MAX_TRACKED: usize = 4096;

/// How many of `flags` are set.
pub open spec fn count_true(flags: Seq<bool>) -> nat
    decreases flags.len(),
{
    if flags.len() == 0 {
        0
    } else {
        count_true(flags.drop_last()) + if flags.last() { 1nat } else { 0nat }
    }
}

/// Which of `idle` (nanoseconds since each file was last seen) are recent
/// enough to keep.
pub open spec fn fresh_flags(idle: Seq<u64>) -> Seq<bool> {
    idle.map_values(|t: u64| t <= PRUNE_IDLE_NS)
}

proof fn lemma_count_update(flags: Seq<bool>, j: int)
    requires
        0 <= j < flags.len(),
        flags[j],
    ensures
        count_true(flags.update(j, false)) + 1 == count_true(flags),
    decreases flags.len(),
{
    let u = flags.update(j, false);
    if j < flags.len() - 1 {
        lemma_count_update(flags.drop_last(), j);
        assert(u.drop_last() =~= flags.drop_last().update(j, false));
    } else {
        assert(u.drop_last() =~= flags.drop_last());
    }
}

proof fn lemma_count_push(flags: Seq<bool>, b: bool)
    ensures
        count_true(flags.push(b)) == count_true(flags) + if b { 1nat } else { 0nat },
{
    assert(flags.push(b).drop_last() =~= flags);
}

proof fn lemma_count_le(flags: Seq<bool>)
    ensures
        count_true(flags) <= flags.len(),
    decreases flags.len(),
{
    if flags.len() > 0 {
        lemma_count_le(flags.drop_last());
    }
}

/// Which tracked files stay after a tick, given how long ago each was last
/// seen: none unseen for more than thirty seconds, and, where more than
/// [`MAX_TRACKED`] remain, the least recently seen are dropped until that
/// many are left — no file dropped for room was seen later than one kept.
pub fn kept_after_tick(idle_ns: &Vec<u64>) -> (keep: Vec<bool>)
    ensures
        keep@.len() == idle_ns@.len(),
        forall|i: int| 0 <= i < keep@.len() && #[trigger] keep@[i] ==> idle_ns@[i] <= PRUNE_IDLE_NS,
        count_true(keep@) == if count_true(fresh_flags(idle_ns@)) <= MAX_TRACKED {
            count_true(fresh_flags(idle_ns@))
        } else {
            MAX_TRACKED as nat
        },
        forall|i: int, j: int| 0 <= i < keep@.len() && 0 <= j < keep@.len() && #[trigger] keep@[i]
            && !#[trigger] keep@[j] && idle_ns@[j] <= PRUNE_IDLE_NS ==> idle_ns@[j] >= idle_ns@[i],
{
    let n = idle_ns.len();
    let mut keep: Vec<bool> = Vec::new();
    let mut kept: usize = 0;
    let mut i: usize = 0;
    while i < n
        invariant
            n == idle_ns@.len(),
            0 <= i <= n,
            keep@ == fresh_flags(idle_ns@).take(i as int),
            kept as nat == count_true(keep@),
            kept <= i,
        decreases n - i,
    {
        let f = idle_ns[i] <= PRUNE_IDLE_NS;
        proof {
            lemma_count_push(keep@, f);
            assert(fresh_flags(idle_ns@).take(i + 1) =~= fresh_flags(idle_ns@).take(i as int).push(f));
        }
        keep.push(f);
        if f {
            kept += 1;
        }
        i += 1;
    }
    proof {
        assert(fresh_flags(idle_ns@).take(n as int) =~= fresh_flags(idle_ns@));
    }
    let ghost fresh = keep@;
    while kept > MAX_TRACKED
        invariant
            n == idle_ns@.len(),
            keep@.len() == n,
            fresh == fresh_flags(idle_ns@),
            kept as nat == count_true(keep@),
            kept as nat <= count_true(fresh),
            count_true(fresh) > MAX_TRACKED ==> kept >= MAX_TRACKED,
            count_true(fresh) <= MAX_TRACKED ==> keep@ == fresh,
            forall|k: int| 0 <= k < n && #[trigger] keep@[k] ==> fresh[k],
            forall|a: int, b: int| 0 <= a < n && 0 <= b < n && #[trigger] keep@[a] && !#[trigger] keep@[b] && fresh[b]
                ==> idle_ns@[b] >= idle_ns@[a],
        decreases kept,
    {
        // The least recently seen file still kept.
        let mut worst: usize = n;
        let mut k: usize = 0;
        while k < n
            invariant
                n == idle_ns@.len(),
                keep@.len() == n,
                0 <= k <= n,
                worst == n || (worst < k && keep@[worst as int]),
                worst < n ==> forall|x: int| 0 <= x < k && #[trigger] keep@[x] ==> idle_ns@[x] <= idle_ns@[worst as int],
                worst == n ==> forall|x: int| 0 <= x < k ==> !#[trigger] keep@[x],
            decreases n - k,
        {
            if keep[k] && (worst == n || idle_ns[k] > idle_ns[worst]) {
                worst = k;
            }
            k += 1;
        }
        proof {
            if worst == n {
                assert(keep@ =~= Seq::new(n as nat, |x: int| false));
                lemma_all_false(keep@);
            }
            lemma_count_update(keep@, worst as int);
        }
        keep.set(worst, false);
        kept -= 1;
    }
    keep
}

proof fn lemma_all_false(flags: Seq<bool>)
    requires
        forall|x: int| 0 <= x < flags.len() ==> !flags[x],
    ensures
        count_true(flags) == 0,
    decreases flags.len(),
{
    if flags.len() > 0 {
        lemma_all_false(flags.drop_last());
    }
}

} // verus!
