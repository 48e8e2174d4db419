//! Whole-disk devices: their kinds, and the folding of partition and
//! device-path spellings back to the disk they belong to.

use vstd::prelude::*;
use crate::text::{all_digits, is_digit, owned, split, starts_with, string_of, to_chars};
use crate::keyed::{find_key, key_index};

verus! {

/// What kind of device a disk is.
#[derive(Debug, Clone, Copy, PartialEq, Eq, Structural)]
pub enum DeviceKind {
    Nvme,
    Ssd,
    Hdd,
    UsbMassStorage,
    Unknown,
}

pub open spec fn kind_label(k: DeviceKind) -> Seq<char> {
    match k {
        DeviceKind::Nvme => "NVMe"@,
        DeviceKind::Ssd => "SSD"@,
        DeviceKind::Hdd => "HDD"@,
        DeviceKind::UsbMassStorage => "USB"@,
        DeviceKind::Unknown => "?"@,
    }
}

impl DeviceKind {
    /// The short label the device tables show.
    pub fn label(&self) -> (s: &'static str)
        ensures
            s@ == kind_label(*self),
    {
        match self {
            DeviceKind::Nvme => "NVMe",
            DeviceKind::Ssd => "SSD",
            DeviceKind::Hdd => "HDD",
            DeviceKind::UsbMassStorage => "USB",
            DeviceKind::Unknown => "?",
        }
    }
}

/// A device's kind guessed from its name alone, where nothing better is
/// known.
pub open spec fn kind_by_name(name: Seq<char>) -> DeviceKind {
    if starts_with(name, "nvme"@) {
        DeviceKind::Nvme
    } else if starts_with(name, "sd"@) {
        DeviceKind::Ssd
    } else {
        DeviceKind::Unknown
    }
}

pub fn classify_by_name(name: &str) -> (k: DeviceKind)
    ensures
        k == kind_by_name(name@),
{
    let v = to_chars(name);
    proof {
        assert(v@.subrange(0, v@.len() as int) =~= v@);
    }
    if crate::text::range_has_prefix(&v, 0, v.len(), "nvme") {
        DeviceKind::Nvme
    } else if crate::text::range_has_prefix(&v, 0, v.len(), "sd") {
        DeviceKind::Ssd
    } else {
        DeviceKind::Unknown
    }
}

pub open spec fn bus_text(k: DeviceKind) -> Seq<char> {
    match k {
        DeviceKind::Nvme => "PCIe"@,
        DeviceKind::Ssd => "SATA / Internal"@,
        DeviceKind::Hdd => "SATA"@,
        DeviceKind::UsbMassStorage => "USB"@,
        DeviceKind::Unknown => "\u{2014}"@,
    }
}

/// The bus a device of kind `k` most likely sits on.
pub fn bus_hint(k: &DeviceKind) -> (s: String)
    ensures
        s@ == bus_text(*k),
{
    match k {
        DeviceKind::Nvme => owned("PCIe"),
        DeviceKind::Ssd => owned("SATA / Internal"),
        DeviceKind::Hdd => owned("SATA"),
        DeviceKind::UsbMassStorage => owned("USB"),
        DeviceKind::Unknown => owned("\u{2014}"),
    }
}

// ── folding to the whole disk ────────────────────────────────────────────

/// `s` with every leading `/dev/` removed, as `trim_start_matches` does.
pub open spec fn strip_dev(s: Seq<char>) -> Seq<char>
    decreases s.len(),
{
    if s.len() >= 5 && starts_with(s, "/dev/"@) {
        strip_dev(s.skip(5))
    } else {
        s
    }
}

/// The leading run of `s` that satisfies digit-ness `d`.
pub open spec fn run_len(s: Seq<char>, d: bool) -> nat
    decreases s.len(),
{
    if s.len() > 0 && is_digit(s[0]) == d {
        1 + run_len(s.drop_first(), d)
    } else {
        0
    }
}

/// Index of the last `c` in `s`.
pub open spec fn last_index_of(s: Seq<char>, c: char) -> Option<int>
    decreases s.len(),
{
    if s.len() == 0 {
        None
    } else if s.last() == c {
        Some(s.len() - 1)
    } else {
        last_index_of(s.drop_last(), c)
    }
}

/// `<base>p<digits>` with `base` ending in a digit: the base.
pub open spec fn p_suffix_base(s: Seq<char>) -> Option<Seq<char>> {
    match last_index_of(s, 'p') {
        Some(i) => {
            let base = s.take(i);
            let part = s.skip(i + 1);
            if base.len() > 0 && is_digit(base.last()) && part.len() > 0 && all_digits(part) {
                Some(base)
            } else {
                None
            }
        },
        None => None,
    }
}

/// The whole-disk name a device path or partition name folds to:
/// `/dev/sda1` → `sda`, `nvme0n1p2` → `nvme0n1`, `disk3s1` → `disk3`.
/// Names with no partition suffix pass through (`md0`, `overlay`).
pub open spec fn short_name_of(raw: Seq<char>) -> Seq<char> {
    let s = strip_dev(raw);
    let disk_digits = if starts_with(s, "disk"@) { run_len(s.skip(4), true) } else { 0 };
    if starts_with(s, "disk"@) && disk_digits > 0 {
        s.take(4 + disk_digits as int)
    } else {
        match p_suffix_base(s) {
            Some(base) => base,
            None => if starts_with(s, "sd"@) || starts_with(s, "hd"@) || starts_with(s, "vd"@)
                || starts_with(s, "xvd"@) {
                s.take(run_len(s, false) as int)
            } else {
                s
            },
        }
    }
}

} // verus!

verus! {

/// End of the leading run of `v[a..n]` whose digit-ness is `d`.
fn run_end(v: &Vec<char>, a: usize, n: usize, d: bool) -> (j: usize)
    requires
        a <= n <= v@.len(),
    ensures
        a <= j <= n,
        j - a == run_len(v@.subrange(a as int, n as int), d),
{
    let mut j = a;
    while j < n && (('0' <= v[j] && v[j] <= '9') == d)
        invariant
            a <= j <= n <= v@.len(),
            run_len(v@.subrange(a as int, n as int), d) == (j - a) + run_len(v@.subrange(j as int, n as int), d),
        decreases n - j,
    {
        proof {
            assert(v@.subrange(j as int, n as int).drop_first() =~= v@.subrange(j + 1, n as int));
        }
        j += 1;
    }
    j
}

/// Index of the last `c` in `v[a..n]`, as an index into `v`.
fn last_index(v: &Vec<char>, a: usize, n: usize, c: char) -> (r: Option<usize>)
    requires
        a <= n <= v@.len(),
    ensures
        match last_index_of(v@.subrange(a as int, n as int), c) {
            Some(i) => 0 <= i < n - a && r == Some((a + i) as usize),
            None => r is None,
        },
{
    let mut i = n;
    while i > a
        invariant
            a <= i <= n <= v@.len(),
            last_index_of(v@.subrange(a as int, n as int), c) == last_index_of(v@.subrange(a as int, i as int), c),
        decreases i - a,
    {
        if v[i - 1] == c {
            return Some(i - 1);
        }
        proof {
            assert(v@.subrange(a as int, i as int).drop_last() =~= v@.subrange(a as int, i - 1));
        }
        i -= 1;
    }
    None
}

/// Whether every character of `v[a..n]` is a digit.
fn all_digits_in(v: &Vec<char>, a: usize, n: usize) -> (b: bool)
    requires
        a <= n <= v@.len(),
    ensures
        b == all_digits(v@.subrange(a as int, n as int)),
{
    let j = run_end(v, a, n, true);
    proof {
        lemma_run_all(v@.subrange(a as int, n as int));
    }
    j == n
}

proof fn lemma_run_all(s: Seq<char>)
    ensures
        all_digits(s) <==> run_len(s, true) == s.len(),
        run_len(s, true) <= s.len(),
    decreases s.len(),
{
    if s.len() > 0 {
        lemma_run_all(s.drop_first());
        if is_digit(s[0]) {
            if all_digits(s.drop_first()) {
                assert forall|i: int| 0 <= i < s.len() implies #[trigger] is_digit(s[i]) by {
                    if i > 0 {
                        assert(s[i] == s.drop_first()[i - 1]);
                    }
                }
            } else {
                let k = choose|k: int| 0 <= k < s.drop_first().len() && !#[trigger] is_digit(s.drop_first()[k]);
                assert(!is_digit(s[k + 1]));
            }
        } else {
            assert(!is_digit(s[0]));
        }
    }
}

/// Fold a device path or partition name to its whole-disk name:
/// `/dev/sda1` → `sda`, `nvme0n1p2` → `nvme0n1`, `mmcblk0p2` → `mmcblk0`,
/// `disk3s1` → `disk3`. Names with no partition suffix pass through
/// unchanged (`md0`, `mmcblk0boot0`, `overlay`).
pub fn short_name(raw: &str) -> (s: String)
    ensures
        s@ == short_name_of(raw@),
{
    let v = to_chars(raw);
    let n = v.len();
    let mut a: usize = 0;
    proof {
        reveal_strlit("/dev/");
        assert(v@.subrange(0, n as int) =~= v@);
    }
    while n - a >= 5 && crate::text::range_has_prefix(&v, a, n, "/dev/")
        invariant
            a <= n == v@.len(),
            "/dev/"@.len() == 5,
            strip_dev(v@) == strip_dev(v@.subrange(a as int, n as int)),
        decreases n - a,
    {
        proof {
            assert(v@.subrange(a as int, n as int).skip(5) =~= v@.subrange(a + 5, n as int));
        }
        a += 5;
    }
    let ghost st = v@.subrange(a as int, n as int);
    assert(strip_dev(v@) == st);
    if crate::text::range_has_prefix(&v, a, n, "disk") {
        proof {
            reveal_strlit("disk");
            assert(st.skip(4) =~= v@.subrange(a + 4, n as int));
        }
        let j = run_end(&v, a + 4, n, true);
        if j > a + 4 {
            proof {
                assert(st.take(4 + (j - (a + 4))) =~= v@.subrange(a as int, j as int));
            }
            return string_of(&v, a, j);
        }
    }
    match last_index(&v, a, n, 'p') {
        Some(idx) => {
            let ghost i = idx - a;
            proof {
                assert(st.take(i) =~= v@.subrange(a as int, idx as int));
                assert(st.skip(i + 1) =~= v@.subrange(idx + 1, n as int));
            }
            if idx > a && '0' <= v[idx - 1] && v[idx - 1] <= '9' && idx + 1 < n && all_digits_in(&v, idx + 1, n) {
                return string_of(&v, a, idx);
            }
        },
        None => {},
    }
    if crate::text::range_has_prefix(&v, a, n, "sd") || crate::text::range_has_prefix(&v, a, n, "hd")
        || crate::text::range_has_prefix(&v, a, n, "vd") || crate::text::range_has_prefix(&v, a, n, "xvd") {
        let j = run_end(&v, a, n, false);
        proof {
            assert(st.take(j - a) =~= v@.subrange(a as int, j as int));
        }
        return string_of(&v, a, j);
    }
    string_of(&v, a, n)
}

} // verus!

verus! {

// ── attributing filesystem usage to disks ───────────────────────────────

/// The names in a list of strings.
pub open spec fn names(v: Seq<String>) -> Seq<Seq<char>> {
    v.map_values(|s: String| s@)
}

/// The list a lookup table gives for `key`: that of its first entry
/// named `key`.
pub open spec fn looked_up(t: Seq<(String, Vec<String>)>, key: Seq<char>) -> Option<Seq<Seq<char>>> {
    match key_index(t, key) {
        Some(i) => Some(names(t[i].1@)),
        None => None,
    }
}

/// Whether a piece of a mount source names a block device.
pub open spec fn is_dev_piece(p: Seq<char>) -> bool {
    starts_with(p, "/dev/"@)
}

/// The disks a `/dev/` piece lives on: the members a stacked device
/// resolves to, else the whole disk its name folds to.
pub open spec fn piece_disks(slaves: Seq<(String, Vec<String>)>, piece: Seq<char>) -> Seq<Seq<char>> {
    match looked_up(slaves, piece) {
        Some(m) => if m.len() > 0 { m } else { seq![short_name_of(piece)] },
        None => seq![short_name_of(piece)],
    }
}

/// Whether disk `d` is a member of a multi-device bcachefs filesystem.
pub open spec fn in_bcachefs(bc: Seq<(String, Vec<String>)>, d: Seq<char>) -> bool {
    match looked_up(bc, d) {
        Some(f) => f.len() > 0,
        None => false,
    }
}

/// The disks `d` stands for: a bcachefs member stands in for its whole
/// filesystem.
pub open spec fn stands_for(bc: Seq<(String, Vec<String>)>, d: Seq<char>) -> Seq<Seq<char>> {
    if in_bcachefs(bc, d) {
        looked_up(bc, d).unwrap()
    } else {
        seq![d]
    }
}

/// Every disk a list of disks stands for, in order, repeats included.
pub open spec fn stood_for(bc: Seq<(String, Vec<String>)>, ds: Seq<Seq<char>>) -> Seq<Seq<char>>
    decreases ds.len(),
{
    if ds.len() == 0 {
        Seq::empty()
    } else {
        stood_for(bc, ds.drop_last()) + stands_for(bc, ds.last())
    }
}

/// Every disk one piece of a mount source contributes, repeats included.
pub open spec fn piece_members(slaves: Seq<(String, Vec<String>)>, bc: Seq<(String, Vec<String>)>, p: Seq<char>) -> Seq<Seq<char>> {
    if is_dev_piece(p) {
        stood_for(bc, piece_disks(slaves, p))
    } else {
        Seq::empty()
    }
}

/// Every disk a list of pieces contributes.
pub open spec fn pieces_members(slaves: Seq<(String, Vec<String>)>, bc: Seq<(String, Vec<String>)>, ps: Seq<Seq<char>>) -> Seq<Seq<char>>
    decreases ps.len(),
{
    if ps.len() == 0 {
        Seq::empty()
    } else {
        pieces_members(slaves, bc, ps.drop_last()) + piece_members(slaves, bc, ps.last())
    }
}

/// The disks a mount source's filesystem spans: its colon-separated
/// `/dev/` pieces, each resolved through the two tables.
pub open spec fn source_members(slaves: Seq<(String, Vec<String>)>, bc: Seq<(String, Vec<String>)>, source: Seq<char>) -> Set<Seq<char>> {
    pieces_members(slaves, bc, split(source, ':')).to_set()
}

/// Whether some disk of a piece is a bcachefs member.
pub open spec fn piece_via_bcachefs(slaves: Seq<(String, Vec<String>)>, bc: Seq<(String, Vec<String>)>, p: Seq<char>) -> bool {
    is_dev_piece(p) && exists|j: int| 0 <= j < piece_disks(slaves, p).len() && #[trigger] in_bcachefs(bc, piece_disks(slaves, p)[j])
}

/// Whether the source resolves through the bcachefs member map.
pub open spec fn via_bcachefs(slaves: Seq<(String, Vec<String>)>, bc: Seq<(String, Vec<String>)>, source: Seq<char>) -> bool {
    exists|i: int| 0 <= i < split(source, ':').len() && #[trigger] piece_via_bcachefs(slaves, bc, split(source, ':')[i])
}

/// `x`, saturated at `u64::MAX`.
pub open spec fn sat(x: int) -> nat {
    if x > u64::MAX { u64::MAX as nat } else if x < 0 { 0 } else { x as nat }
}

/// `share` added, saturating, to each disk of `s`.
pub open spec fn add_share(m: Map<Seq<char>, nat>, s: Set<Seq<char>>, share: nat) -> Map<Seq<char>, nat> {
    Map::new(
        |n: Seq<char>| m.contains_key(n) || s.contains(n),
        |n: Seq<char>| if s.contains(n) {
            sat((if m.contains_key(n) { m[n] as int } else { 0 }) + share as int)
        } else {
            m[n]
        },
    )
}

/// A usage of `used` split evenly across the disks `s` and added to each.
pub open spec fn spread(m: Map<Seq<char>, nat>, s: Set<Seq<char>>, used: nat) -> Map<Seq<char>, nat> {
    add_share(m, s, used / s.len())
}

/// What the sources that do not resolve through bcachefs add up to: each
/// is an independent filesystem, so they sum even where they share disks.
pub open spec fn plain_usage(srcs: Seq<(String, u64)>, slaves: Seq<(String, Vec<String>)>, bc: Seq<(String, Vec<String>)>) -> Map<Seq<char>, nat>
    decreases srcs.len(),
{
    if srcs.len() == 0 {
        Map::empty()
    } else {
        let prev = plain_usage(srcs.drop_last(), slaves, bc);
        let s = source_members(slaves, bc, srcs.last().0@);
        if s.len() > 0 && !via_bcachefs(slaves, bc, srcs.last().0@) {
            spread(prev, s, srcs.last().1 as nat)
        } else {
            prev
        }
    }
}

/// Index of the first group over exactly the disks `s`.
pub open spec fn group_index(gs: Seq<(Set<Seq<char>>, nat)>, s: Set<Seq<char>>) -> Option<int>
    decreases gs.len(),
{
    if gs.len() == 0 {
        None
    } else {
        match group_index(gs.drop_last(), s) {
            Some(i) => Some(i),
            None => if gs.last().0 == s { Some(gs.len() - 1) } else { None },
        }
    }
}

/// The groups with a mount of the filesystem over `s` reporting `u`
/// folded in: it joins the group over the same disks, which keeps the
/// larger usage, or starts one.
pub open spec fn merged(gs: Seq<(Set<Seq<char>>, nat)>, s: Set<Seq<char>>, u: nat) -> Seq<(Set<Seq<char>>, nat)> {
    match group_index(gs, s) {
        Some(i) => gs.update(i, (s, if u > gs[i].1 { u } else { gs[i].1 })),
        None => gs.push((s, u)),
    }
}

/// The bcachefs filesystems the sources name, one per member set, each
/// with the largest usage any of its mounts reports.
pub open spec fn bcachefs_groups(srcs: Seq<(String, u64)>, slaves: Seq<(String, Vec<String>)>, bc: Seq<(String, Vec<String>)>) -> Seq<(Set<Seq<char>>, nat)>
    decreases srcs.len(),
{
    if srcs.len() == 0 {
        Seq::empty()
    } else {
        let prev = bcachefs_groups(srcs.drop_last(), slaves, bc);
        let s = source_members(slaves, bc, srcs.last().0@);
        let u = srcs.last().1 as nat;
        if s.len() > 0 && via_bcachefs(slaves, bc, srcs.last().0@) {
            merged(prev, s, u)
        } else {
            prev
        }
    }
}

/// Every group's usage spread across its disks.
pub open spec fn spread_groups(m: Map<Seq<char>, nat>, gs: Seq<(Set<Seq<char>>, nat)>) -> Map<Seq<char>, nat>
    decreases gs.len(),
{
    if gs.len() == 0 {
        m
    } else {
        spread(spread_groups(m, gs.drop_last()), gs.last().0, gs.last().1)
    }
}

/// Used bytes per whole disk.
pub open spec fn attributed(srcs: Seq<(String, u64)>, slaves: Seq<(String, Vec<String>)>, bc: Seq<(String, Vec<String>)>) -> Map<Seq<char>, nat> {
    spread_groups(plain_usage(srcs, slaves, bc), bcachefs_groups(srcs, slaves, bc))
}

/// Used bytes per name, as a list of `(name, bytes)` pairs gives them.
pub open spec fn usage_map(es: Seq<(String, u64)>) -> Map<Seq<char>, nat> {
    crate::keyed::entries_map(es).map_values(|v: u64| v as nat)
}

} // verus!

verus! {

proof fn lemma_concat_contains<A>(a: Seq<A>, b: Seq<A>, x: A)
    ensures
        (a + b).contains(x) <==> (a.contains(x) || b.contains(x)),
{
    if (a + b).contains(x) {
        let i = choose|i: int| 0 <= i < (a + b).len() && (a + b)[i] == x;
        if i < a.len() {
            assert(a[i] == x);
        } else {
            assert(b[i - a.len()] == x);
        }
    }
    if a.contains(x) {
        let i = choose|i: int| 0 <= i < a.len() && a[i] == x;
        assert((a + b)[i] == x);
    }
    if b.contains(x) {
        let i = choose|i: int| 0 <= i < b.len() && b[i] == x;
        assert((a + b)[i + a.len()] == x);
    }
}

/// A copy of a list of strings.
fn copy_names(v: &Vec<String>) -> (r: Vec<String>)
    ensures
        r@ == v@,
{
    let mut r: Vec<String> = Vec::new();
    let mut i: usize = 0;
    while i < v.len()
        invariant
            0 <= i <= v@.len(),
            r@ == v@.take(i as int),
        decreases v@.len() - i,
    {
        r.push(v[i].clone());
        proof {
            assert(v@.take(i + 1) =~= v@.take(i as int).push(v@[i as int]));
        }
        i += 1;
    }
    proof {
        assert(v@.take(v@.len() as int) =~= v@);
    }
    r
}

/// Whether `name` is in the list.
fn has_name(set: &Vec<String>, name: &str) -> (b: bool)
    ensures
        b == names(set@).contains(name@),
{
    let mut i: usize = 0;
    while i < set.len()
        invariant
            0 <= i <= set@.len(),
            forall|j: int| 0 <= j < i ==> (#[trigger] set@[j])@ != name@,
        decreases set@.len() - i,
    {
        if crate::text::str_eq(set[i].as_str(), name) {
            proof {
                assert(names(set@)[i as int] == name@);
            }
            return true;
        }
        i += 1;
    }
    proof {
        if names(set@).contains(name@) {
            let j = choose|j: int| 0 <= j < names(set@).len() && names(set@)[j] == name@;
            assert(set@[j]@ == name@);
        }
    }
    false
}

/// Add `name` to a list that holds each name once.
fn insert_name(set: &mut Vec<String>, name: &String)
    requires
        names(old(set)@).no_duplicates(),
    ensures
        names(final(set)@).no_duplicates(),
        forall|n: Seq<char>| #[trigger] names(final(set)@).contains(n) <==> (names(old(set)@).contains(n) || n == name@),
{
    if !has_name(set, name.as_str()) {
        let ghost before = names(set@);
        set.push(name.clone());
        proof {
            assert(names(set@) =~= before.push(name@));
            assert forall|n: Seq<char>| #[trigger] names(set@).contains(n) <==> (before.contains(n) || n == name@) by {
                lemma_concat_contains(before, seq![name@], n);
                assert(before.push(name@) =~= before + seq![name@]);
                if n == name@ {
                    assert(seq![name@][0] == n);
                }
                if seq![name@].contains(n) {
                    let j = choose|j: int| 0 <= j < 1 && seq![name@][j] == n;
                }
            }
            assert forall|i: int, j: int| 0 <= i < names(set@).len() && 0 <= j < names(set@).len() && i != j
                implies names(set@)[i] != names(set@)[j] by {
                if i == before.len() {
                    assert(before[j] == names(set@)[j]);
                } else if j == before.len() {
                    assert(before[i] == names(set@)[i]);
                }
            }
        }
    }
}

proof fn lemma_push_contains<A>(a: Seq<A>, y: A, x: A)
    ensures
        a.push(y).contains(x) <==> (a.contains(x) || x == y),
{
    if a.push(y).contains(x) {
        let i = choose|i: int| 0 <= i < a.push(y).len() && a.push(y)[i] == x;
        if i < a.len() {
            assert(a[i] == x);
        }
    }
    if a.contains(x) {
        let i = choose|i: int| 0 <= i < a.len() && a[i] == x;
        assert(a.push(y)[i] == x);
    }
    if x == y {
        assert(a.push(y)[a.len() as int] == x);
    }
}

/// Add every name of `list` to a list that holds each name once.
fn insert_names(set: &mut Vec<String>, list: &Vec<String>)
    requires
        names(old(set)@).no_duplicates(),
    ensures
        names(final(set)@).no_duplicates(),
        forall|n: Seq<char>| #[trigger] names(final(set)@).contains(n) <==> (names(old(set)@).contains(n) || names(list@).contains(n)),
{
    let ghost start = names(set@);
    let mut i: usize = 0;
    while i < list.len()
        invariant
            0 <= i <= list@.len(),
            names(set@).no_duplicates(),
            forall|n: Seq<char>| #[trigger] names(set@).contains(n) <==> (start.contains(n) || names(list@).take(i as int).contains(n)),
        decreases list@.len() - i,
    {
        insert_name(set, &list[i]);
        proof {
            let l = names(list@);
            assert(l.take(i + 1) =~= l.take(i as int).push(list@[i as int]@));
            assert forall|n: Seq<char>| #[trigger] names(set@).contains(n) <==> (start.contains(n) || l.take(i + 1).contains(n)) by {
                lemma_push_contains(l.take(i as int), list@[i as int]@, n);
            }
        }
        i += 1;
    }
    proof {
        assert(names(list@).take(list@.len() as int) =~= names(list@));
    }
}

/// Add the disks one `/dev/` piece of a mount source stands for; returns
/// whether one of them resolved through the bcachefs member map.
fn add_piece(set: &mut Vec<String>, piece: &str, slaves: &Vec<(String, Vec<String>)>, bc: &Vec<(String, Vec<String>)>) -> (through: bool)
    requires
        names(old(set)@).no_duplicates(),
        is_dev_piece(piece@),
    ensures
        names(final(set)@).no_duplicates(),
        forall|n: Seq<char>| #[trigger] names(final(set)@).contains(n)
            <==> (names(old(set)@).contains(n) || piece_members(slaves@, bc@, piece@).contains(n)),
        through == piece_via_bcachefs(slaves@, bc@, piece@),
{
    let disks: Vec<String> = match find_key(slaves, piece) {
        Some(i) => if slaves[i].1.len() > 0 {
            copy_names(&slaves[i].1)
        } else {
            vec![short_name(piece)]
        },
        None => vec![short_name(piece)],
    };
    let ghost ds = piece_disks(slaves@, piece@);
    proof {
        assert(names(disks@) =~= ds);
    }
    let ghost start = names(set@);
    let mut through = false;
    let mut j: usize = 0;
    while j < disks.len()
        invariant
            0 <= j <= disks@.len(),
            names(disks@) == ds,
            ds == piece_disks(slaves@, piece@),
            names(set@).no_duplicates(),
            forall|n: Seq<char>| #[trigger] names(set@).contains(n) <==> (start.contains(n) || stood_for(bc@, ds.take(j as int)).contains(n)),
            through == exists|k: int| 0 <= k < j && #[trigger] in_bcachefs(bc@, ds[k]),
        decreases disks@.len() - j,
    {
        let d = &disks[j];
        let ghost before = names(set@);
        let mut hit = false;
        match find_key(bc, d.as_str()) {
            Some(x) => {
                if bc[x].1.len() > 0 {
                    hit = true;
                    insert_names(set, &bc[x].1);
                }
            },
            None => {},
        }
        if !hit {
            insert_name(set, d);
        }
        proof {
            assert(d@ == ds[j as int]);
            assert(hit == in_bcachefs(bc@, ds[j as int]));
            let st = stands_for(bc@, ds[j as int]);
            if !hit {
                assert(st =~= seq![d@]);
            }
            assert(ds.take(j + 1).drop_last() =~= ds.take(j as int));
            assert(stood_for(bc@, ds.take(j + 1)) == stood_for(bc@, ds.take(j as int)) + st);
            assert forall|n: Seq<char>| #[trigger] names(set@).contains(n) <==> (start.contains(n) || stood_for(bc@, ds.take(j + 1)).contains(n)) by {
                lemma_concat_contains(stood_for(bc@, ds.take(j as int)), st, n);
                if !hit {
                    lemma_push_contains(Seq::<Seq<char>>::empty(), d@, n);
                    assert(Seq::<Seq<char>>::empty().push(d@) =~= st);
                }
            }
        }
        if hit {
            through = true;
        }
        j += 1;
    }
    proof {
        assert(ds.take(ds.len() as int) =~= ds);
    }
    through
}

/// The disks a mount source's filesystem spans, each once, and whether
/// they came through the bcachefs member map.
fn members_of(source: &str, slaves: &Vec<(String, Vec<String>)>, bc: &Vec<(String, Vec<String>)>) -> (r: (Vec<String>, bool))
    ensures
        names(r.0@).no_duplicates(),
        names(r.0@).to_set() == source_members(slaves@, bc@, source@),
        r.1 == via_bcachefs(slaves@, bc@, source@),
{
    let v = to_chars(source);
    let ranges = crate::text::split_ranges(&v, 0, v.len(), ':');
    let dev = to_chars("/dev/");
    let ghost ps = split(source@, ':');
    proof {
        assert(v@.subrange(0, v@.len() as int) =~= v@);
    }
    let mut set: Vec<String> = Vec::new();
    let mut through = false;
    let mut k: usize = 0;
    while k < ranges.len()
        invariant
            0 <= k <= ranges@.len(),
            v@ == source@,
            dev@ == "/dev/"@,
            crate::text::ranges_in(ranges@, v@.len()),
            crate::text::ranges_view(v@, ranges@) == ps,
            ps == split(source@, ':'),
            names(set@).no_duplicates(),
            forall|n: Seq<char>| #[trigger] names(set@).contains(n) <==> pieces_members(slaves@, bc@, ps.take(k as int)).contains(n),
            through == exists|i: int| 0 <= i < k && #[trigger] piece_via_bcachefs(slaves@, bc@, ps[i]),
        decreases ranges@.len() - k,
    {
        let (a, b) = ranges[k];
        let ghost p = ps[k as int];
        proof {
            assert(ranges@[k as int].0 <= ranges@[k as int].1 <= v@.len());
            assert(p == v@.subrange(a as int, b as int));
        }
        let ghost before = names(set@);
        let mut hit = false;
        let is_dev = crate::text::range_starts_with(&v, a, b, &dev);
        if is_dev {
            let piece = string_of(&v, a, b);
            hit = add_piece(&mut set, piece.as_str(), slaves, bc);
        }
        proof {
            let pm = piece_members(slaves@, bc@, p);
            assert(ps.take(k + 1).drop_last() =~= ps.take(k as int));
            assert(pieces_members(slaves@, bc@, ps.take(k + 1)) == pieces_members(slaves@, bc@, ps.take(k as int)) + pm);
            assert forall|n: Seq<char>| #[trigger] names(set@).contains(n) <==> pieces_members(slaves@, bc@, ps.take(k + 1)).contains(n) by {
                lemma_concat_contains(pieces_members(slaves@, bc@, ps.take(k as int)), pm, n);
            }
            assert(hit == piece_via_bcachefs(slaves@, bc@, p));
        }
        if hit {
            through = true;
        }
        k += 1;
    }
    proof {
        assert(ps.take(ps.len() as int) =~= ps);
        assert(names(set@).to_set() =~= source_members(slaves@, bc@, source@));
    }
    (set, through)
}

proof fn lemma_usage_map_push(es: Seq<(String, u64)>, e: (String, u64))
    requires
        crate::keyed::keys_distinct(es),
        key_index(es, e.0@) is None,
    ensures
        crate::keyed::keys_distinct(es.push(e)),
        usage_map(es.push(e)) == usage_map(es).insert(e.0@, e.1 as nat),
{
    crate::keyed::lemma_entries_push(es, e);
    assert(usage_map(es.push(e)) =~= usage_map(es).insert(e.0@, e.1 as nat));
}

proof fn lemma_usage_map_update(es: Seq<(String, u64)>, i: int, e: (String, u64))
    requires
        crate::keyed::keys_distinct(es),
        0 <= i < es.len(),
        es[i].0@ == e.0@,
    ensures
        crate::keyed::keys_distinct(es.update(i, e)),
        usage_map(es.update(i, e)) == usage_map(es).insert(e.0@, e.1 as nat),
{
    crate::keyed::lemma_entries_update(es, i, e);
    assert(usage_map(es.update(i, e)) =~= usage_map(es).insert(e.0@, e.1 as nat));
}

/// Add `share` to disk `name`, saturating; a disk not yet listed starts
/// from nothing.
fn add_to_disk(out: &mut Vec<(String, u64)>, name: &String, share: u64)
    requires
        crate::keyed::keys_distinct(old(out)@),
    ensures
        crate::keyed::keys_distinct(final(out)@),
        usage_map(final(out)@) == usage_map(old(out)@).insert(name@,
            sat((if usage_map(old(out)@).contains_key(name@) { usage_map(old(out)@)[name@] as int } else { 0 }) + share as int)),
{
    let key = name.as_str();
    proof {
        assert(key@ == name@);
    }
    match find_key(out, key) {
        Some(i) => {
            let v = out[i].1.saturating_add(share);
            let ghost before = out@;
            proof {
                crate::keyed::lemma_key_index(out@, key@);
                assert(before[i as int].0@ == name@);
            }
            out.set(i, (name.clone(), v));
            proof {
                lemma_usage_map_update(before, i as int, (*name, v));
            }
        },
        None => {
            out.push((name.clone(), share));
            proof {
                lemma_usage_map_push(old(out)@, (*name, share));
            }
        },
    }
}

/// `used` split evenly across `members` and added to each.
fn spread_into(out: &mut Vec<(String, u64)>, members: &Vec<String>, used: u64)
    requires
        crate::keyed::keys_distinct(old(out)@),
        names(members@).no_duplicates(),
        members@.len() > 0,
    ensures
        crate::keyed::keys_distinct(final(out)@),
        usage_map(final(out)@) == spread(usage_map(old(out)@), names(members@).to_set(), used as nat),
{
    let share = used / (members.len() as u64);
    let ghost m0 = usage_map(out@);
    let ghost all = names(members@);
    proof {
        all.unique_seq_to_set();
    }
    let mut i: usize = 0;
    while i < members.len()
        invariant
            0 <= i <= members@.len(),
            all == names(members@),
            all.no_duplicates(),
            crate::keyed::keys_distinct(out@),
            usage_map(out@) == add_share(m0, all.take(i as int).to_set(), share as nat),
        decreases members@.len() - i,
    {
        let ghost prev = usage_map(out@);
        add_to_disk(out, &members[i], share);
        proof {
            let t = all.take(i as int);
            let t2 = all.take(i + 1);
            let name = members@[i as int]@;
            assert(t2 =~= t.push(name));
            assert(!t.contains(name)) by {
                if t.contains(name) {
                    let j = choose|j: int| 0 <= j < t.len() && t[j] == name;
                    assert(all[j] == all[i as int]);
                }
            }
            assert forall|n: Seq<char>| #[trigger] t2.to_set().contains(n) <==> (t.to_set().contains(n) || n == name) by {
                lemma_push_contains(t, name, n);
            }
            assert(usage_map(out@) =~= add_share(m0, t2.to_set(), share as nat));
        }
        i += 1;
    }
    proof {
        assert(all.take(all.len() as int) =~= all);
    }
}

/// Whether two lists that hold each name once hold the same names.
fn same_names(a: &Vec<String>, b: &Vec<String>) -> (r: bool)
    requires
        names(a@).no_duplicates(),
        names(b@).no_duplicates(),
    ensures
        r == (names(a@).to_set() == names(b@).to_set()),
{
    proof {
        names(a@).unique_seq_to_set();
        names(b@).unique_seq_to_set();
    }
    if a.len() != b.len() {
        return false;
    }
    let mut i: usize = 0;
    while i < a.len()
        invariant
            0 <= i <= a@.len(),
            forall|j: int| 0 <= j < i ==> names(b@).contains(#[trigger] names(a@)[j]),
        decreases a@.len() - i,
    {
        let key = a[i].as_str();
        if !has_name(b, key) {
            proof {
                assert(names(a@)[i as int] == key@);
                assert(names(a@).to_set().contains(key@));
                assert(!names(b@).to_set().contains(key@));
            }
            return false;
        }
        i += 1;
    }
    proof {
        assert forall|x: Seq<char>| names(a@).to_set().contains(x) implies names(b@).to_set().contains(x) by {
            let j = choose|j: int| 0 <= j < names(a@).len() && names(a@)[j] == x;
            assert(names(b@).contains(names(a@)[j]));
        }
        vstd::set_lib::lemma_subset_equality(names(a@).to_set(), names(b@).to_set());
    }
    true
}

pub proof fn lemma_group_index(gs: Seq<(Set<Seq<char>>, nat)>, s: Set<Seq<char>>)
    ensures
        match group_index(gs, s) {
            Some(i) => 0 <= i < gs.len() && gs[i].0 == s && forall|j: int| 0 <= j < i ==> (#[trigger] gs[j]).0 != s,
            None => forall|j: int| 0 <= j < gs.len() ==> (#[trigger] gs[j]).0 != s,
        },
    decreases gs.len(),
{
    if gs.len() > 0 {
        lemma_group_index(gs.drop_last(), s);
        match group_index(gs.drop_last(), s) {
            Some(i) => {
                assert forall|j: int| 0 <= j < i implies (#[trigger] gs[j]).0 != s by {
                    assert(gs[j] == gs.drop_last()[j]);
                }
                assert(gs[i] == gs.drop_last()[i]);
            },
            None => {
                assert forall|j: int| 0 <= j < gs.len() - 1 implies (#[trigger] gs[j]).0 != s by {
                    assert(gs[j] == gs.drop_last()[j]);
                }
            },
        }
    }
}

/// The groups held as a list of member lists and a list of usages.
pub open spec fn groups_view(sets: Seq<Vec<String>>, useds: Seq<u64>) -> Seq<(Set<Seq<char>>, nat)> {
    Seq::new(sets.len(), |i: int| (names(sets[i]@).to_set(), useds[i] as nat))
}

pub open spec fn groups_ok(sets: Seq<Vec<String>>, useds: Seq<u64>) -> bool {
    &&& sets.len() == useds.len()
    &&& forall|i: int| 0 <= i < sets.len() ==> names((#[trigger] sets[i])@).no_duplicates() && sets[i]@.len() > 0
}

/// Fold one bcachefs mount into the groups.
fn merge_group(sets: &mut Vec<Vec<String>>, useds: &mut Vec<u64>, members: Vec<String>, used: u64)
    requires
        groups_ok(old(sets)@, old(useds)@),
        names(members@).no_duplicates(),
        members@.len() > 0,
    ensures
        groups_ok(final(sets)@, final(useds)@),
        groups_view(final(sets)@, final(useds)@) == merged(groups_view(old(sets)@, old(useds)@), names(members@).to_set(), used as nat),
{
    let ghost gv = groups_view(sets@, useds@);
    let ghost s = names(members@).to_set();
    proof {
        lemma_group_index(gv, s);
    }
    let mut j: usize = 0;
    while j < sets.len()
        invariant
            0 <= j <= sets@.len(),
            sets@ == old(sets)@,
            useds@ == old(useds)@,
            gv == groups_view(sets@, useds@),
            groups_ok(sets@, useds@),
            s == names(members@).to_set(),
            names(members@).no_duplicates(),
            forall|k: int| 0 <= k < j ==> (#[trigger] gv[k]).0 != s,
            match group_index(gv, s) {
                Some(i) => 0 <= i < gv.len() && gv[i].0 == s && forall|k: int| 0 <= k < i ==> (#[trigger] gv[k]).0 != s,
                None => forall|k: int| 0 <= k < gv.len() ==> (#[trigger] gv[k]).0 != s,
            },
        decreases sets@.len() - j,
    {
        if same_names(&sets[j], &members) {
            proof {
                assert(gv[j as int].0 == s);
                assert(group_index(gv, s) == Some(j as int));
            }
            if used > useds[j] {
                useds.set(j, used);
            }
            proof {
                assert(groups_view(sets@, useds@) =~= merged(gv, s, used as nat));
            }
            return;
        }
        proof {
            assert(gv[j as int].0 != s);
        }
        j += 1;
    }
    proof {
        assert(group_index(gv, s) is None);
    }
    sets.push(members);
    useds.push(used);
    proof {
        assert(groups_view(sets@, useds@) =~= merged(gv, s, used as nat));
    }
}

/// Used bytes per whole disk, from the used bytes of each mounted source.
///
/// A source's `/dev/` pieces (a bcachefs source lists several, joined by
/// `:`) resolve to whole disks: a stacked device to the members `slaves`
/// gives for it, anything else to the disk its name folds to; a disk that
/// `bcachefs` lists stands in for every member of its filesystem. Sources
/// with no `/dev/` piece land nowhere. Each filesystem's usage is split
/// evenly across its disks. Sources that resolve through `bcachefs` are
/// one filesystem per member set, counted once at the largest usage any
/// of its mounts reports; every other source is a filesystem of its own,
/// and those sum even where they share disks. Sums saturate.
pub fn attribute_sources(
    by_source: &Vec<(String, u64)>,
    slaves: &Vec<(String, Vec<String>)>,
    bcachefs: &Vec<(String, Vec<String>)>,
) -> (out: Vec<(String, u64)>)
    ensures
        crate::keyed::keys_distinct(out@),
        usage_map(out@) == attributed(by_source@, slaves@, bcachefs@),
{
    let mut out: Vec<(String, u64)> = Vec::new();
    let mut sets: Vec<Vec<String>> = Vec::new();
    let mut useds: Vec<u64> = Vec::new();
    proof {
        assert(usage_map(out@) =~= Map::<Seq<char>, nat>::empty());
        assert(groups_view(sets@, useds@) =~= Seq::<(Set<Seq<char>>, nat)>::empty());
        assert(by_source@.take(0) =~= Seq::<(String, u64)>::empty());
    }
    let mut k: usize = 0;
    while k < by_source.len()
        invariant
            0 <= k <= by_source@.len(),
            crate::keyed::keys_distinct(out@),
            usage_map(out@) == plain_usage(by_source@.take(k as int), slaves@, bcachefs@),
            groups_ok(sets@, useds@),
            groups_view(sets@, useds@) == bcachefs_groups(by_source@.take(k as int), slaves@, bcachefs@),
        decreases by_source@.len() - k,
    {
        let (members, through) = members_of(by_source[k].0.as_str(), slaves, bcachefs);
        let used = by_source[k].1;
        proof {
            names(members@).unique_seq_to_set();
            let t2 = by_source@.take(k + 1);
            assert(t2.drop_last() =~= by_source@.take(k as int));
            assert(t2.last() == by_source@[k as int]);
        }
        if members.len() > 0 {
            if through {
                merge_group(&mut sets, &mut useds, members, used);
            } else {
                spread_into(&mut out, &members, used);
            }
        }
        k += 1;
    }
    proof {
        assert(by_source@.take(by_source@.len() as int) =~= by_source@);
    }
    let ghost plain = usage_map(out@);
    let ghost gv = groups_view(sets@, useds@);
    let mut g: usize = 0;
    while g < sets.len()
        invariant
            0 <= g <= sets@.len(),
            groups_ok(sets@, useds@),
            gv == groups_view(sets@, useds@),
            crate::keyed::keys_distinct(out@),
            usage_map(out@) == spread_groups(plain, gv.take(g as int)),
        decreases sets@.len() - g,
    {
        spread_into(&mut out, &sets[g], useds[g]);
        proof {
            assert(gv.take(g + 1).drop_last() =~= gv.take(g as int));
        }
        g += 1;
    }
    proof {
        assert(gv.take(gv.len() as int) =~= gv);
    }
    out
}

/// Some source of `srcs` spans disk `n`, through the bcachefs member map
/// or not as `through` says.
spec fn spanned_by(srcs: Seq<(String, u64)>, slaves: Seq<(String, Vec<String>)>, bc: Seq<(String, Vec<String>)>, n: Seq<char>, through: bool) -> bool {
    exists|i: int| 0 <= i < srcs.len() && via_bcachefs(slaves, bc, srcs[i].0@) == through
        && #[trigger] source_members(slaves, bc, srcs[i].0@).contains(n)
}

proof fn lemma_spanned_by_step(srcs: Seq<(String, u64)>, slaves: Seq<(String, Vec<String>)>, bc: Seq<(String, Vec<String>)>, n: Seq<char>, through: bool)
    requires
        srcs.len() > 0,
    ensures
        spanned_by(srcs, slaves, bc, n, through) <==> (spanned_by(srcs.drop_last(), slaves, bc, n, through)
            || (via_bcachefs(slaves, bc, srcs.last().0@) == through && source_members(slaves, bc, srcs.last().0@).contains(n))),
{
    let d = srcs.drop_last();
    if spanned_by(srcs, slaves, bc, n, through) {
        let i = choose|i: int| 0 <= i < srcs.len() && via_bcachefs(slaves, bc, srcs[i].0@) == through
            && #[trigger] source_members(slaves, bc, srcs[i].0@).contains(n);
        if i < d.len() {
            assert(d[i] == srcs[i]);
        }
    }
    if spanned_by(d, slaves, bc, n, through) {
        let i = choose|i: int| 0 <= i < d.len() && via_bcachefs(slaves, bc, d[i].0@) == through
            && #[trigger] source_members(slaves, bc, d[i].0@).contains(n);
        assert(d[i] == srcs[i]);
    }
    if via_bcachefs(slaves, bc, srcs.last().0@) == through && source_members(slaves, bc, srcs.last().0@).contains(n) {
        assert(source_members(slaves, bc, srcs[srcs.len() - 1].0@).contains(n));
    }
}

proof fn lemma_nonempty_len(s: Set<Seq<char>>, n: Seq<char>)
    requires
        s.finite(),
        s.contains(n),
    ensures
        s.len() > 0,
{
    assert(s.remove(n).len() == s.len() - 1);
}

proof fn lemma_plain_usage_domain(srcs: Seq<(String, u64)>, slaves: Seq<(String, Vec<String>)>, bc: Seq<(String, Vec<String>)>, n: Seq<char>)
    ensures
        plain_usage(srcs, slaves, bc).contains_key(n) <==> spanned_by(srcs, slaves, bc, n, false),
    decreases srcs.len(),
{
    if srcs.len() > 0 {
        lemma_plain_usage_domain(srcs.drop_last(), slaves, bc, n);
        lemma_spanned_by_step(srcs, slaves, bc, n, false);
        let s = source_members(slaves, bc, srcs.last().0@);
        if s.contains(n) {
            lemma_nonempty_len(s, n);
        }
    }
}

/// Some group's disks include `n`.
spec fn in_some_group(gs: Seq<(Set<Seq<char>>, nat)>, n: Seq<char>) -> bool {
    exists|j: int| 0 <= j < gs.len() && (#[trigger] gs[j]).0.contains(n)
}

proof fn lemma_merged_groups(gs: Seq<(Set<Seq<char>>, nat)>, s: Set<Seq<char>>, u: nat, n: Seq<char>)
    ensures
        in_some_group(merged(gs, s, u), n) <==> (in_some_group(gs, n) || s.contains(n)),
{
    lemma_group_index(gs, s);
    let g2 = merged(gs, s, u);
    match group_index(gs, s) {
        Some(i) => {
            if in_some_group(g2, n) {
                let j = choose|j: int| 0 <= j < g2.len() && (#[trigger] g2[j]).0.contains(n);
                if j != i {
                    assert(g2[j] == gs[j]);
                }
            }
            if in_some_group(gs, n) {
                let j = choose|j: int| 0 <= j < gs.len() && (#[trigger] gs[j]).0.contains(n);
                assert(g2[j].0 == gs[j].0);
            }
            if s.contains(n) {
                assert(g2[i].0.contains(n));
            }
        },
        None => {
            if in_some_group(g2, n) {
                let j = choose|j: int| 0 <= j < g2.len() && (#[trigger] g2[j]).0.contains(n);
                if j < gs.len() {
                    assert(g2[j] == gs[j]);
                }
            }
            if in_some_group(gs, n) {
                let j = choose|j: int| 0 <= j < gs.len() && (#[trigger] gs[j]).0.contains(n);
                assert(g2[j] == gs[j]);
            }
            if s.contains(n) {
                assert(g2[gs.len() as int].0.contains(n));
            }
        },
    }
}

proof fn lemma_groups_domain(srcs: Seq<(String, u64)>, slaves: Seq<(String, Vec<String>)>, bc: Seq<(String, Vec<String>)>, n: Seq<char>)
    ensures
        in_some_group(bcachefs_groups(srcs, slaves, bc), n) <==> spanned_by(srcs, slaves, bc, n, true),
    decreases srcs.len(),
{
    if srcs.len() > 0 {
        lemma_groups_domain(srcs.drop_last(), slaves, bc, n);
        lemma_spanned_by_step(srcs, slaves, bc, n, true);
        let s = source_members(slaves, bc, srcs.last().0@);
        let prev = bcachefs_groups(srcs.drop_last(), slaves, bc);
        lemma_merged_groups(prev, s, srcs.last().1 as nat, n);
        if s.contains(n) {
            lemma_nonempty_len(s, n);
        }
    }
}

proof fn lemma_spread_groups_domain(m: Map<Seq<char>, nat>, gs: Seq<(Set<Seq<char>>, nat)>, n: Seq<char>)
    ensures
        spread_groups(m, gs).contains_key(n) <==> (m.contains_key(n) || in_some_group(gs, n)),
    decreases gs.len(),
{
    if gs.len() > 0 {
        let d = gs.drop_last();
        lemma_spread_groups_domain(m, d, n);
        if in_some_group(gs, n) {
            let j = choose|j: int| 0 <= j < gs.len() && (#[trigger] gs[j]).0.contains(n);
            if j < d.len() {
                assert(d[j] == gs[j]);
            }
        }
        if in_some_group(d, n) {
            let j = choose|j: int| 0 <= j < d.len() && (#[trigger] d[j]).0.contains(n);
            assert(d[j] == gs[j]);
        }
    }
}

/// A disk gets a usage entry exactly when some mounted source's
/// filesystem spans it: usage lands on the disks a filesystem lives on,
/// and nowhere else.
pub proof fn law_usage_lands_only_on_the_disks_a_filesystem_spans(
    srcs: Seq<(String, u64)>,
    slaves: Seq<(String, Vec<String>)>,
    bc: Seq<(String, Vec<String>)>,
    n: Seq<char>,
)
    ensures
        attributed(srcs, slaves, bc).contains_key(n)
            <==> exists|i: int| 0 <= i < srcs.len() && #[trigger] source_members(slaves, bc, srcs[i].0@).contains(n),
{
    lemma_plain_usage_domain(srcs, slaves, bc, n);
    lemma_groups_domain(srcs, slaves, bc, n);
    lemma_spread_groups_domain(plain_usage(srcs, slaves, bc), bcachefs_groups(srcs, slaves, bc), n);
    if exists|i: int| 0 <= i < srcs.len() && #[trigger] source_members(slaves, bc, srcs[i].0@).contains(n) {
        let i = choose|i: int| 0 <= i < srcs.len() && #[trigger] source_members(slaves, bc, srcs[i].0@).contains(n);
        if via_bcachefs(slaves, bc, srcs[i].0@) {
            assert(spanned_by(srcs, slaves, bc, n, true));
        } else {
            assert(spanned_by(srcs, slaves, bc, n, false));
        }
    }
}

/// A source with no `/dev/` piece — `overlay`, `tmpfs`, a ZFS dataset —
/// spans no disk.
pub proof fn law_virtual_sources_span_no_disk(
    slaves: Seq<(String, Vec<String>)>,
    bc: Seq<(String, Vec<String>)>,
    source: Seq<char>,
)
    requires
        forall|i: int| 0 <= i < split(source, ':').len() ==> !is_dev_piece(#[trigger] split(source, ':')[i]),
    ensures
        source_members(slaves, bc, source) == Set::<Seq<char>>::empty(),
{
    let ps = split(source, ':');
    assert forall|k: int| 0 <= k <= ps.len() implies #[trigger] pieces_members(slaves, bc, ps.take(k)).len() == 0 by {
        lemma_no_dev_pieces(slaves, bc, ps, k);
    }
    assert(ps.take(ps.len() as int) =~= ps);
    assert(pieces_members(slaves, bc, ps).len() == 0);
    assert(source_members(slaves, bc, source) =~= Set::<Seq<char>>::empty());
}

proof fn lemma_no_dev_pieces(slaves: Seq<(String, Vec<String>)>, bc: Seq<(String, Vec<String>)>, ps: Seq<Seq<char>>, k: int)
    requires
        0 <= k <= ps.len(),
        forall|i: int| 0 <= i < ps.len() ==> !is_dev_piece(#[trigger] ps[i]),
    ensures
        pieces_members(slaves, bc, ps.take(k)).len() == 0,
    decreases k,
{
    if k > 0 {
        lemma_no_dev_pieces(slaves, bc, ps, k - 1);
        assert(ps.take(k).drop_last() =~= ps.take(k - 1));
        assert(!is_dev_piece(ps[k - 1]));
    }
}

/// Some mount in `srcs` resolves through bcachefs to exactly the disks
/// of group `g` and reports exactly its usage.
pub open spec fn group_sourced(srcs: Seq<(String, u64)>, slaves: Seq<(String, Vec<String>)>, bc: Seq<(String, Vec<String>)>, g: (Set<Seq<char>>, nat)) -> bool {
    exists|i: int| 0 <= i < srcs.len() && via_bcachefs(slaves, bc, srcs[i].0@)
        && #[trigger] source_members(slaves, bc, srcs[i].0@) == g.0 && srcs[i].1 == g.1
}

/// Some group is over exactly the disks `s`, with a usage of at least `u`.
pub open spec fn group_covers(gs: Seq<(Set<Seq<char>>, nat)>, s: Set<Seq<char>>, u: nat) -> bool {
    exists|j: int| 0 <= j < gs.len() && (#[trigger] gs[j]).0 == s && gs[j].1 >= u
}

/// The bcachefs groups a list of sources makes: one per member set, and
/// each holding exactly the largest usage its mounts report.
pub open spec fn groups_count_each_filesystem_once(srcs: Seq<(String, u64)>, slaves: Seq<(String, Vec<String>)>, bc: Seq<(String, Vec<String>)>) -> bool {
    let gs = bcachefs_groups(srcs, slaves, bc);
    &&& forall|a: int, b: int| 0 <= a < gs.len() && 0 <= b < gs.len() && a != b ==> (#[trigger] gs[a]).0 != (#[trigger] gs[b]).0
    &&& forall|i: int| 0 <= i < srcs.len() && via_bcachefs(slaves, bc, srcs[i].0@)
            && #[trigger] source_members(slaves, bc, srcs[i].0@).len() > 0
            ==> group_covers(gs, source_members(slaves, bc, srcs[i].0@), srcs[i].1 as nat)
    &&& forall|j: int| 0 <= j < gs.len() ==> #[trigger] group_sourced(srcs, slaves, bc, gs[j])
}

proof fn lemma_counted_once_skip(srcs: Seq<(String, u64)>, slaves: Seq<(String, Vec<String>)>, bc: Seq<(String, Vec<String>)>)
    requires
        srcs.len() > 0,
        groups_count_each_filesystem_once(srcs.drop_last(), slaves, bc),
        !(source_members(slaves, bc, srcs.last().0@).len() > 0 && via_bcachefs(slaves, bc, srcs.last().0@)),
    ensures
        groups_count_each_filesystem_once(srcs, slaves, bc),
{
    let d = srcs.drop_last();
    let prev = bcachefs_groups(d, slaves, bc);
    let gs = bcachefs_groups(srcs, slaves, bc);
    let last = srcs.len() - 1;
    assert(srcs.last() == srcs[last]);
    assert(gs == prev);
    assert forall|i: int| 0 <= i < srcs.len() && via_bcachefs(slaves, bc, srcs[i].0@)
        && #[trigger] source_members(slaves, bc, srcs[i].0@).len() > 0
        implies group_covers(gs, source_members(slaves, bc, srcs[i].0@), srcs[i].1 as nat) by {
        assert(i != last);
        assert(d[i] == srcs[i]);
        assert(source_members(slaves, bc, d[i].0@).len() > 0);
    }
    assert forall|j: int| 0 <= j < gs.len() implies #[trigger] group_sourced(srcs, slaves, bc, gs[j]) by {
        assert(group_sourced(d, slaves, bc, prev[j]));
        let i = choose|i: int| 0 <= i < d.len() && via_bcachefs(slaves, bc, d[i].0@)
            && #[trigger] source_members(slaves, bc, d[i].0@) == prev[j].0 && d[i].1 == prev[j].1;
        assert(d[i] == srcs[i]);
    }
}

#[verifier::spinoff_prover]
#[verifier::rlimit(50)]
proof fn lemma_counted_once_join(srcs: Seq<(String, u64)>, slaves: Seq<(String, Vec<String>)>, bc: Seq<(String, Vec<String>)>, g: int)
    requires
        srcs.len() > 0,
        groups_count_each_filesystem_once(srcs.drop_last(), slaves, bc),
        source_members(slaves, bc, srcs.last().0@).len() > 0,
        via_bcachefs(slaves, bc, srcs.last().0@),
        group_index(bcachefs_groups(srcs.drop_last(), slaves, bc), source_members(slaves, bc, srcs.last().0@)) == Some(g),
    ensures
        groups_count_each_filesystem_once(srcs, slaves, bc),
{
    let d = srcs.drop_last();
    let prev = bcachefs_groups(d, slaves, bc);
    let gs = bcachefs_groups(srcs, slaves, bc);
    let last = srcs.len() - 1;
    let s = source_members(slaves, bc, srcs[last].0@);
    let u = srcs[last].1 as nat;
    assert(srcs.last() == srcs[last]);
    lemma_group_index(prev, s);
    assert(gs == prev.update(g, (s, if u > prev[g].1 { u } else { prev[g].1 })));
    assert forall|a: int, b: int| 0 <= a < gs.len() && 0 <= b < gs.len() && a != b implies (#[trigger] gs[a]).0 != (#[trigger] gs[b]).0 by {
        assert(gs[a].0 == prev[a].0);
        assert(gs[b].0 == prev[b].0);
    }
    assert forall|i: int| 0 <= i < srcs.len() && via_bcachefs(slaves, bc, srcs[i].0@)
        && #[trigger] source_members(slaves, bc, srcs[i].0@).len() > 0
        implies group_covers(gs, source_members(slaves, bc, srcs[i].0@), srcs[i].1 as nat) by {
        if i == last {
            assert(gs[g].0 == s && gs[g].1 >= u);
        } else {
            assert(d[i] == srcs[i]);
            assert(source_members(slaves, bc, d[i].0@).len() > 0);
            assert(group_covers(prev, source_members(slaves, bc, d[i].0@), d[i].1 as nat));
            let j = choose|j: int| 0 <= j < prev.len() && (#[trigger] prev[j]).0 == source_members(slaves, bc, d[i].0@)
                && prev[j].1 >= d[i].1;
            assert(gs[j].0 == prev[j].0 && gs[j].1 >= prev[j].1);
        }
    }
    assert forall|j: int| 0 <= j < gs.len() implies #[trigger] group_sourced(srcs, slaves, bc, gs[j]) by {
        if j == g && u > prev[g].1 {
            assert(source_members(slaves, bc, srcs[last].0@) == gs[j].0);
        } else {
            assert(gs[j] == prev[j]);
            assert(group_sourced(d, slaves, bc, prev[j]));
            let i = choose|i: int| 0 <= i < d.len() && via_bcachefs(slaves, bc, d[i].0@)
                && #[trigger] source_members(slaves, bc, d[i].0@) == prev[j].0 && d[i].1 == prev[j].1;
            assert(d[i] == srcs[i]);
        }
    }
}

#[verifier::spinoff_prover]
#[verifier::rlimit(50)]
proof fn lemma_counted_once_start(srcs: Seq<(String, u64)>, slaves: Seq<(String, Vec<String>)>, bc: Seq<(String, Vec<String>)>)
    requires
        srcs.len() > 0,
        groups_count_each_filesystem_once(srcs.drop_last(), slaves, bc),
        source_members(slaves, bc, srcs.last().0@).len() > 0,
        via_bcachefs(slaves, bc, srcs.last().0@),
        group_index(bcachefs_groups(srcs.drop_last(), slaves, bc), source_members(slaves, bc, srcs.last().0@)) is None,
    ensures
        groups_count_each_filesystem_once(srcs, slaves, bc),
{
    let d = srcs.drop_last();
    let prev = bcachefs_groups(d, slaves, bc);
    let gs = bcachefs_groups(srcs, slaves, bc);
    let last = srcs.len() - 1;
    let s = source_members(slaves, bc, srcs[last].0@);
    let u = srcs[last].1 as nat;
    assert(srcs.last() == srcs[last]);
    lemma_group_index(prev, s);
    assert(gs == prev.push((s, u)));
    assert forall|a: int, b: int| 0 <= a < gs.len() && 0 <= b < gs.len() && a != b implies (#[trigger] gs[a]).0 != (#[trigger] gs[b]).0 by {
        if a < prev.len() && b < prev.len() {
            assert(gs[a] == prev[a] && gs[b] == prev[b]);
        } else if a < prev.len() {
            assert(gs[a] == prev[a]);
        } else {
            assert(gs[b] == prev[b]);
        }
    }
    assert forall|i: int| 0 <= i < srcs.len() && via_bcachefs(slaves, bc, srcs[i].0@)
        && #[trigger] source_members(slaves, bc, srcs[i].0@).len() > 0
        implies group_covers(gs, source_members(slaves, bc, srcs[i].0@), srcs[i].1 as nat) by {
        if i == last {
            assert(gs[prev.len() as int].0 == s);
        } else {
            assert(d[i] == srcs[i]);
            assert(source_members(slaves, bc, d[i].0@).len() > 0);
            assert(group_covers(prev, source_members(slaves, bc, d[i].0@), d[i].1 as nat));
            let j = choose|j: int| 0 <= j < prev.len() && (#[trigger] prev[j]).0 == source_members(slaves, bc, d[i].0@)
                && prev[j].1 >= d[i].1;
            assert(gs[j] == prev[j]);
        }
    }
    assert forall|j: int| 0 <= j < gs.len() implies #[trigger] group_sourced(srcs, slaves, bc, gs[j]) by {
        if j == prev.len() {
            assert(source_members(slaves, bc, srcs[last].0@) == gs[j].0);
        } else {
            assert(gs[j] == prev[j]);
            assert(group_sourced(d, slaves, bc, prev[j]));
            let i = choose|i: int| 0 <= i < d.len() && via_bcachefs(slaves, bc, d[i].0@)
                && #[trigger] source_members(slaves, bc, d[i].0@) == prev[j].0 && d[i].1 == prev[j].1;
            assert(d[i] == srcs[i]);
        }
    }
}

/// One bcachefs filesystem mounted several times — subvolumes, or a
/// colon list and a single-member remount — is counted once, at the
/// largest usage any of its mounts reports, never summed.
pub proof fn law_a_bcachefs_filesystem_is_counted_once(
    srcs: Seq<(String, u64)>,
    slaves: Seq<(String, Vec<String>)>,
    bc: Seq<(String, Vec<String>)>,
)
    ensures
        groups_count_each_filesystem_once(srcs, slaves, bc),
    decreases srcs.len(),
{
    if srcs.len() > 0 {
        let d = srcs.drop_last();
        law_a_bcachefs_filesystem_is_counted_once(d, slaves, bc);
        let s = source_members(slaves, bc, srcs.last().0@);
        if s.len() > 0 && via_bcachefs(slaves, bc, srcs.last().0@) {
            match group_index(bcachefs_groups(d, slaves, bc), s) {
                Some(g) => lemma_counted_once_join(srcs, slaves, bc, g),
                None => lemma_counted_once_start(srcs, slaves, bc),
            }
        } else {
            lemma_counted_once_skip(srcs, slaves, bc);
        }
    }
}

} // verus!

verus! {

/// One whole disk as the device tables list it.
#[derive(Debug, Clone)]
pub struct DeviceTick {
    pub name: String,
    pub kind: DeviceKind,
    pub model: String,
    pub bus: String,
    pub size_bytes: u64,
    pub used_bytes: u64,
    pub is_removable: bool,
    pub firmware: Option<String>,
    pub serial: Option<String>,
    pub smart_ok: Option<bool>,
    pub idle: bool,
}

/// The used bytes `usage` gives disk `name`; nothing lands as zero.
pub open spec fn used_of(usage: Seq<(String, u64)>, name: Seq<char>) -> u64 {
    match key_index(usage, name) {
        Some(i) => usage[i].1,
        None => 0,
    }
}

/// Set every device's used bytes from per-disk usage (as
/// [`attribute_sources`] gives it); a device with no entry used nothing.
pub fn refresh_usage(devices: &mut Vec<DeviceTick>, usage: &Vec<(String, u64)>)
    ensures
        final(devices)@.len() == old(devices)@.len(),
        forall|i: int| 0 <= i < final(devices)@.len() ==> {
            let (a, b) = (#[trigger] final(devices)@[i], old(devices)@[i]);
            &&& a.used_bytes == used_of(usage@, b.name@)
            &&& a.name == b.name && a.kind == b.kind && a.model == b.model && a.bus == b.bus
            &&& a.size_bytes == b.size_bytes && a.is_removable == b.is_removable
            &&& a.firmware == b.firmware && a.serial == b.serial && a.smart_ok == b.smart_ok && a.idle == b.idle
        },
{
    let mut i: usize = 0;
    while i < devices.len()
        invariant
            0 <= i <= devices@.len(),
            devices@.len() == old(devices)@.len(),
            forall|j: int| 0 <= j < devices@.len() ==> {
                let (a, b) = (#[trigger] devices@[j], old(devices)@[j]);
                &&& a.used_bytes == (if j < i { used_of(usage@, b.name@) } else { b.used_bytes })
                &&& a.name == b.name && a.kind == b.kind && a.model == b.model && a.bus == b.bus
                &&& a.size_bytes == b.size_bytes && a.is_removable == b.is_removable
                &&& a.firmware == b.firmware && a.serial == b.serial && a.smart_ok == b.smart_ok && a.idle == b.idle
            },
        decreases devices@.len() - i,
    {
        let used = match find_key(usage, devices[i].name.as_str()) {
            Some(k) => usage[k].1,
            None => 0,
        };
        let ghost before = devices@;
        let mut d = devices.remove(i);
        d.used_bytes = used;
        devices.insert(i, d);
        proof {
            assert(devices@ =~= before.update(i as int, d));
        }
        i += 1;
    }
}

} // verus!

verus! {

pub open spec fn device_kind_of(k: crate::collect::linux::LinuxKind) -> DeviceKind {
    match k {
        crate::collect::linux::LinuxKind::Nvme => DeviceKind::Nvme,
        crate::collect::linux::LinuxKind::Ssd => DeviceKind::Ssd,
        crate::collect::linux::LinuxKind::Hdd => DeviceKind::Hdd,
        crate::collect::linux::LinuxKind::UsbMassStorage => DeviceKind::UsbMassStorage,
        crate::collect::linux::LinuxKind::Unknown => DeviceKind::Unknown,
    }
}

/// The bus column for a disk sysfs describes.
pub open spec fn linux_bus(k: DeviceKind) -> Seq<char> {
    match k {
        DeviceKind::Nvme => "PCIe / NVMe"@,
        DeviceKind::UsbMassStorage => "USB"@,
        DeviceKind::Hdd | DeviceKind::Ssd => "SATA / internal"@,
        DeviceKind::Unknown => "\u{2014}"@,
    }
}

/// The device-table row for a disk sysfs describes, with the used bytes
/// attributed to it. SMART status is left to the SMART collector; a disk
/// reporting no size is idle.
pub fn linux_device_tick(l: crate::collect::linux::LinuxDevice, used: u64) -> (d: DeviceTick)
    ensures
        d.name == l.name,
        d.kind == device_kind_of(l.kind),
        d.model == l.model,
        d.bus@ == linux_bus(d.kind),
        d.size_bytes == l.size_bytes,
        d.used_bytes == used,
        d.is_removable == l.removable,
        d.firmware == l.firmware,
        d.serial == l.serial,
        d.smart_ok is None,
        d.idle == (l.size_bytes == 0),
{
    let kind = match l.kind {
        crate::collect::linux::LinuxKind::Nvme => DeviceKind::Nvme,
        crate::collect::linux::LinuxKind::Ssd => DeviceKind::Ssd,
        crate::collect::linux::LinuxKind::Hdd => DeviceKind::Hdd,
        crate::collect::linux::LinuxKind::UsbMassStorage => DeviceKind::UsbMassStorage,
        crate::collect::linux::LinuxKind::Unknown => DeviceKind::Unknown,
    };
    let bus = match kind {
        DeviceKind::Nvme => owned("PCIe / NVMe"),
        DeviceKind::UsbMassStorage => owned("USB"),
        DeviceKind::Hdd | DeviceKind::Ssd => owned("SATA / internal"),
        DeviceKind::Unknown => owned("\u{2014}"),
    };
    let idle = l.size_bytes == 0;
    DeviceTick {
        name: l.name,
        kind,
        model: l.model,
        bus,
        size_bytes: l.size_bytes,
        used_bytes: used,
        is_removable: l.removable,
        firmware: l.firmware,
        serial: l.serial,
        smart_ok: None,
        idle,
    }
}

} // verus!

verus! {

/// The usage list after a mounted source reports `used` bytes: a source
/// mounted at several points is one filesystem, kept once at its largest
/// reading; a source using nothing is left out.
pub open spec fn noted(m: Map<Seq<char>, nat>, source: Seq<char>, used: nat) -> Map<Seq<char>, nat> {
    if used == 0 {
        m
    } else if m.contains_key(source) && m[source] >= used {
        m
    } else {
        m.insert(source, used)
    }
}

pub fn note_source(by_source: &mut Vec<(String, u64)>, source: &str, used: u64)
    requires
        crate::keyed::keys_distinct(old(by_source)@),
    ensures
        crate::keyed::keys_distinct(final(by_source)@),
        usage_map(final(by_source)@) == noted(usage_map(old(by_source)@), source@, used as nat),
{
    if used == 0 {
        return;
    }
    match find_key(by_source, source) {
        Some(i) => {
            proof {
                crate::keyed::lemma_key_index(by_source@, source@);
                crate::keyed::lemma_distinct_key_index(by_source@, i as int);
            }
            if used > by_source[i].1 {
                let ghost before = by_source@;
                by_source.set(i, (owned(source), used));
                proof {
                    lemma_usage_map_update(before, i as int, (by_source@[i as int].0, used));
                }
            }
        },
        None => {
            let ghost before = by_source@;
            by_source.push((owned(source), used));
            proof {
                lemma_usage_map_push(before, (by_source@[before.len() as int].0, used));
                assert(by_source@ == before.push((by_source@[before.len() as int].0, used)));
            }
        },
    }
}

} // verus!

verus! {

proof fn lemma_sat_twice(x: int, y: int)
    requires
        x >= 0,
        y >= 0,
    ensures
        sat(sat(x) + y) == sat(x + y),
{
}

proof fn lemma_add_share_commutes(m: Map<Seq<char>, nat>, a: Set<Seq<char>>, x: nat, b: Set<Seq<char>>, y: nat)
    ensures
        add_share(add_share(m, a, x), b, y) == add_share(add_share(m, b, y), a, x),
{
    let m1 = add_share(add_share(m, a, x), b, y);
    let m2 = add_share(add_share(m, b, y), a, x);
    assert forall|n: Seq<char>| #[trigger] m1.contains_key(n) <==> m2.contains_key(n) by {}
    assert forall|n: Seq<char>| m1.contains_key(n) implies #[trigger] m1[n] == m2[n] by {
        let base: int = if m.contains_key(n) { m[n] as int } else { 0 };
        if a.contains(n) && b.contains(n) {
            lemma_sat_twice(base + x, y as int);
            lemma_sat_twice(base + y, x as int);
            assert(base + x + y == base + y + x);
        }
    }
    assert(m1 =~= m2);
}

proof fn lemma_spread_through_groups(m: Map<Seq<char>, nat>, gs: Seq<(Set<Seq<char>>, nat)>, s: Set<Seq<char>>, u: nat)
    ensures
        spread_groups(spread(m, s, u), gs) == spread(spread_groups(m, gs), s, u),
    decreases gs.len(),
{
    if gs.len() > 0 {
        lemma_spread_through_groups(m, gs.drop_last(), s, u);
        let inner = spread_groups(m, gs.drop_last());
        lemma_add_share_commutes(inner, s, u / s.len(), gs.last().0, gs.last().1 / gs.last().0.len());
    }
}

/// Independent filesystems add up: a mount that does not resolve through
/// the bcachefs member map puts its share on each of its disks on top of
/// whatever the others put there — two LVs on the same disks both count.
pub proof fn law_independent_filesystems_add_up(
    srcs: Seq<(String, u64)>,
    x: (String, u64),
    slaves: Seq<(String, Vec<String>)>,
    bc: Seq<(String, Vec<String>)>,
)
    requires
        !via_bcachefs(slaves, bc, x.0@),
        source_members(slaves, bc, x.0@).len() > 0,
    ensures
        attributed(srcs.push(x), slaves, bc)
            == spread(attributed(srcs, slaves, bc), source_members(slaves, bc, x.0@), x.1 as nat),
{
    let s2 = srcs.push(x);
    assert(s2.drop_last() =~= srcs);
    assert(s2.last() == x);
    assert(plain_usage(s2, slaves, bc) == spread(plain_usage(srcs, slaves, bc), source_members(slaves, bc, x.0@), x.1 as nat));
    assert(bcachefs_groups(s2, slaves, bc) == bcachefs_groups(srcs, slaves, bc));
    lemma_spread_through_groups(plain_usage(srcs, slaves, bc), bcachefs_groups(srcs, slaves, bc),
        source_members(slaves, bc, x.0@), x.1 as nat);
}

} // verus!

verus! {

/// Each member of a multi-device bcachefs filesystem, with the full set of
/// members of its filesystem; a filesystem with fewer than two distinct
/// members needs no expansion. A member listed again takes its later set.
pub open spec fn member_sets(fss: Seq<Seq<Seq<char>>>) -> Map<Seq<char>, Set<Seq<char>>>
    decreases fss.len(),
{
    if fss.len() == 0 {
        Map::empty()
    } else {
        let prev = member_sets(fss.drop_last());
        let s = fss.last().to_set();
        if s.len() >= 2 {
            Map::new(|k: Seq<char>| prev.contains_key(k) || s.contains(k), |k: Seq<char>| if s.contains(k) { s } else { prev[k] })
        } else {
            prev
        }
    }
}

/// The member sets a lookup table gives.
pub open spec fn table_sets(t: Seq<(String, Vec<String>)>) -> Map<Seq<char>, Set<Seq<char>>> {
    crate::keyed::entries_map(t).map_values(|l: Vec<String>| names(l@).to_set())
}

pub open spec fn member_lists(fss: Seq<Vec<String>>) -> Seq<Seq<Seq<char>>> {
    fss.map_values(|fs: Vec<String>| names(fs@))
}

/// Set the entry for `name` to `list`, adding it if there is none.
fn put_members(t: &mut Vec<(String, Vec<String>)>, name: &String, list: Vec<String>)
    requires
        crate::keyed::keys_distinct(old(t)@),
    ensures
        crate::keyed::keys_distinct(final(t)@),
        crate::keyed::entries_map(final(t)@) == crate::keyed::entries_map(old(t)@).insert(name@, list),
{
    let key = name.as_str();
    proof {
        assert(key@ == name@);
    }
    match find_key(t, key) {
        Some(i) => {
            let ghost before = t@;
            proof {
                crate::keyed::lemma_key_index(t@, key@);
            }
            t.set(i, (name.clone(), list));
            proof {
                crate::keyed::lemma_entries_update(before, i as int, t@[i as int]);
            }
        },
        None => {
            let ghost before = t@;
            t.push((name.clone(), list));
            proof {
                crate::keyed::lemma_entries_push(before, t@[before.len() as int]);
                assert(t@ == before.push(t@[before.len() as int]));
            }
        },
    }
}

/// The bcachefs member lookup: every member of each filesystem given as
/// its list of member disks, mapped to the filesystem's full member set.
pub fn member_table(filesystems: &Vec<Vec<String>>) -> (t: Vec<(String, Vec<String>)>)
    ensures
        crate::keyed::keys_distinct(t@),
        table_sets(t@) == member_sets(member_lists(filesystems@)),
{
    let ghost fss = member_lists(filesystems@);
    let mut t: Vec<(String, Vec<String>)> = Vec::new();
    proof {
        assert(table_sets(t@) =~= Map::<Seq<char>, Set<Seq<char>>>::empty());
        assert(fss.take(0) =~= Seq::<Seq<Seq<char>>>::empty());
    }
    let mut k: usize = 0;
    while k < filesystems.len()
        invariant
            0 <= k <= filesystems@.len(),
            fss == member_lists(filesystems@),
            crate::keyed::keys_distinct(t@),
            table_sets(t@) == member_sets(fss.take(k as int)),
        decreases filesystems@.len() - k,
    {
        let mut set: Vec<String> = Vec::new();
        insert_names(&mut set, &filesystems[k]);
        let ghost s = fss[k as int].to_set();
        let ghost prev = table_sets(t@);
        proof {
            assert(fss.take(k + 1).drop_last() =~= fss.take(k as int));
            assert(fss.take(k + 1).last() == fss[k as int]);
            assert(fss[k as int] == names(filesystems@[k as int]@));
            assert(names(set@).to_set() =~= s);
            names(set@).unique_seq_to_set();
        }
        if set.len() >= 2 {
            let mut j: usize = 0;
            while j < set.len()
                invariant
                    0 <= j <= set@.len(),
                    names(set@).no_duplicates(),
                    names(set@).to_set() == s,
                    crate::keyed::keys_distinct(t@),
                    table_sets(t@) == Map::new(
                        |key: Seq<char>| prev.contains_key(key) || names(set@).take(j as int).contains(key),
                        |key: Seq<char>| if names(set@).take(j as int).contains(key) { s } else { prev[key] },
                    ),
                decreases set@.len() - j,
            {
                let list = copy_names(&set);
                let ghost before = table_sets(t@);
                put_members(&mut t, &set[j], list);
                proof {
                    let tk = names(set@).take(j as int);
                    let tk2 = names(set@).take(j + 1);
                    assert(tk2 =~= tk.push(set@[j as int]@));
                    assert forall|key: Seq<char>| #[trigger] tk2.contains(key) <==> (tk.contains(key) || key == set@[j as int]@) by {
                        lemma_push_contains(tk, set@[j as int]@, key);
                    }
                    assert(names(list@).to_set() == s);
                    assert(table_sets(t@) =~= before.insert(set@[j as int]@, s));
                    assert(table_sets(t@) =~= Map::new(
                        |key: Seq<char>| prev.contains_key(key) || tk2.contains(key),
                        |key: Seq<char>| if tk2.contains(key) { s } else { prev[key] },
                    ));
                }
                j += 1;
            }
            proof {
                assert(names(set@).take(set@.len() as int) =~= names(set@));
                assert forall|key: Seq<char>| names(set@).contains(key) <==> #[trigger] s.contains(key) by {}
                assert(table_sets(t@) =~= member_sets(fss.take(k + 1)));
            }
        } else {
            proof {
                assert(member_sets(fss.take(k + 1)) == member_sets(fss.take(k as int)));
            }
        }
        k += 1;
    }
    proof {
        assert(fss.take(fss.len() as int) =~= fss);
    }
    t
}

} // verus!

verus! {

/// The devices of `s` whose size is `k`, in their order in `s`.
pub open spec fn of_size(s: Seq<DeviceTick>, k: u64) -> Seq<DeviceTick> {
    s.filter(|d: DeviceTick| d.size_bytes == k)
}

/// Largest first: no device is smaller than one after it.
pub open spec fn largest_first_order(s: Seq<DeviceTick>) -> bool {
    forall|i: int, j: int| 0 <= i < j < s.len() ==> s[i].size_bytes >= s[j].size_bytes
}

proof fn lemma_of_size_push(s: Seq<DeviceTick>, x: DeviceTick, k: u64)
    ensures
        of_size(s.push(x), k) == if x.size_bytes == k { of_size(s, k).push(x) } else { of_size(s, k) },
{
    reveal(Seq::filter);
    assert(s.push(x).drop_last() =~= s);
}

proof fn lemma_of_size_none(s: Seq<DeviceTick>, k: u64)
    requires
        forall|j: int| 0 <= j < s.len() ==> s[j].size_bytes != k,
    ensures
        of_size(s, k) == Seq::<DeviceTick>::empty(),
    decreases s.len(),
{
    reveal(Seq::filter);
    if s.len() > 0 {
        lemma_of_size_none(s.drop_last(), k);
    }
}

proof fn lemma_of_size_one(x: DeviceTick, k: u64)
    ensures
        of_size(seq![x], k) == if x.size_bytes == k { seq![x] } else { Seq::<DeviceTick>::empty() },
{
    lemma_of_size_push(Seq::<DeviceTick>::empty(), x, k);
    lemma_of_size_none(Seq::<DeviceTick>::empty(), k);
    assert(Seq::<DeviceTick>::empty().push(x) =~= seq![x]);
}

/// Placing `x` after every device at least its size and before every smaller
/// one adds it to the end of its own size class and leaves the others alone.
proof fn lemma_of_size_insert(r: Seq<DeviceTick>, i: int, x: DeviceTick, k: u64)
    requires
        0 <= i <= r.len(),
        forall|j: int| 0 <= j < i ==> r[j].size_bytes >= x.size_bytes,
        forall|j: int| i <= j < r.len() ==> r[j].size_bytes < x.size_bytes,
    ensures
        of_size(r.insert(i, x), k) == if x.size_bytes == k { of_size(r, k).push(x) } else { of_size(r, k) },
{
    let p = |d: DeviceTick| d.size_bytes == k;
    let a = r.take(i);
    let b = r.skip(i);
    assert(r =~= a + b);
    assert(r.insert(i, x) =~= a + (seq![x] + b));
    Seq::filter_distributes_over_add(a, b, p);
    Seq::filter_distributes_over_add(a, seq![x] + b, p);
    Seq::filter_distributes_over_add(seq![x], b, p);
    lemma_of_size_one(x, k);
    if x.size_bytes == k {
        lemma_of_size_none(b, k);
        assert(of_size(r, k) =~= of_size(a, k));
        assert(of_size(r.insert(i, x), k) =~= of_size(a, k).push(x));
    } else {
        assert(seq![x].filter(p) + b.filter(p) =~= b.filter(p));
    }
}

/// The device list largest first; devices of equal size keep the order
/// they came in.
pub fn largest_first(devices: Vec<DeviceTick>) -> (r: Vec<DeviceTick>)
    ensures
        largest_first_order(r@),
        forall|k: u64| #[trigger] of_size(r@, k) == of_size(devices@, k),
{
    let ghost orig = devices@;
    let mut rest = devices;
    let mut out: Vec<DeviceTick> = Vec::new();
    let ghost mut taken: int = 0;
    proof {
        assert forall|k: u64| #[trigger] of_size(out@, k) == of_size(orig.take(0), k) by {
            assert(out@ =~= orig.take(0));
        }
    }
    while rest.len() > 0
        invariant
            0 <= taken <= orig.len(),
            rest@ == orig.skip(taken),
            largest_first_order(out@),
            forall|k: u64| #[trigger] of_size(out@, k) == of_size(orig.take(taken), k),
        decreases rest@.len(),
    {
        let x = rest.remove(0);
        proof {
            assert(x == orig[taken]);
            assert(rest@ =~= orig.skip(taken + 1));
            assert(orig.take(taken + 1) =~= orig.take(taken).push(x));
        }
        let mut i: usize = 0;
        while i < out.len() && out[i].size_bytes >= x.size_bytes
            invariant
                0 <= i <= out@.len(),
                forall|j: int| 0 <= j < i ==> out@[j].size_bytes >= x.size_bytes,
            decreases out@.len() - i,
        {
            i += 1;
        }
        let ghost before = out@;
        proof {
            assert forall|j: int| i <= j < before.len() implies before[j].size_bytes < x.size_bytes by {
                if i < before.len() {
                    assert(before[i as int].size_bytes < x.size_bytes);
                    if j > i {
                        assert(before[i as int].size_bytes >= before[j].size_bytes);
                    }
                }
            }
        }
        out.insert(i, x);
        proof {
            assert(out@ =~= before.insert(i as int, x));
            assert forall|k: u64| #[trigger] of_size(out@, k) == of_size(orig.take(taken + 1), k) by {
                lemma_of_size_insert(before, i as int, x, k);
                lemma_of_size_push(orig.take(taken), x, k);
            }
            assert forall|a: int, b: int| 0 <= a < b < out@.len() implies out@[a].size_bytes >= out@[b].size_bytes by {
                if b < i {
                } else if b == i {
                } else if a < i {
                    assert(out@[b] == before[b - 1]);
                } else if a == i {
                    assert(out@[b] == before[b - 1]);
                } else {
                    assert(out@[a] == before[a - 1]);
                    assert(out@[b] == before[b - 1]);
                }
            }
            taken = taken + 1;
        }
    }
    proof {
        assert(orig.take(taken) =~= orig);
    }
    out
}

} // verus!
