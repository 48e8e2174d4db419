//! The dense view: six btop-style boxes tiling the screen with no chrome
//! rows — a mirrored read/write graph, devices, latency, volumes, SMART and
//! hot files, all at once. This module holds its layout and the labels it
//! prints.

use vstd::prelude::*;
use crate::collect::io::GRAPH_SAMPLE_MS;
use crate::text::{cat, decimal, format_u64, owned, push_char, string_of, to_chars};
use crate::ui::rect::Rect;

verus! {

/// What the hot-files box is ordered by.
#[derive(Debug, Clone, Copy, PartialEq, Eq, Structural)]
pub enum FileSort {
    Rate,
    Total,
    Name,
}

pub open spec fn sort_after(s: FileSort) -> FileSort {
    match s {
        FileSort::Rate => FileSort::Total,
        FileSort::Total => FileSort::Name,
        FileSort::Name => FileSort::Rate,
    }
}

pub open spec fn sort_label(s: FileSort) -> Seq<char> {
    match s {
        FileSort::Rate => "events"@,
        FileSort::Total => "total"@,
        FileSort::Name => "name"@,
    }
}

/// The column header that lights up for a sort.
pub open spec fn sort_column(s: FileSort) -> Seq<char> {
    match s {
        FileSort::Rate => "EVENTS/S"@,
        FileSort::Total => "TOTAL"@,
        FileSort::Name => "FILE"@,
    }
}

impl FileSort {
    pub fn next(self) -> (s: FileSort)
        ensures
            s == sort_after(self),
    {
        match self {
            FileSort::Rate => FileSort::Total,
            FileSort::Total => FileSort::Name,
            FileSort::Name => FileSort::Rate,
        }
    }

    /// The name the box's title gives the sort.
    pub fn label(self) -> (s: &'static str)
        ensures
            s@ == sort_label(self),
    {
        match self {
            FileSort::Rate => "events",
            FileSort::Total => "total",
            FileSort::Name => "name",
        }
    }

    /// The header that lights up. Derived from the same value the sort
    /// uses, so the indicator and the order cannot disagree.
    pub fn column(self) -> (s: &'static str)
        ensures
            s@ == sort_column(self),
    {
        match self {
            FileSort::Rate => "EVENTS/S",
            FileSort::Total => "TOTAL",
            FileSort::Name => "FILE",
        }
    }
}

/// Three steps of the sort cycle return to the start, meeting every sort,
/// and each sort's label and column are named.
pub proof fn law_sort_cycle(s: FileSort)
    ensures
        sort_after(sort_after(sort_after(s))) == s,
        sort_after(s) != s,
        sort_label(s).len() > 0,
        sort_column(s).len() > 0,
{
    reveal_strlit("events");
    reveal_strlit("total");
    reveal_strlit("name");
    reveal_strlit("EVENTS/S");
    reveal_strlit("TOTAL");
    reveal_strlit("FILE");
}

// ── time labels ──────────────────────────────────────────────────────────

/// Elapsed time, for "polled N ago": hours from an hour up, minutes from
/// two minutes up, seconds below.
pub open spec fn age_text(secs: nat) -> Seq<char> {
    if secs >= 3600 {
        decimal(secs / 3600) + "h"@
    } else if secs >= 120 {
        decimal(secs / 60) + "m"@
    } else {
        decimal(secs) + "s"@
    }
}

pub fn age(secs: u64) -> (s: String)
    ensures
        s@ == age_text(secs as nat),
{
    if secs >= 3600 {
        cat(format_u64(secs / 3600), "h")
    } else if secs >= 120 {
        cat(format_u64(secs / 60), "m")
    } else {
        cat(format_u64(secs), "s")
    }
}

/// Seconds covered by `columns` of the graph ring.
pub open spec fn span_of(columns: nat) -> nat {
    columns * (GRAPH_SAMPLE_MS as nat) / 1000
}

/// Seconds covered by `columns` of the graph ring — a second count, never
/// the column count it is easy to write in its place.
pub fn span_secs(columns: usize) -> (s: usize)
    requires
        columns * GRAPH_SAMPLE_MS <= usize::MAX,
    ensures
        s == span_of(columns as nat),
{
    columns * GRAPH_SAMPLE_MS / 1000
}

/// A span in seconds, as an axis caption: minutes from two minutes up.
pub open spec fn secs_text(n: nat) -> Seq<char> {
    if n >= 120 {
        decimal(n / 60) + "m"@
    } else {
        decimal(n) + "s"@
    }
}

pub fn secs_label(n: usize) -> (s: String)
    ensures
        s@ == secs_text(n as nat),
{
    if n >= 120 {
        cat(format_u64((n / 60) as u64), "m")
    } else {
        cat(format_u64(n as u64), "s")
    }
}

/// `n` in two digits, zero-padded.
pub open spec fn two_digits(n: nat) -> Seq<char> {
    if n < 10 {
        "0"@ + decimal(n)
    } else {
        decimal(n)
    }
}

/// Uptime as `Dd HH:MM`, or `HH:MM` under a day.
pub open spec fn uptime_text(secs: nat) -> Seq<char> {
    let d = secs / 86_400;
    let h = (secs % 86_400) / 3600;
    let m = (secs % 3600) / 60;
    if d > 0 {
        decimal(d) + "d "@ + two_digits(h) + ":"@ + two_digits(m)
    } else {
        two_digits(h) + ":"@ + two_digits(m)
    }
}

fn pad2(n: u64) -> (s: String)
    ensures
        s@ == two_digits(n as nat),
{
    if n < 10 {
        cat(owned("0"), format_u64(n).as_str())
    } else {
        format_u64(n)
    }
}

pub fn uptime(secs: u64) -> (s: String)
    ensures
        s@ == uptime_text(secs as nat),
{
    let d = secs / 86_400;
    let h = (secs % 86_400) / 3600;
    let m = (secs % 3600) / 60;
    let hm = cat(cat(pad2(h), ":"), pad2(m).as_str());
    if d > 0 {
        cat(cat(format_u64(d), "d "), hm.as_str())
    } else {
        hm
    }
}

// ── clipping ─────────────────────────────────────────────────────────────

/// `s` cut to at most `n` characters, losing its own tail rather than
/// overwriting the field beside it.
pub open spec fn clamp_text(s: Seq<char>, n: nat) -> Seq<char> {
    if s.len() <= n {
        s
    } else {
        s.take(n as int)
    }
}

pub fn clamp(s: &str, n: usize) -> (r: String)
    ensures
        r@ == clamp_text(s@, n as nat),
{
    let v = to_chars(s);
    if v.len() <= n {
        return owned(s);
    }
    proof {
        assert(v@.subrange(0, n as int) =~= v@.take(n as int));
    }
    string_of(&v, 0, n)
}

/// A path that does not fit keeps its tail, since the leading components
/// are usually shared: an ellipsis, then the last `n - 1` characters.
pub open spec fn tail_path_text(s: Seq<char>, n: nat) -> Seq<char> {
    if s.len() <= n {
        s
    } else {
        seq!['\u{2026}'] + s.skip(s.len() - (n - 1))
    }
}

pub fn tail_path(s: &str, n: usize) -> (r: String)
    requires
        s@.len() <= n || n >= 1,
    ensures
        r@ == tail_path_text(s@, n as nat),
{
    let v = to_chars(s);
    let len = v.len();
    if len <= n {
        return owned(s);
    }
    let mut r = String::new();
    push_char(&mut r, '\u{2026}');
    let keep = string_of(&v, len - (n - 1), len);
    proof {
        assert(v@.subrange(len - (n - 1), len as int) =~= v@.skip(len - (n - 1)));
        assert(seq!['\u{2026}'] =~= Seq::<char>::empty().push('\u{2026}'));
    }
    cat(r, keep.as_str())
}

/// A clipped path is exactly as wide as its column, and begins with the
/// ellipsis that says it was clipped.
pub proof fn law_tail_path_fits(s: Seq<char>, n: nat)
    requires
        n >= 1,
    ensures
        tail_path_text(s, n).len() == if s.len() <= n { s.len() } else { n },
        s.len() > n ==> tail_path_text(s, n)[0] == '\u{2026}',
        clamp_text(s, n).len() <= n,
{
}

} // verus!

verus! {

// ── layout ───────────────────────────────────────────────────────────────

/// Smallest terminal the six-box layout fits in.
pub const MIN_FULL_W: u16 = 104;
pub const MIN_FULL_H: u16 = 32;
/// Smallest terminal the compact layout fits in.
pub const MIN_W: u16 = 60;
pub const MIN_H: u16 = 16;

/// Where the six boxes go.
#[derive(Debug, Clone, Copy, PartialEq, Eq, Structural)]
pub struct Layout {
    pub io: Rect,
    pub devices: Rect,
    pub latency: Rect,
    pub volumes: Rect,
    pub smart: Rect,
    pub files: Rect,
    /// Rows the read graph gets; the write graph gets one fewer.
    pub read_rows: u16,
}

/// Rows of the read graph: four on a tall screen, else three.
pub open spec fn read_rows_for(h: u16) -> u16 {
    if h >= 40 { 4 } else { 3 }
}

/// The io box: borders, read rows, axis, write rows, two headlines and the
/// vitals line.
pub open spec fn io_height(h: u16) -> u16 {
    (2 + 1 + read_rows_for(h) + 1 + (read_rows_for(h) - 1) + 1 + 1) as u16
}

pub open spec fn mid_height(h: u16) -> u16 {
    let a: int = if 12 < h / 4 { 12 } else { (h / 4) as int };
    (if a > 8 { a } else { 8 }) as u16
}

pub open spec fn low_height(h: u16) -> u16 {
    let a: int = if 8 < h / 5 { 8 } else { (h / 5) as int };
    (if a > 6 { a } else { 6 }) as u16
}

pub open spec fn files_height(h: u16) -> u16 {
    let used = io_height(h) + mid_height(h) + low_height(h);
    let rest: int = if h >= used { h - used } else { 0 };
    (if rest > 5 { rest } else { 5 }) as u16
}

/// Devices takes the wider half: its table carries seven columns, the
/// histogram four.
pub open spec fn left_width(w: u16) -> u16 {
    (w * 66 / 130) as u16
}

/// The layout for `area`.
pub open spec fn layout_for(area: Rect) -> Layout {
    let h = area.height;
    let w = area.width;
    let io_h = io_height(h);
    let mid_h = mid_height(h);
    let low_h = low_height(h);
    let left = left_width(w);
    let y0 = area.y;
    Layout {
        io: crate::ui::rect::rect_new(area.x, y0, w, io_h),
        devices: crate::ui::rect::rect_new(area.x, (y0 + io_h) as u16, left, mid_h),
        latency: crate::ui::rect::rect_new((area.x + left) as u16, (y0 + io_h) as u16, (w - left) as u16, mid_h),
        volumes: crate::ui::rect::rect_new(area.x, (y0 + io_h + mid_h) as u16, left, low_h),
        smart: crate::ui::rect::rect_new((area.x + left) as u16, (y0 + io_h + mid_h) as u16, (w - left) as u16, low_h),
        files: crate::ui::rect::rect_new(area.x, (y0 + io_h + mid_h + low_h) as u16, w, files_height(h)),
        read_rows: read_rows_for(h),
    }
}

/// The layout's rows and columns all lie on the plane.
pub open spec fn layout_fits(area: Rect) -> bool {
    &&& area.y + io_height(area.height) + mid_height(area.height) + low_height(area.height) <= u16::MAX
    &&& area.x + left_width(area.width) <= u16::MAX
}

impl Layout {
    pub fn new(area: Rect) -> (l: Layout)
        requires
            layout_fits(area),
        ensures
            l == layout_for(area),
    {
        let read_rows: u16 = if area.height >= 40 { 4 } else { 3 };
        let io_h: u16 = 2 + 1 + read_rows + 1 + (read_rows - 1) + 1 + 1;
        let q4 = area.height / 4;
        let a4: u16 = if 12 < q4 { 12 } else { q4 };
        let mid_h: u16 = if a4 > 8 { a4 } else { 8 };
        let q5 = area.height / 5;
        let a5: u16 = if 8 < q5 { 8 } else { q5 };
        let low_h: u16 = if a5 > 6 { a5 } else { 6 };
        let used = io_h + mid_h + low_h;
        let rest: u16 = if area.height >= used { area.height - used } else { 0 };
        let files_h: u16 = if rest > 5 { rest } else { 5 };
        let left_w = ((area.width as u32) * 66 / 130) as u16;
        let right_w = area.width - left_w;
        let y0 = area.y;
        Layout {
            io: Rect::new(area.x, y0, area.width, io_h),
            devices: Rect::new(area.x, y0 + io_h, left_w, mid_h),
            latency: Rect::new(area.x + left_w, y0 + io_h, right_w, mid_h),
            volumes: Rect::new(area.x, y0 + io_h + mid_h, left_w, low_h),
            smart: Rect::new(area.x + left_w, y0 + io_h + mid_h, right_w, low_h),
            files: Rect::new(area.x, y0 + io_h + mid_h + low_h, area.width, files_h),
            read_rows,
        }
    }

    pub open spec fn visible_files_spec(self) -> u16 {
        if self.files.height >= 3 { (self.files.height - 3) as u16 } else { 0 }
    }

    /// File rows on screen: the box interior less its header row.
    pub fn visible_files(&self) -> (n: u16)
        ensures
            n == self.visible_files_spec(),
    {
        self.files.height.saturating_sub(3)
    }
}

/// Rows the file list can show at `area`, whichever layout that area
/// selects.
pub open spec fn visible_files_for(area: Rect) -> u16 {
    if area.width >= MIN_FULL_W && area.height >= MIN_FULL_H {
        layout_for(area).visible_files_spec()
    } else {
        let r: int = if area.height >= 11 { area.height - 11 } else { 0 };
        (if r > 1 { r } else { 1 }) as u16
    }
}

pub fn visible_files(area: Rect) -> (n: u16)
    requires
        area.width >= MIN_FULL_W && area.height >= MIN_FULL_H ==> layout_fits(area),
    ensures
        n == visible_files_for(area),
{
    if area.width >= MIN_FULL_W && area.height >= MIN_FULL_H {
        Layout::new(area).visible_files()
    } else {
        let r = area.height.saturating_sub(11);
        if r > 1 { r } else { 1 }
    }
}

/// At every size the six-box layout is chosen for, the boxes tile the
/// screen exactly — zero chrome rows is the whole premise: the io box sits
/// on top, each row of boxes starts where the one above ends, the files
/// box ends on the last row, the two halves of each middle row fill the
/// width, and at least one file row is visible.
pub proof fn law_the_dense_layout_tiles_the_screen(area: Rect)
    requires
        area.width >= MIN_FULL_W,
        area.height >= MIN_FULL_H,
        area.on_plane(),
    ensures
        layout_fits(area),
        ({
            let l = layout_for(area);
            &&& l.io.y == area.y
            &&& l.devices.y == l.io.bottom_spec()
            &&& l.latency.y == l.io.bottom_spec()
            &&& l.volumes.y == l.devices.bottom_spec()
            &&& l.smart.y == l.devices.bottom_spec()
            &&& l.files.y == l.volumes.bottom_spec()
            &&& l.files.bottom_spec() == area.y + area.height
            &&& l.devices.width + l.latency.width == area.width
            &&& l.volumes.width + l.smart.width == area.width
            &&& l.visible_files_spec() >= 1
        }),
{
    let w = area.width;
    assert(w * 66 / 130 <= w) by (nonlinear_arith)
        requires
            w >= 0;
}

} // verus!

verus! {

// ── view state ───────────────────────────────────────────────────────────

/// The dense view's selection, filter and sort.
#[derive(Debug, Clone)]
pub struct DenseState {
    pub selected: usize,
    pub offset: usize,
    pub filter_input: bool,
    pub filter_text: String,
    pub sort: FileSort,
}

pub ghost struct DenseModel {
    pub selected: nat,
    pub offset: nat,
    pub filter_input: bool,
    pub filter_text: Seq<char>,
    pub sort: FileSort,
}

impl View for DenseState {
    type V = DenseModel;

    open spec fn view(&self) -> DenseModel {
        DenseModel {
            selected: self.selected as nat,
            offset: self.offset as nat,
            filter_input: self.filter_input,
            filter_text: self.filter_text@,
            sort: self.sort,
        }
    }
}

impl DenseState {
    pub fn new() -> (s: DenseState)
        ensures
            s@ == (DenseModel { selected: 0, offset: 0, filter_input: false, filter_text: Seq::empty(), sort: FileSort::Rate }),
    {
        DenseState { selected: 0, offset: 0, filter_input: false, filter_text: String::new(), sort: FileSort::Rate }
    }
}

/// The selection kept inside the list and the window kept around it.
pub open spec fn dense_clamped(d: DenseModel, count: nat, visible: nat) -> DenseModel {
    if count == 0 || visible == 0 {
        DenseModel { selected: 0, offset: 0, ..d }
    } else {
        let sel: nat = if d.selected > count - 1 { (count - 1) as nat } else { d.selected };
        let o1: nat = if sel < d.offset {
            sel
        } else if sel >= d.offset + visible {
            (sel + 1 - visible) as nat
        } else {
            d.offset
        };
        let shown: nat = if visible < count { visible } else { count };
        let max_off: nat = (count - shown) as nat;
        DenseModel { selected: sel, offset: if o1 > max_off { max_off } else { o1 }, ..d }
    }
}

/// Keep the selection inside the file box's visible window.
pub fn clamp_dense_scroll(d: &mut DenseState, count: usize, visible: u16)
    ensures
        final(d)@ == dense_clamped(old(d)@, count as nat, visible as nat),
{
    if count == 0 || visible == 0 {
        d.selected = 0;
        d.offset = 0;
        return;
    }
    if d.selected > count - 1 {
        d.selected = count - 1;
    }
    let vis = visible as usize;
    if d.selected < d.offset {
        d.offset = d.selected;
    } else if d.selected - d.offset >= vis {
        d.offset = d.selected + 1 - vis;
    }
    let shown = if vis < count { vis } else { count };
    let max_off = count - shown;
    if d.offset > max_off {
        d.offset = max_off;
    }
}

/// After clamping, a non-empty list's selection is on it and inside the
/// window the box shows.
pub proof fn law_dense_selection_stays_on_screen(d: DenseModel, count: nat, visible: nat)
    requires
        count > 0,
        visible > 0,
    ensures
        dense_clamped(d, count, visible).selected < count,
        dense_clamped(d, count, visible).offset <= dense_clamped(d, count, visible).selected,
        dense_clamped(d, count, visible).selected < dense_clamped(d, count, visible).offset + visible,
{
}

} // verus!

verus! {

/// How the io box describes its totals: the physical disks it sums, and
/// the stacked devices it leaves out so their traffic is not counted twice.
pub open spec fn topology_text(phys: nat, stacked: nat) -> Seq<char> {
    let head = decimal(phys) + (if phys == 1 { " disk summed"@ } else { " disks summed"@ });
    if stacked == 0 {
        head
    } else {
        head + " \u{b7} "@ + decimal(stacked) + " stacked, excluded"@
    }
}

pub fn topology_note(phys: usize, stacked: usize) -> (s: String)
    ensures
        s@ == topology_text(phys as nat, stacked as nat),
{
    let disks = if phys == 1 { " disk summed" } else { " disks summed" };
    let head = cat(format_u64(phys as u64), disks);
    if stacked == 0 {
        head
    } else {
        let with_dot = cat(head, " \u{b7} ");
        let with_count = cat(with_dot, format_u64(stacked as u64).as_str());
        cat(with_count, " stacked, excluded")
    }
}

} // verus!

verus! {

// ── condensing a history into columns ───────────────────────────────────

/// Samples per column: the samples the history window holds at `ms`
/// milliseconds each, spread over `cols` columns, and at least one.
pub open spec fn samples_per_column(cols: nat, ms: nat) -> nat {
    let held = (crate::collect::io::HISTORY_SECS as nat * 1000) / ms;
    let want = if held >= cols { held } else { cols };
    if want / cols >= 1 { want / cols } else { 1 }
}

/// The group, counted from the first sample ever taken, that the newest
/// sample of `pushed` falls in.
pub open spec fn newest_group(pushed: nat, per: nat) -> nat {
    if pushed >= 1 { ((pushed - 1) as nat / per) as nat } else { 0 }
}

/// The group of samples column `c` of `cols` shows once `pushed` samples
/// have been taken: the last column shows the newest group, each column to
/// its left the group before. Groups are counted by absolute sample index,
/// so a group's members never change.
pub open spec fn column_group(pushed: nat, cols: nat, ms: nat, c: nat) -> Option<nat> {
    let last = newest_group(pushed, samples_per_column(cols, ms));
    let back = cols - 1 - c;
    if last >= back { Some((last - back) as nat) } else { None }
}

/// The absolute index of the oldest sample a ring of `len` still holds.
pub open spec fn ring_first(len: nat, pushed: nat) -> nat {
    if pushed >= len { (pushed - len) as nat } else { 0 }
}

/// The absolute sample indices `[a, b)` column `c` averages: its group's
/// samples that have been taken and that the ring still holds; `None`
/// where there are none.
pub open spec fn column_samples(len: nat, pushed: nat, cols: nat, ms: nat, c: nat) -> Option<(int, int)> {
    match column_group(pushed, cols, ms, c) {
        None => None,
        Some(g) => {
            let per = samples_per_column(cols, ms);
            let lo = g * per;
            let hi = lo + per;
            let first = ring_first(len, pushed);
            let a: int = if lo >= first { lo as int } else { first as int };
            let b: int = if hi <= pushed { hi as int } else { pushed as int };
            if a < b { Some((a, b)) } else { None }
        },
    }
}

/// Column `c`'s samples as positions in the ring.
pub open spec fn column_range(len: nat, pushed: nat, cols: nat, ms: nat, c: nat) -> Option<(int, int)> {
    match column_samples(len, pushed, cols, ms, c) {
        None => None,
        Some((a, b)) => Some((a - ring_first(len, pushed), b - ring_first(len, pushed))),
    }
}

pub open spec fn range_view(o: Option<(usize, usize)>) -> Option<(int, int)> {
    match o {
        None => None,
        Some((a, b)) => Some((a as int, b as int)),
    }
}

/// For each of `cols` columns, the positions in a ring of `len` samples —
/// `pushed` taken in all, one every `sample_ms` — whose mean the column
/// shows, or `None` for a column with no sample yet.
pub fn condense_ranges(len: usize, pushed: u64, cols: usize, sample_ms: usize) -> (r: Vec<Option<(usize, usize)>>)
    ensures
        cols == 0 || sample_ms == 0 ==> r@.len() == 0,
        cols > 0 && sample_ms > 0 ==> r@.len() == cols,
        cols > 0 && sample_ms > 0 ==> forall|c: int| 0 <= c < cols ==>
            range_view(#[trigger] r@[c]) == column_range(len as nat, pushed as nat, cols as nat, sample_ms as nat, c as nat),
        forall|c: int| 0 <= c < r@.len() ==> (#[trigger] r@[c] matches Some((a, b)) ==> a < b <= len),
{
    let mut out: Vec<Option<(usize, usize)>> = Vec::new();
    if cols == 0 || sample_ms == 0 {
        return out;
    }
    let held = crate::collect::io::HISTORY_SECS * 1000 / sample_ms;
    let want = if held >= cols { held } else { cols };
    let per_us = if want / cols >= 1 { want / cols } else { 1 };
    proof {
        assert(per_us <= want) by (nonlinear_arith)
            requires per_us == (if want / cols >= 1 { want / cols } else { 1 }), cols >= 1, want >= 1;
        assert(want <= 60000 || want == cols);
    }
    let per = per_us as u64;
    let ghost gper = samples_per_column(cols as nat, sample_ms as nat);
    assert(per as nat == gper);
    let first: u64 = if pushed >= len as u64 { pushed - len as u64 } else { 0 };
    let last: u64 = if pushed >= 1 { (pushed - 1) / per } else { 0 };
    proof {
        assert(last as nat == newest_group(pushed as nat, gper));
        if pushed >= 1 {
            assert(last * per <= pushed - 1) by (nonlinear_arith)
                requires last as int == (pushed as int - 1) / (per as int), per >= 1, pushed >= 1;
        }
    }
    let mut c: usize = 0;
    while c < cols
        invariant
            0 <= c <= cols,
            cols > 0 && sample_ms > 0,
            per as nat == gper,
            gper == samples_per_column(cols as nat, sample_ms as nat),
            per >= 1,
            first as nat == ring_first(len as nat, pushed as nat),
            last as nat == newest_group(pushed as nat, gper),
            pushed >= 1 ==> last * per <= pushed - 1,
            pushed == 0 ==> last == 0,
            out@.len() == c,
            forall|k: int| 0 <= k < c ==>
                range_view(#[trigger] out@[k]) == column_range(len as nat, pushed as nat, cols as nat, sample_ms as nat, k as nat),
            forall|k: int| 0 <= k < c ==> (#[trigger] out@[k] matches Some((a, b)) ==> a < b <= len),
        decreases cols - c,
    {
        let back = (cols - 1 - c) as u64;
        let entry: Option<(usize, usize)> = if last < back {
            None
        } else {
            let g = last - back;
            proof {
                assert(g * per <= last * per) by (nonlinear_arith)
                    requires g <= last, per >= 1;
            }
            let lo = g * per;
            let hi = if pushed - lo < per { pushed } else { lo + per };
            let a = if lo >= first { lo } else { first };
            if a < hi {
                proof {
                    assert(hi - first <= len);
                }
                Some(((a - first) as usize, (hi - first) as usize))
            } else {
                None
            }
        };
        proof {
            assert(range_view(entry) == column_range(len as nat, pushed as nat, cols as nat, sample_ms as nat, c as nat));
        }
        out.push(entry);
        c += 1;
    }
    out
}

/// A column keeps its samples until it scrolls off the left edge: once the
/// group a column shows is complete, it is shown `d` columns further left
/// after `d` more groups have begun, over the same samples, for as long as
/// the ring still holds them.
pub proof fn law_a_column_keeps_its_samples_until_it_scrolls_off(
    len: nat,
    len2: nat,
    pushed: nat,
    later: nat,
    cols: nat,
    ms: nat,
    c: nat,
    g: nat,
)
    requires
        ms > 0,
        0 < cols,
        c < cols,
        pushed <= later,
        column_group(pushed, cols, ms, c) == Some(g),
        g * samples_per_column(cols, ms) + samples_per_column(cols, ms) <= pushed,
        ring_first(len, pushed) <= g * samples_per_column(cols, ms),
        ring_first(len2, later) <= g * samples_per_column(cols, ms),
        newest_group(later, samples_per_column(cols, ms)) - newest_group(pushed, samples_per_column(cols, ms)) <= c,
    ensures
        newest_group(pushed, samples_per_column(cols, ms)) <= newest_group(later, samples_per_column(cols, ms)),
        ({
            let d = newest_group(later, samples_per_column(cols, ms)) - newest_group(pushed, samples_per_column(cols, ms));
            &&& column_group(later, cols, ms, (c - d) as nat) == Some(g)
            &&& column_samples(len2, later, cols, ms, (c - d) as nat) == column_samples(len, pushed, cols, ms, c)
        }),
{
    let per = samples_per_column(cols, ms);
    assert(per >= 1);
    if pushed >= 1 {
        assert(((pushed - 1) as nat / per) as nat <= ((later - 1) as nat / per) as nat) by (nonlinear_arith)
            requires pushed <= later, pushed >= 1, per >= 1;
    }
    assert(g * per + per >= per) by (nonlinear_arith)
        requires g >= 0, per >= 1;
}

} // verus!

verus! {

// ── latency bucket labels ───────────────────────────────────────────────

/// The latency histogram's bucket edges, in microseconds: 0.1, 0.5, 1, 5,
/// 10 and 50 ms.
pub open spec fn lat_edge_us(k: int) -> u64 {
    if k == 0 { 100 } else if k == 1 { 500 } else if k == 2 { 1000 }
    else if k == 3 { 5000 } else if k == 4 { 10000 } else { 50000 }
}

/// Microseconds as milliseconds, with no trailing zero after the point.
pub open spec fn ms_text(us: u64) -> Seq<char> {
    let f = us % 1000;
    let (a, b, c) = (f / 100, (f / 10) % 10, f % 10);
    decimal((us / 1000) as nat) + if f == 0 {
        Seq::empty()
    } else if c != 0 {
        "."@ + decimal(a as nat) + decimal(b as nat) + decimal(c as nat)
    } else if b != 0 {
        "."@ + decimal(a as nat) + decimal(b as nat)
    } else {
        "."@ + decimal(a as nat)
    }
}

/// The label of latency bucket `i`: `<0.1ms` for the first, `>50ms` for the
/// last, and `lo-hi` in milliseconds between.
pub open spec fn bucket_text(i: int) -> Seq<char> {
    if i == 0 {
        "<"@ + ms_text(lat_edge_us(0)) + "ms"@
    } else if i == crate::collect::io::LAT_BUCKETS - 1 {
        ">"@ + ms_text(lat_edge_us(i - 1)) + "ms"@
    } else {
        ms_text(lat_edge_us(i - 1)) + "-"@ + ms_text(lat_edge_us(i))
    }
}

fn edge_us(k: usize) -> (e: u64)
    ensures
        e == lat_edge_us(k as int),
{
    if k == 0 { 100 } else if k == 1 { 500 } else if k == 2 { 1000 }
    else if k == 3 { 5000 } else if k == 4 { 10000 } else { 50000 }
}

fn ms_label(us: u64) -> (s: String)
    ensures
        s@ == ms_text(us),
{
    let f = us % 1000;
    let (a, b, c) = (f / 100, (f / 10) % 10, f % 10);
    let whole = format_u64(us / 1000);
    if f == 0 {
        proof {
            assert(whole@ + Seq::<char>::empty() =~= whole@);
        }
        whole
    } else if c != 0 {
        cat(cat(cat(cat(whole, "."), format_u64(a).as_str()), format_u64(b).as_str()), format_u64(c).as_str())
    } else if b != 0 {
        cat(cat(cat(whole, "."), format_u64(a).as_str()), format_u64(b).as_str())
    } else {
        cat(cat(whole, "."), format_u64(a).as_str())
    }
}

/// The edges of latency bucket `i` in microseconds: from the edge before
/// it, or zero, to its own edge, or 100 ms for the open-ended last bucket.
pub fn bucket_edges_us(i: usize) -> (e: (u64, u64))
    requires
        i < crate::collect::io::LAT_BUCKETS,
    ensures
        e.0 == (if i == 0 { 0 } else { lat_edge_us(i - 1) }),
        e.1 == (if i < crate::collect::io::LAT_BUCKETS - 1 { lat_edge_us(i as int) } else { 100_000 }),
{
    let lo = if i == 0 { 0 } else { edge_us(i - 1) };
    let hi = if i < crate::collect::io::LAT_BUCKETS - 1 { edge_us(i) } else { 100_000 };
    (lo, hi)
}

/// The label of latency bucket `i`.
pub fn bucket_label(i: usize) -> (s: String)
    requires
        i < crate::collect::io::LAT_BUCKETS,
    ensures
        s@ == bucket_text(i as int),
{
    if i == 0 {
        cat(cat(owned("<"), ms_label(edge_us(0)).as_str()), "ms")
    } else if i == crate::collect::io::LAT_BUCKETS - 1 {
        cat(cat(owned(">"), ms_label(edge_us(i - 1)).as_str()), "ms")
    } else {
        cat(cat(ms_label(edge_us(i - 1)), "-"), ms_label(edge_us(i)).as_str())
    }
}

} // verus!

verus! {

/// The io box's height on the compact dense screen: half the screen,
/// between 8 and 11 rows; the file box takes the rest.
pub fn compact_io_h(h: u16) -> (io_h: u16)
    ensures
        io_h == (if h / 2 >= 11 { 11 } else if h / 2 <= 8 { 8 } else { h / 2 }),
{
    let half = h / 2;
    if half >= 11 { 11 } else if half <= 8 { 8 } else { half }
}

} // verus!
