//! Lite: the minimal single screen, 80×24 at its reference size. This
//! module holds its grid, the adaptive layout that generalises the grid to
//! any terminal, and the width-aware truncation its table relies on.

use vstd::prelude::*;
use crate::text::{cat, owned, push_char, string_of, to_chars};
use crate::ui::rect::Rect;
use unicode_width::UnicodeWidthStr;

verus! {

// ── the grid ─────────────────────────────────────────────────────────────

pub const GRID_W: u16 = 80;
pub const GRID_H: u16 = 24;
/// First content column: one column of margin on the left.
pub const CONTENT_X: u16 = 1;
pub const CONTENT_W: u16 = 78;
/// Last content column, inclusive.
pub const CONTENT_X_END: u16 = 78;

pub const ROW_HEADER: u16 = 0;
pub const ROW_READ_LABEL: u16 = 2;
pub const ROW_READ_CHART: u16 = 3;
pub const READ_CHART_H: u16 = 3;
pub const ROW_WRITE_LABEL: u16 = 6;
pub const ROW_WRITE_CHART: u16 = 7;
pub const WRITE_CHART_H: u16 = 2;
pub const ROW_AXIS: u16 = 9;
pub const ROW_CAPACITY: u16 = 10;
pub const ROW_TABLE_HEAD: u16 = 12;
pub const ROW_RULE: u16 = 13;
/// First file row.
pub const ROW_FILES: u16 = 14;
/// File rows at the reference size.
pub const FILE_ROWS: u16 = 8;
pub const ROW_PROMPT: u16 = 22;
pub const ROW_FOOTER: u16 = 23;
/// Rows the detail block takes from the list when open.
pub const DETAIL_ROWS: u16 = 3;

/// Per-row sparkline width; each column is a bucket maximum over the
/// history, so a spike is never sampled away.
pub const SPARK_W: u16 = 9;

/// The first sample of sparkline column `i`, when `samples` are drawn.
pub open spec fn bucket_lo(i: nat, samples: nat) -> nat {
    i * samples / (SPARK_W as nat)
}

/// The end of sparkline column `i`: never before one past its start.
pub open spec fn bucket_hi(i: nat, samples: nat) -> nat {
    let hi = (i + 1) * samples / (SPARK_W as nat);
    if hi > bucket_lo(i, samples) + 1 { hi } else { bucket_lo(i, samples) + 1 }
}

/// The samples covered by sparkline column `i`, as a half-open range.
pub fn spark_bucket(i: u16, samples: usize) -> (r: std::ops::Range<usize>)
    requires
        (i as int + 1) * samples <= usize::MAX,
    ensures
        r.start == bucket_lo(i as nat, samples as nat),
        r.end == bucket_hi(i as nat, samples as nat),
{
    assert((i as int) * samples <= (i as int + 1) * samples) by (nonlinear_arith);
    let lo = (i as usize * samples) / SPARK_W as usize;
    let hi = ((i as usize + 1) * samples) / SPARK_W as usize;
    assert(lo <= usize::MAX / 9) by (nonlinear_arith)
        requires
            lo == (i as usize * samples) / 9,
            i as usize * samples <= usize::MAX;
    let end = if hi > lo + 1 { hi } else { lo + 1 };
    lo..end
}

} // verus!

verus! {

/// The sparkline columns tile the history: each is a non-empty range, each
/// starts no later than the previous one ended, and the last reaches the
/// newest sample — so no sample falls between two columns.
pub proof fn law_spark_buckets_tile(i: nat, samples: nat)
    requires
        i < SPARK_W,
    ensures
        bucket_lo(i, samples) < bucket_hi(i, samples),
        i > 0 ==> bucket_lo(i, samples) <= bucket_hi((i - 1) as nat, samples),
        bucket_hi((SPARK_W - 1) as nat, samples) >= samples,
{
    assert(9 * samples / 9 == samples) by (nonlinear_arith);
}

// ── the file table ───────────────────────────────────────────────────────

#[derive(Debug, Clone, Copy, PartialEq, Eq, Structural)]
pub enum Align {
    Left,
    Right,
}

/// One column of the hot-file table.
#[derive(Debug, Clone, Copy)]
pub struct Field {
    pub header: &'static str,
    /// First column, inclusive.
    pub x: u16,
    pub w: u16,
    pub align: Align,
}

impl Field {
    /// Last column, inclusive.
    pub fn x_end(&self) -> (e: u16)
        requires
            self.w >= 1,
            self.x + self.w <= u16::MAX,
        ensures
            e == self.x + self.w - 1,
    {
        self.x + self.w - 1
    }
}

/// The hot-file table's columns at the reference size: they tile without
/// overlap and end exactly on the content edge.
pub fn fields() -> (v: Vec<Field>)
    ensures
        v@.len() == 6,
        v@[0].header@ == "FILE"@ && v@[0].x == 1 && v@[0].w == 15 && v@[0].align == Align::Left,
        v@[1].header@ == "PATH"@ && v@[1].x == 17 && v@[1].w == 22 && v@[1].align == Align::Left,
        v@[2].header@ == "EV/S"@ && v@[2].x == 40 && v@[2].w == 10 && v@[2].align == Align::Right,
        v@[3].header@ == "EVENTS"@ && v@[3].x == 51 && v@[3].w == 10 && v@[3].align == Align::Right,
        v@[4].header@ == "KIND"@ && v@[4].x == 62 && v@[4].w == 7 && v@[4].align == Align::Right,
        v@[5].header@ == "78s"@ && v@[5].x == 70 && v@[5].w == SPARK_W && v@[5].align == Align::Left,
{
    vec![
        Field { header: "FILE", x: 1, w: 15, align: Align::Left },
        Field { header: "PATH", x: 17, w: 22, align: Align::Left },
        Field { header: "EV/S", x: 40, w: 10, align: Align::Right },
        Field { header: "EVENTS", x: 51, w: 10, align: Align::Right },
        Field { header: "KIND", x: 62, w: 7, align: Align::Right },
        Field { header: "78s", x: 70, w: SPARK_W, align: Align::Left },
    ]
}

/// The columns start after the previous one ends, and the last ends
/// exactly on the content edge.
pub proof fn law_fields_tile_to_the_content_edge()
    ensures
        1 > CONTENT_X - 1,
        17 > 1 + 15 - 1,
        40 > 17 + 22 - 1,
        51 > 40 + 10 - 1,
        62 > 51 + 10 - 1,
        70 > 62 + 7 - 1,
        70 + SPARK_W - 1 == CONTENT_X_END,
{
}

pub const W_FILE: u16 = 15;
pub const W_COUNT: u16 = 10;
pub const W_KIND: u16 = 7;
pub const FIELD_GAP: u16 = 1;

// ── the footer ───────────────────────────────────────────────────────────

/// The keys the footer advertises, each with what it does; navigation
/// and Esc live in the help overlay.
pub open spec fn footer_keys_spec() -> Seq<(&'static str, &'static str)> {
    seq![("q", "quit"), ("p", "pause"), ("/", "filter"), ("\u{21b5}", "detail"), ("L", "full"), ("?", "help")]
}

pub fn footer_keys() -> (v: Vec<(&'static str, &'static str)>)
    ensures
        v@ == footer_keys_spec(),
{
    let v = vec![("q", "quit"), ("p", "pause"), ("/", "filter"), ("\u{21b5}", "detail"), ("L", "full"), ("?", "help")];
    proof {
        assert(v@ =~= footer_keys_spec());
    }
    v
}

/// Blank columns between footer key pairs.
pub const FOOTER_GAP: u16 = 3;

/// The version the footer prints.
pub const VERSION: &'static str = "0.2.0";

/// The right-aligned footer version string.
pub fn footer_version() -> (s: String)
    ensures
        s@ == "diskwatch "@ + VERSION@,
{
    cat(owned("diskwatch "), VERSION)
}

/// Columns one key pair takes: key, a space, label.
pub open spec fn pair_width(k: Seq<char>, label: Seq<char>) -> nat {
    k.len() + 1 + label.len()
}

/// Columns the footer key list takes.
pub open spec fn keys_width(keys: Seq<(&'static str, &'static str)>) -> nat
    decreases keys.len(),
{
    if keys.len() == 0 {
        0
    } else {
        keys_width(keys.drop_last()) + pair_width(keys.last().0@, keys.last().1@)
            + if keys.len() > 1 { FOOTER_GAP as nat } else { 0 }
    }
}

/// Rendered width of the footer key list, in columns.
pub fn footer_keys_width() -> (w: u16)
    ensures
        w == keys_width(footer_keys_spec()),
{
    let keys = footer_keys();
    let mut w: u16 = 0;
    let mut i: usize = 0;
    proof {
        reveal_strlit("q");
        reveal_strlit("quit");
        reveal_strlit("p");
        reveal_strlit("pause");
        reveal_strlit("/");
        reveal_strlit("filter");
        reveal_strlit("\u{21b5}");
        reveal_strlit("detail");
        reveal_strlit("L");
        reveal_strlit("full");
        reveal_strlit("?");
        reveal_strlit("help");
    }
    while i < keys.len()
        invariant
            0 <= i <= keys@.len(),
            keys@.len() == 6,
            keys@ == footer_keys_spec(),
            forall|j: int| 0 <= j < 6 ==> pair_width((#[trigger] keys@[j]).0@, keys@[j].1@) <= 14,
            w == keys_width(keys@.take(i as int)),
            w <= 20 * i,
        decreases keys@.len() - i,
    {
        let (k, label) = keys[i];
        let kc = to_chars(k);
        let lc = to_chars(label);
        proof {
            assert(keys@.take(i + 1).drop_last() =~= keys@.take(i as int));
        }
        let pair = (kc.len() + 1 + lc.len()) as u16;
        w = w + pair + if i > 0 { FOOTER_GAP } else { 0 };
        i += 1;
    }
    proof {
        assert(keys@.take(6) =~= keys@);
    }
    w
}


} // verus!

verus! {

/// The footer's keys and version fit the reference grid's content width.
pub proof fn law_the_footer_fits_the_reference_grid()
    ensures
        keys_width(footer_keys_spec()) + 1 + ("diskwatch "@ + VERSION@).len() <= CONTENT_W,
{
    reveal_strlit("q");
    reveal_strlit("quit");
    reveal_strlit("p");
    reveal_strlit("pause");
    reveal_strlit("/");
    reveal_strlit("filter");
    reveal_strlit("\u{21b5}");
    reveal_strlit("detail");
    reveal_strlit("L");
    reveal_strlit("full");
    reveal_strlit("?");
    reveal_strlit("help");
    reveal_strlit("diskwatch ");
    reveal_strlit("0.2.0");
    let k = footer_keys_spec();
    assert(k.take(6) =~= k);
    assert(k.take(6).drop_last() =~= k.take(5));
    assert(k.take(5).drop_last() =~= k.take(4));
    assert(k.take(4).drop_last() =~= k.take(3));
    assert(k.take(3).drop_last() =~= k.take(2));
    assert(k.take(2).drop_last() =~= k.take(1));
    assert(k.take(1).drop_last() =~= k.take(0));
    assert(keys_width(k.take(0)) == 0);
    assert(keys_width(k.take(1)) == 6);
    assert(keys_width(k.take(2)) == 16);
    assert(keys_width(k.take(3)) == 27);
    assert(keys_width(k.take(4)) == 38);
    assert(keys_width(k.take(5)) == 47);
    assert(keys_width(k.take(6)) == 56);
}

// ── the adaptive layout ──────────────────────────────────────────────────

/// The reference grid generalised to the terminal Lite runs in: PATH takes
/// the surplus width, the file list the surplus height.
#[derive(Debug, Clone, Copy, PartialEq, Eq, Structural)]
pub struct Layout {
    pub content_x: u16,
    pub content_w: u16,
    pub x_file: u16,
    pub w_file: u16,
    pub x_path: u16,
    pub w_path: u16,
    pub x_rate: u16,
    pub x_total: u16,
    pub x_kind: u16,
    pub x_spark: u16,
    pub row_files: u16,
    /// File rows with no detail block open.
    pub file_rows: u16,
    pub row_prompt: u16,
    pub row_footer: u16,
}

pub open spec fn sat_sub(a: int, b: int) -> int {
    if a >= b { a - b } else { 0 }
}

/// The layout for `area`; an area smaller than the grid (a terminal that
/// reports 0×0 for a frame) is read as the grid, since only row counts are
/// read from it then.
pub open spec fn lite_layout(area: Rect) -> Layout {
    let w: int = if area.width > GRID_W { area.width as int } else { GRID_W as int };
    let h: int = if area.height > GRID_H { area.height as int } else { GRID_H as int };
    let content_x = area.x + 1;
    let content_w = w - 2;
    let x_end = content_x + content_w - 1;
    let x_spark = x_end + 1 - SPARK_W;
    let x_kind = x_spark - FIELD_GAP - W_KIND;
    let x_total = x_kind - FIELD_GAP - W_COUNT;
    let x_rate = x_total - FIELD_GAP - W_COUNT;
    let x_path = content_x + W_FILE + FIELD_GAP;
    let row_footer = area.y + h - 1;
    let row_prompt = row_footer - 1;
    let row_files = area.y + ROW_FILES;
    Layout {
        content_x: content_x as u16,
        content_w: content_w as u16,
        x_file: content_x as u16,
        w_file: W_FILE,
        x_path: x_path as u16,
        w_path: sat_sub(sat_sub(x_rate, FIELD_GAP as int), x_path) as u16,
        x_rate: x_rate as u16,
        x_total: x_total as u16,
        x_kind: x_kind as u16,
        x_spark: x_spark as u16,
        row_files: row_files as u16,
        file_rows: sat_sub(row_prompt, row_files) as u16,
        row_prompt: row_prompt as u16,
        row_footer: row_footer as u16,
    }
}

/// The layout's columns and rows all lie on the plane.
pub open spec fn lite_fits(area: Rect) -> bool {
    let w: int = if area.width > GRID_W { area.width as int } else { GRID_W as int };
    let h: int = if area.height > GRID_H { area.height as int } else { GRID_H as int };
    area.x + w <= u16::MAX && area.y + h <= u16::MAX
}

impl Layout {
    pub fn new(area: Rect) -> (l: Layout)
        requires
            lite_fits(area),
        ensures
            l == lite_layout(area),
    {
        let width = if area.width > GRID_W { area.width } else { GRID_W };
        let height = if area.height > GRID_H { area.height } else { GRID_H };
        let content_x = area.x + 1;
        let content_w = width - 2;
        let x_end = content_x + content_w - 1;
        let x_spark = x_end + 1 - SPARK_W;
        let x_kind = x_spark - FIELD_GAP - W_KIND;
        let x_total = x_kind - FIELD_GAP - W_COUNT;
        let x_rate = x_total - FIELD_GAP - W_COUNT;
        let x_file = content_x;
        let x_path = x_file + W_FILE + FIELD_GAP;
        let w_path = x_rate.saturating_sub(FIELD_GAP).saturating_sub(x_path);
        let row_footer = area.y + height - 1;
        let row_prompt = row_footer - 1;
        let row_files = area.y + ROW_FILES;
        Layout {
            content_x,
            content_w,
            x_file,
            w_file: W_FILE,
            x_path,
            w_path,
            x_rate,
            x_total,
            x_kind,
            x_spark,
            row_files,
            file_rows: row_prompt.saturating_sub(row_files),
            row_prompt,
            row_footer,
        }
    }

    /// Last content column, inclusive.
    pub fn content_x_end(&self) -> (e: u16)
        requires
            1 <= self.content_w,
            self.content_x + self.content_w <= u16::MAX,
        ensures
            e == self.content_x + self.content_w - 1,
    {
        self.content_x + self.content_w - 1
    }

    /// File rows available given whether the detail block is open.
    pub fn visible_files(&self, detail_open: bool) -> (n: u16)
        ensures
            n == if detail_open { sat_sub(self.file_rows as int, DETAIL_ROWS as int) as u16 } else { self.file_rows },
    {
        if detail_open {
            self.file_rows.saturating_sub(DETAIL_ROWS)
        } else {
            self.file_rows
        }
    }

    /// History the charts want: one sample per column, so the axis label
    /// is honest at any width.
    pub fn history_samples(&self) -> (n: usize)
        ensures
            n == self.content_w,
    {
        self.content_w as usize
    }
}

/// At the reference size the layout reproduces the grid character for
/// character; at any size the fixed fields keep their widths, sit one gap
/// apart and stay anchored to the content edge, PATH takes what is left,
/// and opening the detail block leaves a file row visible.
pub proof fn law_the_lite_layout_generalises_the_grid(area: Rect)
    requires
        lite_fits(area),
    ensures
        ({
            let l = lite_layout(area);
            &&& l.x_spark + SPARK_W - 1 == l.content_x + l.content_w - 1
            &&& l.x_spark - (l.x_kind + W_KIND) == FIELD_GAP
            &&& l.x_kind - (l.x_total + W_COUNT) == FIELD_GAP
            &&& l.x_total - (l.x_rate + W_COUNT) == FIELD_GAP
            &&& l.x_path + l.w_path + FIELD_GAP == l.x_rate
            &&& l.w_file == W_FILE
            &&& l.file_rows >= FILE_ROWS
            &&& l.file_rows - DETAIL_ROWS >= 1
        }),
        area.x == 0 && area.y == 0 && area.width == GRID_W && area.height == GRID_H ==> ({
            let l = lite_layout(area);
            &&& l.content_x == CONTENT_X && l.content_w == CONTENT_W
            &&& l.x_file == 1 && l.x_path == 17 && l.w_path == 22
            &&& l.x_rate == 40 && l.x_total == 51 && l.x_kind == 62 && l.x_spark == 70
            &&& l.row_files == ROW_FILES && l.file_rows == FILE_ROWS
            &&& l.row_prompt == ROW_PROMPT && l.row_footer == ROW_FOOTER
        }),
{
}

} // verus!

verus! {

// ── width-aware truncation ───────────────────────────────────────────────

/// Display columns a string takes, as `unicode-width` measures it.
pub uninterp spec fn display_width(s: Seq<char>) -> nat;

/// `UnicodeWidthStr::width`: the columns `s` takes on a terminal. Its
/// result is named, not stated: the crate's tables decide it.
#[verifier::external_body]
fn str_width(s: &str) -> (w: usize)
    ensures
        w == display_width(s@),
{
    s.width()
}

/// Columns one character takes, measured as a one-character string.
pub open spec fn char_width(c: char) -> nat {
    display_width(seq![c])
}

fn one_char_width(c: char) -> (w: usize)
    ensures
        w == char_width(c),
{
    let mut s = String::new();
    push_char(&mut s, c);
    proof {
        assert(s@ =~= seq![c]);
    }
    str_width(s.as_str())
}

/// How many leading characters of `s` fit in `budget` columns, taken one
/// at a time until the first that does not fit.
pub open spec fn fit_prefix(s: Seq<char>, budget: int) -> nat
    decreases s.len(),
{
    if s.len() == 0 || char_width(s[0]) > budget {
        0
    } else {
        1 + fit_prefix(s.drop_first(), budget - char_width(s[0]))
    }
}

/// How many trailing characters of `s` fit in `budget` columns, taken one
/// at a time from the right until the first that does not fit.
pub open spec fn fit_suffix(s: Seq<char>, budget: int) -> nat
    decreases s.len(),
{
    if s.len() == 0 || char_width(s.last()) > budget {
        0
    } else {
        1 + fit_suffix(s.drop_last(), budget - char_width(s.last()))
    }
}

/// `s` cut to `w` columns with a trailing `…` when it does not fit.
pub open spec fn truncated_end(s: Seq<char>, w: nat) -> Seq<char> {
    if display_width(s) <= w {
        s
    } else if w <= 1 {
        seq!['\u{2026}']
    } else {
        s.take(fit_prefix(s, w - 1) as int).push('\u{2026}')
    }
}

/// `s` cut to `w` columns from the left, keeping the tail — the part of a
/// path that identifies it — behind a leading `…`.
pub open spec fn truncated_path(s: Seq<char>, w: nat) -> Seq<char> {
    if display_width(s) <= w {
        s
    } else if w <= 1 {
        seq!['\u{2026}']
    } else {
        seq!['\u{2026}'] + s.skip(s.len() - fit_suffix(s, w - 1))
    }
}

proof fn lemma_fit_prefix_le(s: Seq<char>, budget: int)
    ensures
        fit_prefix(s, budget) <= s.len(),
    decreases s.len(),
{
    if s.len() > 0 && char_width(s[0]) <= budget {
        lemma_fit_prefix_le(s.drop_first(), budget - char_width(s[0]));
    }
}

proof fn lemma_fit_suffix_le(s: Seq<char>, budget: int)
    ensures
        fit_suffix(s, budget) <= s.len(),
    decreases s.len(),
{
    if s.len() > 0 && char_width(s.last()) <= budget {
        lemma_fit_suffix_le(s.drop_last(), budget - char_width(s.last()));
    }
}

/// Truncate to `w` display columns, appending `…` when it does not fit.
pub fn truncate_end(s: &str, w: u16) -> (r: String)
    ensures
        r@ == truncated_end(s@, w as nat),
{
    let wu = w as usize;
    if str_width(s) <= wu {
        return owned(s);
    }
    if wu <= 1 {
        let mut e = String::new();
        push_char(&mut e, '\u{2026}');
        proof {
            assert(e@ =~= seq!['\u{2026}']);
        }
        return e;
    }
    let v = to_chars(s);
    let budget = wu - 1;
    let mut used: usize = 0;
    let mut i: usize = 0;
    proof {
        assert(v@.skip(0) =~= v@);
    }
    while i < v.len()
        invariant_except_break
            0 <= i <= v@.len(),
            used <= budget,
            fit_prefix(v@, budget as int) == i + fit_prefix(v@.skip(i as int), budget - used),
        ensures
            0 <= i <= v@.len(),
            fit_prefix(v@, budget as int) == i,
        decreases v@.len() - i,
    {
        let cw = one_char_width(v[i]);
        proof {
            assert(v@.skip(i as int)[0] == v@[i as int]);
            assert(v@.skip(i as int).drop_first() =~= v@.skip(i + 1));
        }
        if cw > budget - used {
            break;
        }
        used = used + cw;
        i += 1;
    }
    let mut out = string_of(&v, 0, i);
    push_char(&mut out, '\u{2026}');
    proof {
        assert(v@.subrange(0, i as int) =~= v@.take(i as int));
    }
    out
}

/// Truncate a path from the left, keeping the tail.
pub fn truncate_path(s: &str, w: u16) -> (r: String)
    ensures
        r@ == truncated_path(s@, w as nat),
{
    let wu = w as usize;
    if str_width(s) <= wu {
        return owned(s);
    }
    let mut out = String::new();
    push_char(&mut out, '\u{2026}');
    proof {
        assert(out@ =~= seq!['\u{2026}']);
    }
    if wu <= 1 {
        return out;
    }
    let v = to_chars(s);
    let budget = wu - 1;
    let mut used: usize = 0;
    let mut j: usize = v.len();
    proof {
        assert(v@.take(v@.len() as int) =~= v@);
    }
    while j > 0
        invariant_except_break
            0 <= j <= v@.len(),
            used <= budget,
            fit_suffix(v@, budget as int) == (v@.len() - j) + fit_suffix(v@.take(j as int), budget - used),
        ensures
            0 <= j <= v@.len(),
            fit_suffix(v@, budget as int) == v@.len() - j,
        decreases j,
    {
        let cw = one_char_width(v[j - 1]);
        proof {
            assert(v@.take(j as int).last() == v@[j - 1]);
            assert(v@.take(j as int).drop_last() =~= v@.take(j - 1));
        }
        if cw > budget - used {
            break;
        }
        used = used + cw;
        j -= 1;
    }
    proof {
        assert(v@.take(0) =~= Seq::<char>::empty());
        assert(v@.subrange(j as int, v@.len() as int) =~= v@.skip(v@.len() - (v@.len() - j)));
    }
    cat(out, string_of(&v, j, v.len()).as_str())
}

} // verus!

verus! {

// ── view state ───────────────────────────────────────────────────────────

/// Everything Lite remembers between frames.
#[derive(Debug, Clone)]
pub struct LiteState {
    pub selected: usize,
    pub offset: usize,
    pub detail_open: bool,
    /// True while `/` is capturing keystrokes; a committed filter stays
    /// applied with this false.
    pub filter_input: bool,
    pub filter_text: String,
}

pub ghost struct LiteModel {
    pub selected: nat,
    pub offset: nat,
    pub detail_open: bool,
    pub filter_input: bool,
    pub filter_text: Seq<char>,
}

impl View for LiteState {
    type V = LiteModel;

    open spec fn view(&self) -> LiteModel {
        LiteModel {
            selected: self.selected as nat,
            offset: self.offset as nat,
            detail_open: self.detail_open,
            filter_input: self.filter_input,
            filter_text: self.filter_text@,
        }
    }
}

impl LiteState {
    pub fn new() -> (s: LiteState)
        ensures
            s@ == (LiteModel { selected: 0, offset: 0, detail_open: false, filter_input: false, filter_text: Seq::empty() }),
    {
        LiteState { selected: 0, offset: 0, detail_open: false, filter_input: false, filter_text: String::new() }
    }
}

/// The selection kept inside the list and the window kept around the
/// selection: with the detail block open, `visible` already excludes its
/// rows, so the same arithmetic keeps the block on screen.
pub open spec fn lite_clamped(l: LiteModel, count: nat, visible: nat) -> LiteModel {
    if count == 0 {
        LiteModel { selected: 0, offset: 0, ..l }
    } else {
        let sel: nat = if l.selected > count - 1 { (count - 1) as nat } else { l.selected };
        let vis: nat = if visible > 1 { visible } else { 1 };
        let o1: nat = if sel < l.offset { sel } else { l.offset };
        let o2: nat = if sel >= o1 + vis { (sel + 1 - vis) as nat } else { o1 };
        let max_off: nat = if count >= vis { (count - vis) as nat } else { 0 };
        LiteModel { selected: sel, offset: if o2 > max_off { max_off } else { o2 }, ..l }
    }
}

/// Keep Lite's selection inside the list and on screen.
pub fn clamp_lite_scroll(l: &mut LiteState, count: usize, visible: u16)
    ensures
        final(l)@ == lite_clamped(old(l)@, count as nat, visible as nat),
{
    if count == 0 {
        l.selected = 0;
        l.offset = 0;
        return;
    }
    if l.selected > count - 1 {
        l.selected = count - 1;
    }
    let vis: usize = if visible > 1 { visible as usize } else { 1 };
    if l.selected < l.offset {
        l.offset = l.selected;
    }
    if l.selected - l.offset >= vis {
        l.offset = l.selected + 1 - vis;
    }
    let max_off = if count >= vis { count - vis } else { 0 };
    if l.offset > max_off {
        l.offset = max_off;
    }
}

/// After clamping, a non-empty list's selection is on it, and on screen:
/// within the window that starts at the offset.
pub proof fn law_lite_selection_stays_on_screen(l: LiteModel, count: nat, visible: nat)
    requires
        count > 0,
    ensures
        lite_clamped(l, count, visible).selected < count,
        lite_clamped(l, count, visible).offset <= lite_clamped(l, count, visible).selected,
        lite_clamped(l, count, visible).selected < lite_clamped(l, count, visible).offset
            + (if visible > 1 { visible } else { 1 }),
{
}

} // verus!

verus! {

/// Whether a hot file's path passes the list filter: an empty filter
/// passes everything; otherwise the path must contain it, ignoring case.
pub open spec fn passes_filter(full_path: Seq<char>, query: Seq<char>) -> bool {
    query.len() == 0 || crate::text::contains(crate::text::lowercase_of(full_path), crate::text::lowercase_of(query))
}

pub fn filter_matches(full_path: &str, query: &str) -> (b: bool)
    ensures
        b == passes_filter(full_path@, query@),
{
    let q = to_chars(query);
    if q.len() == 0 {
        return true;
    }
    let lp = crate::text::to_lowercase(full_path);
    let lq = crate::text::to_lowercase(query);
    let vp = to_chars(lp.as_str());
    let vq = to_chars(lq.as_str());
    proof {
        assert(vp@.subrange(0, vp@.len() as int) =~= vp@);
    }
    crate::text::range_find(&vp, 0, vp.len(), &vq).is_some()
}

} // verus!

verus! {

/// SMART verdicts among `ds`: `(healthy, reporting)`. Devices that give
/// no verdict count in neither, so `3/4` never means that one drive has
/// no SMART support.
pub open spec fn rollup(ds: Seq<crate::collect::devices::DeviceTick>) -> (nat, nat)
    decreases ds.len(),
{
    if ds.len() == 0 {
        (0, 0)
    } else {
        let (h, r) = rollup(ds.drop_last());
        match ds.last().smart_ok {
            Some(true) => (h + 1, r + 1),
            Some(false) => (h, r + 1),
            None => (h, r),
        }
    }
}

pub fn health_rollup(devices: &Vec<crate::collect::devices::DeviceTick>) -> (r: (usize, usize))
    ensures
        (r.0 as nat, r.1 as nat) == rollup(devices@),
{
    let mut healthy: usize = 0;
    let mut reporting: usize = 0;
    let mut i: usize = 0;
    while i < devices.len()
        invariant
            0 <= i <= devices@.len(),
            healthy <= reporting <= i,
            (healthy as nat, reporting as nat) == rollup(devices@.take(i as int)),
        decreases devices@.len() - i,
    {
        proof {
            assert(devices@.take(i + 1).drop_last() =~= devices@.take(i as int));
        }
        match devices[i].smart_ok {
            Some(true) => {
                healthy += 1;
                reporting += 1;
            },
            Some(false) => {
                reporting += 1;
            },
            None => {},
        }
        i += 1;
    }
    proof {
        assert(devices@.take(devices@.len() as int) =~= devices@);
    }
    (healthy, reporting)
}

} // verus!
