//! The configuration file: a strict subset of TOML read once at startup.
//!
//! Flat `key = value` pairs, `#` comments, double-quoted strings, booleans,
//! integers and single-line arrays of strings. Nothing here is fatal: a
//! line that cannot be used becomes a warning naming its line, and the
//! rest of the file still applies.
//!
//! Settings stay `Option` so that "the file did not say" remains distinct
//! from "the file said the default" — precedence against the command line
//! needs that distinction.

use vstd::prelude::*;
use crate::app::{view_mode_named, TempUnit, ViewMode, VisibleColumns, MIN_SMART_INTERVAL_SECS};
use crate::tabs::{tab_named, TabId};
use crate::text::{
    cat, decimal, format_u64, lower, lower_range, owned, parse_u64, parse_uint, push_char, range_is,
    ranges_in, ranges_view, skip_ws, skip_ws_back, string_of, to_chars, trim, trim_end,
    trim_start,
};
use crate::ui::graph::{style_named, GraphStyle};
use crate::ui::theme::{theme_named, ThemeId};

verus! {

/// `format!("{:?}", s)` for a string: the text quoted, with the escapes
/// `Debug` applies.
pub uninterp spec fn debug_str(s: Seq<char>) -> Seq<char>;

/// Debug rendering of a string, as warnings quote user input.
#[verifier::external_body]
fn debug_quoted(s: &str) -> (r: String)
    ensures
        r@ == debug_str(s@),
{
    format!("{:?}", s)
}

// ── the model ────────────────────────────────────────────────────────────

/// What a [`Config`] holds, with every string taken by its characters.
pub ghost struct ConfigModel {
    pub theme: Option<Seq<char>>,
    pub graph: Option<Seq<char>>,
    pub graph_fade: Option<bool>,
    pub view: Option<ViewMode>,
    pub tab: Option<TabId>,
    pub smart_interval_secs: Option<u64>,
    pub temp_unit: Option<TempUnit>,
    pub columns: Option<u8>,
    pub watch_paths: Option<Seq<Seq<char>>>,
    pub extra_watch_paths: Seq<Seq<char>>,
    pub source: Option<Seq<char>>,
    pub warnings: Seq<Seq<char>>,
}

/// Settings read from the config file.
#[derive(Debug, Clone)]
pub struct Config {
    pub theme: Option<String>,
    pub graph: Option<String>,
    pub graph_fade: Option<bool>,
    pub view: Option<ViewMode>,
    pub tab: Option<TabId>,
    pub smart_interval_secs: Option<u64>,
    pub temp_unit: Option<TempUnit>,
    pub columns: Option<VisibleColumns>,
    /// Replaces the default Hot Files roots outright.
    pub watch_paths: Option<Vec<String>>,
    /// Appended to whatever the roots end up being.
    pub extra_watch_paths: Vec<String>,
    /// The file these settings came from, if any.
    pub source: Option<String>,
    /// Problems found while reading, in file order. Never fatal.
    pub warnings: Vec<String>,
}

pub open spec fn opt_view(o: Option<String>) -> Option<Seq<char>> {
    match o {
        Some(s) => Some(s@),
        None => None,
    }
}

pub open spec fn strings_view(v: Seq<String>) -> Seq<Seq<char>> {
    v.map_values(|s: String| s@)
}

impl View for Config {
    type V = ConfigModel;

    open spec fn view(&self) -> ConfigModel {
        ConfigModel {
            theme: opt_view(self.theme),
            graph: opt_view(self.graph),
            graph_fade: self.graph_fade,
            view: self.view,
            tab: self.tab,
            smart_interval_secs: self.smart_interval_secs,
            temp_unit: self.temp_unit,
            columns: match self.columns {
                Some(c) => Some(c.0),
                None => None,
            },
            watch_paths: match self.watch_paths {
                Some(v) => Some(strings_view(v@)),
                None => None,
            },
            extra_watch_paths: strings_view(self.extra_watch_paths@),
            source: opt_view(self.source),
            warnings: strings_view(self.warnings@),
        }
    }
}

/// Nothing set, nothing read, nothing to warn about.
pub open spec fn empty_model() -> ConfigModel {
    ConfigModel {
        theme: None,
        graph: None,
        graph_fade: None,
        view: None,
        tab: None,
        smart_interval_secs: None,
        temp_unit: None,
        columns: None,
        watch_paths: None,
        extra_watch_paths: Seq::empty(),
        source: None,
        warnings: Seq::empty(),
    }
}

impl Default for Config {
    fn default() -> (c: Config)
        ensures
            c@ == empty_model(),
    {
        let c = Config {
            theme: None,
            graph: None,
            graph_fade: None,
            view: None,
            tab: None,
            smart_interval_secs: None,
            temp_unit: None,
            columns: None,
            watch_paths: None,
            extra_watch_paths: Vec::new(),
            source: None,
            warnings: Vec::new(),
        };
        proof {
            assert(c@.extra_watch_paths =~= Seq::<Seq<char>>::empty());
            assert(c@.warnings =~= Seq::<Seq<char>>::empty());
        }
        c
    }
}

// ── quoting state ────────────────────────────────────────────────────────

/// `(inside a string, after a backslash)` once `s` has been read.
/// A backslash escapes only inside a string.
pub open spec fn quote_state(s: Seq<char>) -> (bool, bool)
    decreases s.len(),
{
    if s.len() == 0 {
        (false, false)
    } else {
        let (ins, esc) = quote_state(s.drop_last());
        let c = s.last();
        if esc {
            (ins, false)
        } else if c == '\\' && ins {
            (ins, true)
        } else if c == '"' {
            (!ins, false)
        } else {
            (ins, false)
        }
    }
}

/// Index `i` of `s` holds a character outside any string and not escaped.
pub open spec fn unquoted_at(s: Seq<char>, i: int) -> bool {
    !quote_state(s.take(i)).0 && !quote_state(s.take(i)).1
}

/// The first `#` outside a string at or after `i`, or the end of `s`.
pub open spec fn comment_from(s: Seq<char>, i: int) -> int
    decreases s.len() - i,
{
    if i < 0 || i >= s.len() {
        s.len() as int
    } else if s[i] == '#' && unquoted_at(s, i) {
        i
    } else {
        comment_from(s, i + 1)
    }
}

/// A line cut at its first `#` that is not inside a double-quoted string.
pub open spec fn comment_stripped(s: Seq<char>) -> Seq<char> {
    s.take(comment_from(s, 0))
}

proof fn lemma_quote_step(s: Seq<char>, i: int)
    requires
        0 <= i < s.len(),
    ensures
        s.take(i + 1).drop_last() == s.take(i),
        s.take(i + 1).last() == s[i],
{
    assert(s.take(i + 1).drop_last() =~= s.take(i));
}

/// End of `v[lo..hi]` once a trailing comment is cut off.
fn comment_cut(v: &Vec<char>, lo: usize, hi: usize) -> (e: usize)
    requires
        lo <= hi <= v@.len(),
    ensures
        lo <= e <= hi,
        v@.subrange(lo as int, e as int) == comment_stripped(v@.subrange(lo as int, hi as int)),
{
    let ghost s = v@.subrange(lo as int, hi as int);
    let mut in_string = false;
    let mut escaped = false;
    let mut i = lo;
    while i < hi
        invariant
            lo <= i <= hi <= v@.len(),
            s == v@.subrange(lo as int, hi as int),
            quote_state(s.take(i - lo)) == (in_string, escaped),
            comment_from(s, 0) == comment_from(s, i - lo),
        decreases hi - i,
    {
        let c = v[i];
        proof {
            lemma_quote_step(s, i - lo);
        }
        if escaped {
            escaped = false;
        } else if c == '\\' && in_string {
            escaped = true;
        } else if c == '"' {
            in_string = !in_string;
        } else if c == '#' && !in_string {
            proof {
                assert(s.take(i - lo) =~= s.take(comment_from(s, 0)));
                assert(v@.subrange(lo as int, i as int) =~= s.take(i - lo));
            }
            return i;
        }
        i += 1;
    }
    proof {
        assert(v@.subrange(lo as int, hi as int) =~= s.take(s.len() as int));
    }
    hi
}

} // verus!

verus! {

// ── values ───────────────────────────────────────────────────────────────

/// `p` in front of the text inside `o`, if any.
pub open spec fn prepend(p: Seq<char>, o: Option<Seq<char>>) -> Option<Seq<char>> {
    match o {
        Some(r) => Some(p + r),
        None => None,
    }
}

/// The text of a string's inside with its escapes resolved: `\n` and `\t`
/// are newline and tab, `\` before any other character keeps that
/// character. A dangling `\` or an unescaped `"` makes the quoting wrong.
pub open spec fn unescape(s: Seq<char>) -> Option<Seq<char>>
    decreases s.len(),
{
    if s.len() == 0 {
        Some(Seq::empty())
    } else if s[0] == '\\' {
        if s.len() < 2 {
            None
        } else {
            let c = s[1];
            let e = if c == 'n' { '\n' } else if c == 't' { '\t' } else { c };
            prepend(seq![e], unescape(s.subrange(2, s.len() as int)))
        }
    } else if s[0] == '"' {
        None
    } else {
        prepend(seq![s[0]], unescape(s.drop_first()))
    }
}

/// A double-quoted string's value; `None` for anything unquoted or quoted
/// wrongly, so a bare `theme = dark` is reported rather than accepted.
pub open spec fn parse_string(raw: Seq<char>) -> Option<Seq<char>> {
    if raw.len() >= 2 && raw[0] == '"' && raw.last() == '"' {
        unescape(raw.subrange(1, raw.len() - 1))
    } else {
        None
    }
}

/// The value of `v[lo..hi]` read as a double-quoted string.
fn read_string(v: &Vec<char>, lo: usize, hi: usize) -> (r: Option<String>)
    requires
        lo <= hi <= v@.len(),
    ensures
        opt_view(r) == parse_string(v@.subrange(lo as int, hi as int)),
{
    let ghost raw = v@.subrange(lo as int, hi as int);
    if hi - lo < 2 || v[lo] != '"' || v[hi - 1] != '"' {
        return None;
    }
    let ghost inner = raw.subrange(1, raw.len() - 1);
    let end = hi - 1;
    let mut out = String::new();
    let mut i = lo + 1;
    proof {
        assert(inner =~= v@.subrange(lo + 1, end as int));
        assert(out@ + Seq::<char>::empty() =~= out@);
    }
    while i < end
        invariant
            lo + 1 <= i <= end,
            end == hi - 1,
            hi <= v@.len(),
            raw == v@.subrange(lo as int, hi as int),
            raw.len() >= 2 && raw[0] == '"' && raw.last() == '"',
            inner == v@.subrange(lo + 1, end as int),
            inner == raw.subrange(1, raw.len() - 1),
            unescape(inner) == prepend(out@, unescape(v@.subrange(i as int, end as int))),
        decreases end - i,
    {
        let ghost rest = v@.subrange(i as int, end as int);
        let c = v[i];
        if c == '\\' {
            if i + 1 >= end {
                proof {
                    assert(rest[0] == '\\' && rest.len() < 2);
                }
                return None;
            }
            let d = v[i + 1];
            let e = if d == 'n' { '\n' } else if d == 't' { '\t' } else { d };
            proof {
                assert(rest.subrange(2, rest.len() as int) =~= v@.subrange(i + 2, end as int));
                assert(out@.push(e) =~= out@ + seq![e]);
                assert forall|o: Option<Seq<char>>| prepend(out@, prepend(seq![e], o)) == prepend(out@.push(e), o) by {
                    match o {
                        Some(r) => { assert(out@ + (seq![e] + r) =~= out@.push(e) + r); },
                        None => {},
                    }
                }
            }
            push_char(&mut out, e);
            i += 2;
        } else if c == '"' {
            proof {
                assert(rest[0] == '"');
            }
            return None;
        } else {
            proof {
                assert(rest.drop_first() =~= v@.subrange(i + 1, end as int));
                assert forall|o: Option<Seq<char>>| prepend(out@, prepend(seq![c], o)) == prepend(out@.push(c), o) by {
                    match o {
                        Some(r) => { assert(out@ + (seq![c] + r) =~= out@.push(c) + r); },
                        None => {},
                    }
                }
            }
            push_char(&mut out, c);
            i += 1;
        }
    }
    proof {
        assert(v@.subrange(i as int, end as int) =~= Seq::<char>::empty());
        assert(out@ + Seq::<char>::empty() =~= out@);
    }
    Some(out)
}

/// `true` or `false`, exactly.
pub open spec fn parse_bool(raw: Seq<char>) -> Option<bool> {
    if raw == "true"@ {
        Some(true)
    } else if raw == "false"@ {
        Some(false)
    } else {
        None
    }
}

fn read_bool(v: &Vec<char>, lo: usize, hi: usize) -> (r: Option<bool>)
    requires
        lo <= hi <= v@.len(),
    ensures
        r == parse_bool(v@.subrange(lo as int, hi as int)),
{
    if range_is(v, lo, hi, "true") {
        Some(true)
    } else if range_is(v, lo, hi, "false") {
        Some(false)
    } else {
        None
    }
}

/// Pieces of `s` cut at the commas that are outside strings.
pub open spec fn top_acc(s: Seq<char>) -> (Seq<Seq<char>>, Seq<char>)
    decreases s.len(),
{
    if s.len() == 0 {
        (Seq::empty(), Seq::empty())
    } else {
        let (done, cur) = top_acc(s.drop_last());
        let (ins, esc) = quote_state(s.drop_last());
        if !ins && !esc && s.last() == ',' {
            (done.push(cur), Seq::empty())
        } else {
            (done, cur.push(s.last()))
        }
    }
}

/// `s` split on commas outside strings, so `"a,b", "c"` stays two parts.
/// A trailing comma yields an empty final part.
pub open spec fn split_top_level(s: Seq<char>) -> Seq<Seq<char>> {
    let (done, cur) = top_acc(s);
    done.push(cur)
}

/// Boundaries of the top-level comma-separated parts of `v[lo..hi]`.
fn top_level_ranges(v: &Vec<char>, lo: usize, hi: usize) -> (r: Vec<(usize, usize)>)
    requires
        lo <= hi <= v@.len(),
    ensures
        ranges_in(r@, v@.len()),
        ranges_view(v@, r@) == split_top_level(v@.subrange(lo as int, hi as int)),
{
    let ghost s = v@.subrange(lo as int, hi as int);
    let mut r: Vec<(usize, usize)> = Vec::new();
    let mut in_string = false;
    let mut escaped = false;
    let mut start = lo;
    let mut i = lo;
    while i < hi
        invariant
            lo <= start <= i <= hi <= v@.len(),
            s == v@.subrange(lo as int, hi as int),
            ranges_in(r@, v@.len()),
            quote_state(s.take(i - lo)) == (in_string, escaped),
            top_acc(s.take(i - lo)) == (ranges_view(v@, r@), v@.subrange(start as int, i as int)),
        decreases hi - i,
    {
        let c = v[i];
        proof {
            lemma_quote_step(s, i - lo);
        }
        let split_here = !in_string && !escaped && c == ',';
        if escaped {
            escaped = false;
        } else if c == '\\' && in_string {
            escaped = true;
        } else if c == '"' {
            in_string = !in_string;
        }
        if split_here {
            proof {
                assert(ranges_view(v@, r@.push((start, i))) =~= ranges_view(v@, r@).push(v@.subrange(start as int, i as int)));
            }
            r.push((start, i));
            start = i + 1;
            proof {
                assert(v@.subrange(start as int, i + 1) =~= Seq::<char>::empty());
            }
        } else {
            proof {
                assert(v@.subrange(start as int, i + 1) =~= v@.subrange(start as int, i as int).push(c));
            }
        }
        i += 1;
    }
    proof {
        assert(s.take(s.len() as int) =~= s);
        assert(ranges_view(v@, r@.push((start, hi))) =~= ranges_view(v@, r@).push(v@.subrange(start as int, hi as int)));
    }
    r.push((start, hi));
    r
}

/// Each part trimmed and read as a quoted string; `None` if any is not one.
pub open spec fn parse_parts(parts: Seq<Seq<char>>) -> Option<Seq<Seq<char>>>
    decreases parts.len(),
{
    if parts.len() == 0 {
        Some(Seq::empty())
    } else {
        match (parse_parts(parts.drop_last()), parse_string(trim(parts.last()))) {
            (Some(done), Some(item)) => Some(done.push(item)),
            _ => None,
        }
    }
}

/// A single-line array of quoted strings; `[]` is the empty array.
pub open spec fn array_value(raw: Seq<char>) -> Option<Seq<Seq<char>>> {
    if raw.len() >= 2 && raw[0] == '[' && raw.last() == ']' {
        let inner = trim(raw.subrange(1, raw.len() - 1));
        if inner.len() == 0 {
            Some(Seq::empty())
        } else {
            parse_parts(split_top_level(inner))
        }
    } else {
        None
    }
}

/// The value of `v[lo..hi]` read as an array of quoted strings.
fn read_array(v: &Vec<char>, lo: usize, hi: usize) -> (r: Option<Vec<String>>)
    requires
        lo <= hi <= v@.len(),
    ensures
        match r {
            Some(items) => array_value(v@.subrange(lo as int, hi as int)) == Some(strings_view(items@)),
            None => array_value(v@.subrange(lo as int, hi as int)) is None,
        },
{
    let ghost raw = v@.subrange(lo as int, hi as int);
    if hi - lo < 2 || v[lo] != '[' || v[hi - 1] != ']' {
        return None;
    }
    let a0 = skip_ws(v, lo + 1, hi - 1);
    let b0 = skip_ws_back(v, a0, hi - 1);
    proof {
        assert(raw.subrange(1, raw.len() - 1) =~= v@.subrange(lo + 1, hi - 1));
    }
    let mut out: Vec<String> = Vec::new();
    if a0 == b0 {
        proof {
            assert(strings_view(out@) =~= Seq::<Seq<char>>::empty());
        }
        return Some(out);
    }
    let parts = top_level_ranges(v, a0, b0);
    let ghost ps = split_top_level(v@.subrange(a0 as int, b0 as int));
    proof {
        assert(trim(raw.subrange(1, raw.len() - 1)) == v@.subrange(a0 as int, b0 as int));
        assert(array_value(raw) == parse_parts(ps));
    }
    let mut k: usize = 0;
    while k < parts.len()
        invariant
            0 <= k <= parts@.len(),
            raw == v@.subrange(lo as int, hi as int),
            ranges_in(parts@, v@.len()),
            ranges_view(v@, parts@) == ps,
            array_value(raw) == parse_parts(ps),
            parse_parts(ps.take(k as int)) == Some(strings_view(out@)),
        decreases parts@.len() - k,
    {
        let (pa, pb) = parts[k];
        let a = skip_ws(v, pa, pb);
        let b = skip_ws_back(v, a, pb);
        let item = read_string(v, a, b);
        proof {
            assert(ps[k as int] == v@.subrange(pa as int, pb as int));
            assert(v@.subrange(a as int, b as int) == trim(ps[k as int]));
            lemma_parse_parts_step(ps, k as int);
        }
        match item {
            Some(item) => {
                proof {
                    assert(strings_view(out@.push(item)) =~= strings_view(out@).push(item@));
                }
                out.push(item);
            },
            None => {
                proof {
                    lemma_parse_parts_none(ps, k + 1);
                    assert(ps.take(ps.len() as int) =~= ps);
                }
                return None;
            },
        }
        k += 1;
    }
    proof {
        assert(ps.take(ps.len() as int) =~= ps);
    }
    Some(out)
}

proof fn lemma_parse_parts_step(ps: Seq<Seq<char>>, k: int)
    requires
        0 <= k < ps.len(),
    ensures
        parse_parts(ps.take(k + 1)) == (match (parse_parts(ps.take(k)), parse_string(trim(ps[k]))) {
            (Some(done), Some(item)) => Some(done.push(item)),
            _ => None,
        }),
{
    assert(ps.take(k + 1).drop_last() =~= ps.take(k));
    assert(ps.take(k + 1).last() == ps[k]);
}

/// Once a prefix fails to parse, every longer prefix fails too.
proof fn lemma_parse_parts_none(ps: Seq<Seq<char>>, k: int)
    requires
        0 <= k <= ps.len(),
        parse_parts(ps.take(k)) is None,
    ensures
        parse_parts(ps.take(ps.len() as int)) is None,
    decreases ps.len() - k,
{
    if k < ps.len() {
        assert(ps.take(k + 1).drop_last() =~= ps.take(k));
        lemma_parse_parts_none(ps, k + 1);
    }
}

} // verus!

verus! {

// ── validators shared with the command line ──────────────────────────────

/// A `Result` of strings, taken by their characters.
pub open spec fn result_view(r: Result<String, String>) -> Result<Seq<char>, Seq<char>> {
    match r {
        Ok(s) => Ok(s@),
        Err(e) => Err(e@),
    }
}

/// A theme name is accepted unless it falls back to dark without being
/// `dark` itself; a typo is rejected with the list of themes.
pub open spec fn theme_check(raw: Seq<char>) -> Result<Seq<char>, Seq<char>> {
    if theme_named(raw) == ThemeId::Dark && lower(raw) != "dark"@ {
        Err("unknown theme "@ + debug_str(raw)
            + " (available: dark, light, ocean, solarized, dracula, nord, terminal)"@)
    } else {
        Ok(raw)
    }
}

/// A graph style is accepted unless it falls back to bars without being
/// `bars` itself.
pub open spec fn graph_check(raw: Seq<char>) -> Result<Seq<char>, Seq<char>> {
    if style_named(raw) == GraphStyle::Bars && lower(raw) != "bars"@ {
        Err("unknown graph style "@ + debug_str(raw) + " (available: bars, dots)"@)
    } else {
        Ok(raw)
    }
}

/// A view name is accepted when it names a view.
pub open spec fn view_check(raw: Seq<char>) -> Result<Seq<char>, Seq<char>> {
    if view_mode_named(raw) is Some {
        Ok(raw)
    } else {
        Err("unknown view "@ + debug_str(raw) + " (available: full, lite, dense)"@)
    }
}

/// A tab name is accepted when it names a tab.
pub open spec fn tab_check(raw: Seq<char>) -> Result<Seq<char>, Seq<char>> {
    if tab_named(raw) is Some {
        Ok(raw)
    } else {
        Err("unknown tab "@ + debug_str(raw)
            + " (available: overview, devices, volumes, fs, io, smart, hot, insights)"@)
    }
}

fn is_dark_spelling(raw: &str) -> (b: bool)
    ensures
        b == (lower(raw@) == "dark"@),
{
    let v = to_chars(raw);
    let l = lower_range(&v, 0, v.len());
    proof {
        assert(v@.subrange(0, v@.len() as int) =~= v@);
    }
    crate::text::chars_are(&l, "dark")
}

fn is_bars_spelling(raw: &str) -> (b: bool)
    ensures
        b == (lower(raw@) == "bars"@),
{
    let v = to_chars(raw);
    let l = lower_range(&v, 0, v.len());
    proof {
        assert(v@.subrange(0, v@.len() as int) =~= v@);
    }
    crate::text::chars_are(&l, "bars")
}

/// Reject a theme name that is not one of the built-ins.
pub fn validate_theme(raw: &str) -> (r: Result<String, String>)
    ensures
        result_view(r) == theme_check(raw@),
{
    if crate::ui::theme::by_name(raw) == ThemeId::Dark && !is_dark_spelling(raw) {
        let e = cat(cat(owned("unknown theme "), debug_quoted(raw).as_str()),
            " (available: dark, light, ocean, solarized, dracula, nord, terminal)");
        return Err(e);
    }
    Ok(owned(raw))
}

/// Reject a graph style name that is not one of the built-ins.
pub fn validate_graph(raw: &str) -> (r: Result<String, String>)
    ensures
        result_view(r) == graph_check(raw@),
{
    if crate::ui::graph::by_name(raw) == GraphStyle::Bars && !is_bars_spelling(raw) {
        let e = cat(cat(owned("unknown graph style "), debug_quoted(raw).as_str()),
            " (available: bars, dots)");
        return Err(e);
    }
    Ok(owned(raw))
}

/// Reject a view name that names no view.
pub fn validate_view(raw: &str) -> (r: Result<String, String>)
    ensures
        result_view(r) == view_check(raw@),
{
    match ViewMode::from_name(raw) {
        Some(_) => Ok(owned(raw)),
        None => Err(cat(cat(owned("unknown view "), debug_quoted(raw).as_str()),
            " (available: full, lite, dense)")),
    }
}

/// Reject a tab name that names no tab.
pub fn validate_tab(raw: &str) -> (r: Result<String, String>)
    ensures
        result_view(r) == tab_check(raw@),
{
    match TabId::from_str(raw) {
        Some(_) => Ok(owned(raw)),
        None => Err(cat(cat(owned("unknown tab "), debug_quoted(raw).as_str()),
            " (available: overview, devices, volumes, fs, io, smart, hot, insights)")),
    }
}

// ── paths ────────────────────────────────────────────────────────────────

/// `rest` appended to `base` the way `PathBuf::push` does on Unix: an
/// absolute `rest` replaces `base`, otherwise one `/` separates them.
pub open spec fn path_join(base: Seq<char>, rest: Seq<char>) -> Seq<char> {
    if rest.len() > 0 && rest[0] == '/' {
        rest
    } else if base.len() == 0 || base.last() == '/' {
        base + rest
    } else {
        base + seq!['/'] + rest
    }
}

/// A leading `~` or `$HOME` expanded against `home`; nothing else is.
pub open spec fn expand(raw: Seq<char>, home: Option<Seq<char>>) -> Seq<char> {
    match home {
        None => raw,
        Some(h) => if raw == "~"@ || raw == "$HOME"@ {
            h
        } else if crate::text::starts_with(raw, "~/"@) {
            path_join(h, raw.skip(2))
        } else if crate::text::starts_with(raw, "$HOME/"@) {
            path_join(h, raw.skip(6))
        } else {
            raw
        },
    }
}

fn join_path(base: &str, rest: &Vec<char>, from: usize) -> (s: String)
    requires
        from <= rest@.len(),
    ensures
        s@ == path_join(base@, rest@.skip(from as int)),
{
    let tail = string_of(rest, from, rest.len());
    proof {
        assert(rest@.subrange(from as int, rest@.len() as int) =~= rest@.skip(from as int));
    }
    if from < rest.len() && rest[from] == '/' {
        return tail;
    }
    let b = to_chars(base);
    if b.len() == 0 || b[b.len() - 1] == '/' {
        cat(owned(base), tail.as_str())
    } else {
        let mut s = owned(base);
        push_char(&mut s, '/');
        cat(s, tail.as_str())
    }
}

/// Expand a leading `~` or `$HOME` in `raw` against `home`. Nothing else is
/// expanded: this is a config file, not a shell.
pub fn expand_path(raw: &str, home: Option<&str>) -> (s: String)
    ensures
        s@ == expand(raw@, match home { Some(h) => Some(h@), None => None }),
{
    match home {
        None => owned(raw),
        Some(h) => {
            let v = to_chars(raw);
            proof {
                assert(v@.subrange(0, v@.len() as int) =~= v@);
            }
            if range_is(&v, 0, v.len(), "~") || range_is(&v, 0, v.len(), "$HOME") {
                owned(h)
            } else if crate::text::range_has_prefix(&v, 0, v.len(), "~/") {
                proof {
                    reveal_strlit("~/");
                }
                join_path(h, &v, 2)
            } else if crate::text::range_has_prefix(&v, 0, v.len(), "$HOME/") {
                proof {
                    reveal_strlit("$HOME/");
                }
                join_path(h, &v, 6)
            } else {
                owned(raw)
            }
        },
    }
}

} // verus!

verus! {

// ── applying one line ────────────────────────────────────────────────────

/// A warning as it is reported: `line {n}: {msg}`.
pub open spec fn located(n: nat, msg: Seq<char>) -> Seq<char> {
    "line "@ + decimal(n) + ": "@ + msg
}

/// `m` with one more warning, about line `n`.
pub open spec fn warned(m: ConfigModel, n: nat, msg: Seq<char>) -> ConfigModel {
    ConfigModel { warnings: m.warnings.push(located(n, msg)), ..m }
}

/// The warning for a key whose value is not a quoted string.
pub open spec fn needs_quotes(key: Seq<char>) -> Seq<char> {
    "`"@ + key + "` expects a quoted string"@
}

pub open spec fn apply_theme(m: ConfigModel, n: nat, value: Seq<char>) -> ConfigModel {
    match parse_string(value) {
        Some(s) => match theme_check(s) {
            Ok(v) => ConfigModel { theme: Some(v), ..m },
            Err(e) => warned(m, n, e),
        },
        None => warned(m, n, needs_quotes("theme"@)),
    }
}

pub open spec fn apply_graph(m: ConfigModel, n: nat, value: Seq<char>) -> ConfigModel {
    match parse_string(value) {
        Some(s) => match graph_check(s) {
            Ok(v) => ConfigModel { graph: Some(v), ..m },
            Err(e) => warned(m, n, e),
        },
        None => warned(m, n, needs_quotes("graph"@)),
    }
}

pub open spec fn apply_view(m: ConfigModel, n: nat, value: Seq<char>) -> ConfigModel {
    match parse_string(value) {
        Some(s) => match view_check(s) {
            Ok(v) => ConfigModel { view: view_mode_named(v), ..m },
            Err(e) => warned(m, n, e),
        },
        None => warned(m, n, needs_quotes("view"@)),
    }
}

pub open spec fn apply_tab(m: ConfigModel, n: nat, value: Seq<char>) -> ConfigModel {
    match parse_string(value) {
        Some(s) => match tab_check(s) {
            Ok(v) => ConfigModel { tab: tab_named(v), ..m },
            Err(e) => warned(m, n, e),
        },
        None => warned(m, n, needs_quotes("tab"@)),
    }
}

pub open spec fn apply_graph_fade(m: ConfigModel, n: nat, value: Seq<char>) -> ConfigModel {
    match parse_bool(value) {
        Some(b) => ConfigModel { graph_fade: Some(b), ..m },
        None => warned(m, n, "`graph_fade` expects true or false"@),
    }
}

/// The warning for an interval below the floor.
pub open spec fn below_floor(k: nat) -> Seq<char> {
    "`smart_interval_secs` = "@ + decimal(k)
        + " is below the 5s floor; polling faster than that issues more than one smartctl per second per disk"@
}

pub open spec fn apply_interval(m: ConfigModel, n: nat, value: Seq<char>) -> ConfigModel {
    match parse_uint(value, u64::MAX as nat) {
        Some(k) => if k >= MIN_SMART_INTERVAL_SECS {
            ConfigModel { smart_interval_secs: Some(k as u64), ..m }
        } else {
            warned(m, n, below_floor(k))
        },
        None => warned(m, n, "`smart_interval_secs` expects a positive integer"@),
    }
}

pub open spec fn apply_temp_unit(m: ConfigModel, n: nat, value: Seq<char>) -> ConfigModel {
    match parse_string(value) {
        Some(s) => {
            let l = lower(s);
            if l == "c"@ || l == "celsius"@ {
                ConfigModel { temp_unit: Some(TempUnit::Celsius), ..m }
            } else if l == "f"@ || l == "fahrenheit"@ {
                ConfigModel { temp_unit: Some(TempUnit::Fahrenheit), ..m }
            } else {
                warned(m, n, "unknown temp_unit "@ + debug_str(l) + " (expected celsius or fahrenheit)"@)
            }
        },
        None => warned(m, n, needs_quotes("temp_unit"@)),
    }
}

} // verus!

verus! {

/// The bit a column name selects, by its lower-case spelling.
pub open spec fn column_bit(name: Seq<char>) -> Option<u8> {
    if name == "size"@ {
        Some(VisibleColumns::SIZE)
    } else if name == "free"@ {
        Some(VisibleColumns::FREE)
    } else if name == "used_pct"@ {
        Some(VisibleColumns::USED_PCT)
    } else if name == "temp"@ {
        Some(VisibleColumns::TEMP)
    } else if name == "smart"@ {
        Some(VisibleColumns::SMART)
    } else {
        None
    }
}

/// The warning for a column name that names no column.
pub open spec fn unknown_column(item: Seq<char>) -> Seq<char> {
    "unknown column "@ + debug_str(item) + " (available: size, free, used_pct, temp, smart)"@
}

/// The columns named so far and the warnings for names that matched none.
pub open spec fn columns_fold(m: ConfigModel, n: nat, items: Seq<Seq<char>>) -> (ConfigModel, u8)
    decreases items.len(),
{
    if items.len() == 0 {
        (m, 0u8)
    } else {
        let (m2, bits) = columns_fold(m, n, items.drop_last());
        let item = items.last();
        match column_bit(lower(item)) {
            Some(b) => (m2, bits | b),
            None => (warned(m2, n, unknown_column(item)), bits),
        }
    }
}

pub open spec fn apply_columns(m: ConfigModel, n: nat, value: Seq<char>) -> ConfigModel {
    match array_value(value) {
        Some(items) => {
            let (m2, bits) = columns_fold(m, n, items);
            ConfigModel { columns: Some(bits), ..m2 }
        },
        None => warned(m, n, "`columns` expects an array of strings"@),
    }
}

/// Every path of `items` expanded against `home`.
pub open spec fn expand_all(items: Seq<Seq<char>>, home: Option<Seq<char>>) -> Seq<Seq<char>> {
    items.map_values(|s: Seq<char>| expand(s, home))
}

pub open spec fn apply_watch(m: ConfigModel, n: nat, value: Seq<char>, home: Option<Seq<char>>) -> ConfigModel {
    match array_value(value) {
        Some(items) => ConfigModel { watch_paths: Some(expand_all(items, home)), ..m },
        None => warned(m, n, "`watch_paths` expects an array of strings"@),
    }
}

pub open spec fn apply_extra_watch(m: ConfigModel, n: nat, value: Seq<char>, home: Option<Seq<char>>) -> ConfigModel {
    match array_value(value) {
        Some(items) => ConfigModel { extra_watch_paths: expand_all(items, home), ..m },
        None => warned(m, n, "`extra_watch_paths` expects an array of strings"@),
    }
}

/// The warning for a key nobody reads, listing the ones that are.
pub open spec fn unknown_key(key: Seq<char>) -> Seq<char> {
    "unknown key "@ + debug_str(key)
        + " (known keys: theme, graph, graph_fade, view, tab, smart_interval_secs, temp_unit, columns, watch_paths, extra_watch_paths)"@
}

/// What `key = value` on line `n` does to the settings.
pub open spec fn apply_key(m: ConfigModel, n: nat, key: Seq<char>, value: Seq<char>, home: Option<Seq<char>>) -> ConfigModel {
    if key == "theme"@ {
        apply_theme(m, n, value)
    } else if key == "graph"@ {
        apply_graph(m, n, value)
    } else if key == "view"@ {
        apply_view(m, n, value)
    } else if key == "tab"@ {
        apply_tab(m, n, value)
    } else if key == "graph_fade"@ {
        apply_graph_fade(m, n, value)
    } else if key == "smart_interval_secs"@ {
        apply_interval(m, n, value)
    } else if key == "temp_unit"@ {
        apply_temp_unit(m, n, value)
    } else if key == "columns"@ {
        apply_columns(m, n, value)
    } else if key == "watch_paths"@ {
        apply_watch(m, n, value, home)
    } else if key == "extra_watch_paths"@ {
        apply_extra_watch(m, n, value, home)
    } else {
        warned(m, n, unknown_key(key))
    }
}

/// What line `n` of the file, as written, does to the settings.
pub open spec fn line_step(m: ConfigModel, n: nat, raw: Seq<char>, home: Option<Seq<char>>) -> ConfigModel {
    let line = trim(comment_stripped(raw));
    if line.len() == 0 {
        m
    } else if line[0] == '[' {
        warned(m, n, "tables are not supported; write keys at the top level"@)
    } else {
        match crate::text::find(line, seq!['=']) {
            None => warned(m, n, "expected `key = value`"@),
            Some(i) => {
                let key = trim(line.take(i));
                let value = trim(line.skip(i + 1));
                if value.len() == 0 {
                    warned(m, n, "`"@ + key + "` has no value"@)
                } else {
                    apply_key(m, n, key, value, home)
                }
            },
        }
    }
}

/// The settings after reading the lines `ls`, numbered from 1.
pub open spec fn parse_lines(ls: Seq<Seq<char>>, home: Option<Seq<char>>) -> ConfigModel
    decreases ls.len(),
{
    if ls.len() == 0 {
        empty_model()
    } else {
        line_step(parse_lines(ls.drop_last(), home), ls.len(), ls.last(), home)
    }
}

/// The settings a config file's text gives, `~` expanding against `home`.
pub open spec fn parse_config(text: Seq<char>, home: Option<Seq<char>>) -> ConfigModel {
    parse_lines(crate::text::lines(text), home)
}

pub open spec fn home_view(home: Option<&str>) -> Option<Seq<char>> {
    match home {
        Some(h) => Some(h@),
        None => None,
    }
}

} // verus!

verus! {

fn quote_warning(key: &str) -> (s: String)
    ensures
        s@ == needs_quotes(key@),
{
    cat(cat(owned("`"), key), "` expects a quoted string")
}

fn column_bit_of(l: &Vec<char>) -> (r: Option<u8>)
    ensures
        r == column_bit(l@),
{
    if crate::text::chars_are(l, "size") {
        Some(VisibleColumns::SIZE)
    } else if crate::text::chars_are(l, "free") {
        Some(VisibleColumns::FREE)
    } else if crate::text::chars_are(l, "used_pct") {
        Some(VisibleColumns::USED_PCT)
    } else if crate::text::chars_are(l, "temp") {
        Some(VisibleColumns::TEMP)
    } else if crate::text::chars_are(l, "smart") {
        Some(VisibleColumns::SMART)
    } else {
        None
    }
}

/// Every path of `items` expanded against `home`.
pub fn expand_each(items: &Vec<String>, home: Option<&str>) -> (out: Vec<String>)
    ensures
        strings_view(out@) == expand_all(strings_view(items@), home_view(home)),
{
    let mut out: Vec<String> = Vec::new();
    let mut k: usize = 0;
    while k < items.len()
        invariant
            0 <= k <= items@.len(),
            out@.len() == k,
            strings_view(out@) == expand_all(strings_view(items@).take(k as int), home_view(home)),
        decreases items@.len() - k,
    {
        let e = expand_path(items[k].as_str(), home);
        proof {
            let ghost prev = expand_all(strings_view(items@).take(k as int), home_view(home));
            let ghost next = expand_all(strings_view(items@).take(k + 1), home_view(home));
            assert(e@ == expand(items@[k as int]@, home_view(home)));
            assert forall|i: int| 0 <= i < k + 1 implies #[trigger] strings_view(out@.push(e))[i] == next[i] by {
                if i < k {
                    assert(strings_view(out@)[i] == prev[i]);
                }
            }
            assert(strings_view(out@.push(e)) =~= next);
        }
        out.push(e);
        k += 1;
    }
    proof {
        assert(strings_view(items@).take(items@.len() as int) =~= strings_view(items@));
    }
    out
}

impl Config {
    fn warn(&mut self, n: usize, msg: &str)
        ensures
            final(self)@ == warned(old(self)@, n as nat, msg@),
    {
        let s = cat(cat(cat(owned("line "), format_u64(n as u64).as_str()), ": "), msg);
        proof {
            assert(strings_view(self.warnings@.push(s)) =~= strings_view(self.warnings@).push(s@));
        }
        self.warnings.push(s);
    }

    fn set_theme(&mut self, n: usize, v: &Vec<char>, lo: usize, hi: usize)
        requires
            lo <= hi <= v@.len(),
        ensures
            final(self)@ == apply_theme(old(self)@, n as nat, v@.subrange(lo as int, hi as int)),
    {
        match read_string(v, lo, hi) {
            Some(s) => match validate_theme(s.as_str()) {
                Ok(t) => {
                    self.theme = Some(t);
                },
                Err(e) => self.warn(n, e.as_str()),
            },
            None => {
                let w = quote_warning("theme");
                self.warn(n, w.as_str());
            },
        }
    }

    fn set_graph(&mut self, n: usize, v: &Vec<char>, lo: usize, hi: usize)
        requires
            lo <= hi <= v@.len(),
        ensures
            final(self)@ == apply_graph(old(self)@, n as nat, v@.subrange(lo as int, hi as int)),
    {
        match read_string(v, lo, hi) {
            Some(s) => match validate_graph(s.as_str()) {
                Ok(g) => {
                    self.graph = Some(g);
                },
                Err(e) => self.warn(n, e.as_str()),
            },
            None => {
                let w = quote_warning("graph");
                self.warn(n, w.as_str());
            },
        }
    }

    fn set_view(&mut self, n: usize, v: &Vec<char>, lo: usize, hi: usize)
        requires
            lo <= hi <= v@.len(),
        ensures
            final(self)@ == apply_view(old(self)@, n as nat, v@.subrange(lo as int, hi as int)),
    {
        match read_string(v, lo, hi) {
            Some(s) => match validate_view(s.as_str()) {
                Ok(name) => {
                    self.view = ViewMode::from_name(name.as_str());
                },
                Err(e) => self.warn(n, e.as_str()),
            },
            None => {
                let w = quote_warning("view");
                self.warn(n, w.as_str());
            },
        }
    }

    fn set_tab(&mut self, n: usize, v: &Vec<char>, lo: usize, hi: usize)
        requires
            lo <= hi <= v@.len(),
        ensures
            final(self)@ == apply_tab(old(self)@, n as nat, v@.subrange(lo as int, hi as int)),
    {
        match read_string(v, lo, hi) {
            Some(s) => match validate_tab(s.as_str()) {
                Ok(name) => {
                    self.tab = TabId::from_str(name.as_str());
                },
                Err(e) => self.warn(n, e.as_str()),
            },
            None => {
                let w = quote_warning("tab");
                self.warn(n, w.as_str());
            },
        }
    }

    fn set_graph_fade(&mut self, n: usize, v: &Vec<char>, lo: usize, hi: usize)
        requires
            lo <= hi <= v@.len(),
        ensures
            final(self)@ == apply_graph_fade(old(self)@, n as nat, v@.subrange(lo as int, hi as int)),
    {
        match read_bool(v, lo, hi) {
            Some(b) => {
                self.graph_fade = Some(b);
            },
            None => self.warn(n, "`graph_fade` expects true or false"),
        }
    }

    fn set_interval(&mut self, n: usize, v: &Vec<char>, lo: usize, hi: usize)
        requires
            lo <= hi <= v@.len(),
        ensures
            final(self)@ == apply_interval(old(self)@, n as nat, v@.subrange(lo as int, hi as int)),
    {
        match parse_u64(v, lo, hi) {
            Some(k) => {
                if k >= MIN_SMART_INTERVAL_SECS {
                    self.smart_interval_secs = Some(k);
                } else {
                    let w = cat(cat(owned("`smart_interval_secs` = "), format_u64(k).as_str()),
                        " is below the 5s floor; polling faster than that issues more than one smartctl per second per disk");
                    self.warn(n, w.as_str());
                }
            },
            None => self.warn(n, "`smart_interval_secs` expects a positive integer"),
        }
    }

    fn set_temp_unit(&mut self, n: usize, v: &Vec<char>, lo: usize, hi: usize)
        requires
            lo <= hi <= v@.len(),
        ensures
            final(self)@ == apply_temp_unit(old(self)@, n as nat, v@.subrange(lo as int, hi as int)),
    {
        match read_string(v, lo, hi) {
            Some(s) => {
                let c = to_chars(s.as_str());
                let l = lower_range(&c, 0, c.len());
                proof {
                    assert(c@.subrange(0, c@.len() as int) =~= c@);
                }
                if crate::text::chars_are(&l, "c") || crate::text::chars_are(&l, "celsius") {
                    self.temp_unit = Some(TempUnit::Celsius);
                } else if crate::text::chars_are(&l, "f") || crate::text::chars_are(&l, "fahrenheit") {
                    self.temp_unit = Some(TempUnit::Fahrenheit);
                } else {
                    let ls = string_of(&l, 0, l.len());
                    proof {
                        assert(l@.subrange(0, l@.len() as int) =~= l@);
                    }
                    let w = cat(cat(owned("unknown temp_unit "), debug_quoted(ls.as_str()).as_str()),
                        " (expected celsius or fahrenheit)");
                    self.warn(n, w.as_str());
                }
            },
            None => {
                let w = quote_warning("temp_unit");
                self.warn(n, w.as_str());
            },
        }
    }
}

} // verus!

verus! {

proof fn lemma_columns_step(m: ConfigModel, n: nat, items: Seq<Seq<char>>, k: int)
    requires
        0 <= k < items.len(),
    ensures
        columns_fold(m, n, items.take(k + 1)) == ({
            let (m2, bits) = columns_fold(m, n, items.take(k));
            match column_bit(lower(items[k])) {
                Some(b) => (m2, bits | b),
                None => (warned(m2, n, unknown_column(items[k])), bits),
            }
        }),
{
    assert(items.take(k + 1).drop_last() =~= items.take(k));
}

impl Config {
    fn set_columns(&mut self, n: usize, v: &Vec<char>, lo: usize, hi: usize)
        requires
            lo <= hi <= v@.len(),
        ensures
            final(self)@ == apply_columns(old(self)@, n as nat, v@.subrange(lo as int, hi as int)),
    {
        let ghost m0 = self@;
        match read_array(v, lo, hi) {
            Some(items) => {
                let ghost iv = strings_view(items@);
                let mut bits: u8 = 0;
                let mut k: usize = 0;
                while k < items.len()
                    invariant
                        0 <= k <= items@.len(),
                        iv == strings_view(items@),
                        columns_fold(m0, n as nat, iv.take(k as int)) == (self@, bits),
                    decreases items@.len() - k,
                {
                    let c = to_chars(items[k].as_str());
                    let l = lower_range(&c, 0, c.len());
                    proof {
                        assert(c@.subrange(0, c@.len() as int) =~= c@);
                        assert(iv[k as int] == items@[k as int]@);
                        lemma_columns_step(m0, n as nat, iv, k as int);
                    }
                    match column_bit_of(&l) {
                        Some(b) => {
                            bits = bits | b;
                        },
                        None => {
                            let w = cat(cat(owned("unknown column "), debug_quoted(items[k].as_str()).as_str()),
                                " (available: size, free, used_pct, temp, smart)");
                            self.warn(n, w.as_str());
                        },
                    }
                    k += 1;
                }
                proof {
                    assert(iv.take(items@.len() as int) =~= iv);
                }
                self.columns = Some(VisibleColumns(bits));
            },
            None => self.warn(n, "`columns` expects an array of strings"),
        }
    }

    fn set_watch(&mut self, n: usize, v: &Vec<char>, lo: usize, hi: usize, home: Option<&str>)
        requires
            lo <= hi <= v@.len(),
        ensures
            final(self)@ == apply_watch(old(self)@, n as nat, v@.subrange(lo as int, hi as int), home_view(home)),
    {
        match read_array(v, lo, hi) {
            Some(items) => {
                self.watch_paths = Some(expand_each(&items, home));
            },
            None => self.warn(n, "`watch_paths` expects an array of strings"),
        }
    }

    fn set_extra_watch(&mut self, n: usize, v: &Vec<char>, lo: usize, hi: usize, home: Option<&str>)
        requires
            lo <= hi <= v@.len(),
        ensures
            final(self)@ == apply_extra_watch(old(self)@, n as nat, v@.subrange(lo as int, hi as int), home_view(home)),
    {
        match read_array(v, lo, hi) {
            Some(items) => {
                self.extra_watch_paths = expand_each(&items, home);
            },
            None => self.warn(n, "`extra_watch_paths` expects an array of strings"),
        }
    }

    fn apply(&mut self, n: usize, v: &Vec<char>, ka: usize, kb: usize, va: usize, vb: usize, home: Option<&str>)
        requires
            ka <= kb <= v@.len(),
            va <= vb <= v@.len(),
        ensures
            final(self)@ == apply_key(old(self)@, n as nat, v@.subrange(ka as int, kb as int),
                v@.subrange(va as int, vb as int), home_view(home)),
    {
        if range_is(v, ka, kb, "theme") {
            self.set_theme(n, v, va, vb);
        } else if range_is(v, ka, kb, "graph") {
            self.set_graph(n, v, va, vb);
        } else if range_is(v, ka, kb, "view") {
            self.set_view(n, v, va, vb);
        } else if range_is(v, ka, kb, "tab") {
            self.set_tab(n, v, va, vb);
        } else if range_is(v, ka, kb, "graph_fade") {
            self.set_graph_fade(n, v, va, vb);
        } else if range_is(v, ka, kb, "smart_interval_secs") {
            self.set_interval(n, v, va, vb);
        } else if range_is(v, ka, kb, "temp_unit") {
            self.set_temp_unit(n, v, va, vb);
        } else if range_is(v, ka, kb, "columns") {
            self.set_columns(n, v, va, vb);
        } else if range_is(v, ka, kb, "watch_paths") {
            self.set_watch(n, v, va, vb, home);
        } else if range_is(v, ka, kb, "extra_watch_paths") {
            self.set_extra_watch(n, v, va, vb, home);
        } else {
            let key = string_of(v, ka, kb);
            let w = cat(cat(owned("unknown key "), debug_quoted(key.as_str()).as_str()),
                " (known keys: theme, graph, graph_fade, view, tab, smart_interval_secs, temp_unit, columns, watch_paths, extra_watch_paths)");
            self.warn(n, w.as_str());
        }
    }

    fn read_line(&mut self, n: usize, v: &Vec<char>, lo: usize, hi: usize, home: Option<&str>)
        requires
            lo <= hi <= v@.len(),
        ensures
            final(self)@ == line_step(old(self)@, n as nat, v@.subrange(lo as int, hi as int), home_view(home)),
    {
        let e = comment_cut(v, lo, hi);
        let (a, b) = crate::text::trim_range(v, lo, e);
        proof {
            assert(v@.subrange(lo as int, e as int) =~= v@.subrange(lo as int, e as int).subrange(0, (e - lo) as int));
        }
        let ghost line = v@.subrange(a as int, b as int);
        assert(line == trim(comment_stripped(v@.subrange(lo as int, hi as int))));
        if a == b {
            return;
        }
        if v[a] == '[' {
            self.warn(n, "tables are not supported; write keys at the top level");
            return;
        }
        match crate::text::range_find_char(v, a, b, '=') {
            None => {
                self.warn(n, "expected `key = value`");
            },
            Some(j) => {
                let (ka, kb) = crate::text::trim_range(v, a, j);
                let (va, vb) = crate::text::trim_range(v, j + 1, b);
                proof {
                    assert(v@.subrange(a as int, j as int) =~= line.take(j - a));
                    assert(v@.subrange(j + 1, b as int) =~= line.skip(j - a + 1));
                }
                assert(crate::text::find(line, seq!['=']) == Some(j - a));
                assert(v@.subrange(ka as int, kb as int) == trim(line.take(j - a)));
                assert(v@.subrange(va as int, vb as int) == trim(line.skip(j - a + 1)));
                if va == vb {
                    let key = string_of(v, ka, kb);
                    let w = cat(cat(owned("`"), key.as_str()), "` has no value");
                    self.warn(n, w.as_str());
                } else {
                    self.apply(n, v, ka, kb, va, vb, home);
                }
            },
        }
    }

    /// Parse config text, expanding a leading `~` against `home`. Nothing
    /// in it is fatal: each problem becomes a warning naming its line.
    pub fn parse(text: &str, home: Option<&str>) -> (c: Config)
        ensures
            c@ == parse_config(text@, home_view(home)),
    {
        let v = to_chars(text);
        let r = crate::text::line_ranges(&v);
        let ghost ls = crate::text::lines(text@);
        let mut cfg = Config::default();
        let mut k: usize = 0;
        while k < r.len()
            invariant
                v@ == text@,
                ls == crate::text::lines(text@),
                ranges_in(r@, v@.len()),
                ranges_view(v@, r@) == ls,
                0 <= k <= r@.len(),
                cfg@ == parse_lines(ls.take(k as int), home_view(home)),
            decreases r@.len() - k,
        {
            let (lo, hi) = r[k];
            proof {
                assert(ls.take(k + 1).drop_last() =~= ls.take(k as int));
                assert(r@[k as int].0 <= r@[k as int].1);
                assert(ls[k as int] == v@.subrange(lo as int, hi as int));
            }
            cfg.read_line(k + 1, &v, lo, hi, home);
            k += 1;
        }
        proof {
            assert(ls.take(ls.len() as int) =~= ls);
        }
        cfg
    }
}

} // verus!

verus! {

// ── what reading a file promises ─────────────────────────────────────────

/// Every warning in `ws` begins `line `.
pub open spec fn all_located(ws: Seq<Seq<char>>) -> bool {
    forall|i: int| 0 <= i < ws.len() ==> crate::text::starts_with(#[trigger] ws[i], "line "@)
}

/// `a` is `b` cut short, or `b` itself.
pub open spec fn prefix_of(a: Seq<Seq<char>>, b: Seq<Seq<char>>) -> bool {
    a.len() <= b.len() && b.take(a.len() as int) == a
}

/// The settings of `m` apart from the column set, with no warnings.
pub open spec fn settings_but_columns(m: ConfigModel) -> ConfigModel {
    ConfigModel { columns: None, warnings: Seq::empty(), ..m }
}

proof fn lemma_located_starts(n: nat, msg: Seq<char>)
    ensures
        crate::text::starts_with(located(n, msg), "line "@),
{
    reveal_strlit("line ");
    assert(located(n, msg).subrange(0, 5) =~= "line "@);
}

proof fn lemma_warned(m: ConfigModel, n: nat, msg: Seq<char>)
    ensures
        all_located(m.warnings) ==> all_located(warned(m, n, msg).warnings),
        prefix_of(m.warnings, warned(m, n, msg).warnings),
        warned(m, n, msg).warnings.len() == m.warnings.len() + 1,
        settings_but_columns(warned(m, n, msg)) == settings_but_columns(m),
        warned(m, n, msg).columns == m.columns,
{
    lemma_located_starts(n, msg);
    let w = warned(m, n, msg).warnings;
    assert(w.take(m.warnings.len() as int) =~= m.warnings);
    if all_located(m.warnings) {
        assert forall|i: int| 0 <= i < w.len() implies crate::text::starts_with(#[trigger] w[i], "line "@) by {
            if i < m.warnings.len() {
                assert(w[i] == m.warnings[i]);
            }
        }
    }
}

proof fn lemma_columns_fold(m: ConfigModel, n: nat, items: Seq<Seq<char>>)
    ensures
        all_located(m.warnings) ==> all_located(columns_fold(m, n, items).0.warnings),
        prefix_of(m.warnings, columns_fold(m, n, items).0.warnings),
        settings_but_columns(columns_fold(m, n, items).0) == settings_but_columns(m),
    decreases items.len(),
{
    if items.len() > 0 {
        lemma_columns_fold(m, n, items.drop_last());
        let (m2, bits) = columns_fold(m, n, items.drop_last());
        lemma_warned(m2, n, unknown_column(items.last()));
        let m3 = columns_fold(m, n, items).0;
        assert(m3.warnings.take(m.warnings.len() as int) =~= m.warnings) by {
            assert(m3.warnings.take(m2.warnings.len() as int) == m2.warnings);
            assert(m2.warnings.take(m.warnings.len() as int) == m.warnings);
        }
    } else {
        assert(m.warnings.take(m.warnings.len() as int) =~= m.warnings);
    }
}

proof fn lemma_all_warned()
    ensures
        forall|m: ConfigModel, n: nat, msg: Seq<char>| #[trigger] warned(m, n, msg) == warned(m, n, msg) && {
            &&& (all_located(m.warnings) ==> all_located(warned(m, n, msg).warnings))
            &&& prefix_of(m.warnings, warned(m, n, msg).warnings)
            &&& warned(m, n, msg).warnings.len() == m.warnings.len() + 1
            &&& settings_but_columns(warned(m, n, msg)) == settings_but_columns(m)
        },
{
    assert forall|m: ConfigModel, n: nat, msg: Seq<char>| #[trigger] warned(m, n, msg) == warned(m, n, msg) && {
        &&& (all_located(m.warnings) ==> all_located(warned(m, n, msg).warnings))
        &&& prefix_of(m.warnings, warned(m, n, msg).warnings)
        &&& warned(m, n, msg).warnings.len() == m.warnings.len() + 1
        &&& settings_but_columns(warned(m, n, msg)) == settings_but_columns(m)
    } by {
        lemma_warned(m, n, msg);
    }
}

/// One line of a config file: the warnings before it stay, in order, and
/// every warning it adds names its line.
proof fn lemma_line_step(m: ConfigModel, n: nat, raw: Seq<char>, home: Option<Seq<char>>)
    ensures
        all_located(m.warnings) ==> all_located(line_step(m, n, raw, home).warnings),
        prefix_of(m.warnings, line_step(m, n, raw, home).warnings),
{
    lemma_all_warned();
    let line = trim(comment_stripped(raw));
    if line.len() > 0 && line[0] != '[' {
        match crate::text::find(line, seq!['=']) {
            Some(i) => {
                let key = trim(line.take(i));
                let value = trim(line.skip(i + 1));
                if value.len() > 0 && key == "columns"@ {
                    match array_value(value) {
                        Some(items) => lemma_columns_fold(m, n, items),
                        None => {},
                    }
                }
            },
            None => {},
        }
    }
    let m2 = line_step(m, n, raw, home);
    if m2.warnings == m.warnings {
        assert(m.warnings.take(m.warnings.len() as int) =~= m.warnings);
    }
}

/// Every warning a config file produces names the line it is about; on a
/// long file a warning without its line is useless.
pub proof fn law_every_warning_names_its_line(text: Seq<char>, home: Option<Seq<char>>)
    ensures
        forall|i: int| 0 <= i < parse_config(text, home).warnings.len() ==>
            crate::text::starts_with(#[trigger] parse_config(text, home).warnings[i], "line "@),
{
    lemma_lines_located(crate::text::lines(text), home);
}

proof fn lemma_lines_located(ls: Seq<Seq<char>>, home: Option<Seq<char>>)
    ensures
        all_located(parse_lines(ls, home).warnings),
    decreases ls.len(),
{
    if ls.len() > 0 {
        lemma_lines_located(ls.drop_last(), home);
        lemma_line_step(parse_lines(ls.drop_last(), home), ls.len(), ls.last(), home);
    }
}

} // verus!

verus! {

/// A line that draws a warning changes no setting, bar the column list,
/// whose recognised names still apply; and the warnings before it stay, in
/// order. So a typo costs the one setting it was about, never the file.
pub proof fn law_a_bad_line_costs_only_itself(ls: Seq<Seq<char>>, line: Seq<char>, home: Option<Seq<char>>)
    ensures
        prefix_of(parse_lines(ls, home).warnings, parse_lines(ls.push(line), home).warnings),
        parse_lines(ls.push(line), home).warnings.len() > parse_lines(ls, home).warnings.len()
            ==> settings_but_columns(parse_lines(ls.push(line), home)) == settings_but_columns(parse_lines(ls, home)),
{
    assert(ls.push(line).drop_last() =~= ls);
    let m = parse_lines(ls, home);
    let n = ls.len() + 1;
    lemma_line_step(m, n, line, home);
    lemma_all_warned();
    let l = trim(comment_stripped(line));
    if l.len() > 0 && l[0] != '[' {
        match crate::text::find(l, seq!['=']) {
            Some(i) => {
                let key = trim(l.take(i));
                let value = trim(l.skip(i + 1));
                if value.len() > 0 && key == "columns"@ {
                    match array_value(value) {
                        Some(items) => lemma_columns_fold(m, n, items),
                        None => {},
                    }
                }
            },
            None => {},
        }
    }
}

} // verus!

verus! {

/// The settings of `m`, with no warnings.
pub open spec fn settings_of(m: ConfigModel) -> ConfigModel {
    ConfigModel { warnings: Seq::empty(), ..m }
}

/// How many warnings line `n` adds to `m`.
pub open spec fn warnings_added(m: ConfigModel, n: nat, raw: Seq<char>, home: Option<Seq<char>>) -> int {
    line_step(m, n, raw, home).warnings.len() - m.warnings.len()
}

/// `raw` is a `columns = ...` line.
pub open spec fn columns_line(raw: Seq<char>) -> bool {
    let line = trim(comment_stripped(raw));
    &&& line.len() > 0
    &&& line[0] != '['
    &&& crate::text::find(line, seq!['=']) matches Some(i) && trim(line.take(i)) == "columns"@
}

/// The names a column list selects and the warnings it adds depend on the
/// list alone; the settings it leaves are those it started from.
proof fn lemma_columns_fold_effect(m1: ConfigModel, m2: ConfigModel, n1: nat, n2: nat, items: Seq<Seq<char>>)
    ensures
        columns_fold(m1, n1, items).1 == columns_fold(m2, n2, items).1,
        columns_fold(m1, n1, items).0.warnings.len() - m1.warnings.len()
            == columns_fold(m2, n2, items).0.warnings.len() - m2.warnings.len(),
        settings_of(columns_fold(m1, n1, items).0) == settings_of(m1),
    decreases items.len(),
{
    if items.len() > 0 {
        lemma_columns_fold_effect(m1, m2, n1, n2, items.drop_last());
    }
}

/// How many warnings a line adds depends on the line alone, not on what
/// came before it or on its number.
proof fn lemma_line_warning_count(m1: ConfigModel, m2: ConfigModel, n1: nat, n2: nat, raw: Seq<char>, home: Option<Seq<char>>)
    ensures
        warnings_added(m1, n1, raw, home) == warnings_added(m2, n2, raw, home),
{
    let line = trim(comment_stripped(raw));
    if line.len() > 0 && line[0] != '[' {
        match crate::text::find(line, seq!['=']) {
            Some(i) => {
                let value = trim(line.skip(i + 1));
                match array_value(value) {
                    Some(items) => lemma_columns_fold_effect(m1, m2, n1, n2, items),
                    None => {},
                }
            },
            None => {},
        }
    }
}

/// Two states with the same settings keep the same settings after the same
/// line, whatever its number and whatever warnings came before.
proof fn lemma_line_settings(m1: ConfigModel, m2: ConfigModel, n1: nat, n2: nat, raw: Seq<char>, home: Option<Seq<char>>)
    requires
        settings_of(m1) == settings_of(m2),
    ensures
        settings_of(line_step(m1, n1, raw, home)) == settings_of(line_step(m2, n2, raw, home)),
{
    let line = trim(comment_stripped(raw));
    if line.len() > 0 && line[0] != '[' {
        match crate::text::find(line, seq!['=']) {
            Some(i) => {
                let key = trim(line.take(i));
                let value = trim(line.skip(i + 1));
                if value.len() > 0 {
                    lemma_key_settings(m1, m2, n1, n2, key, value, home);
                }
            },
            None => {},
        }
    }
}

proof fn lemma_key_settings(m1: ConfigModel, m2: ConfigModel, n1: nat, n2: nat, key: Seq<char>, value: Seq<char>, home: Option<Seq<char>>)
    requires
        settings_of(m1) == settings_of(m2),
    ensures
        settings_of(apply_key(m1, n1, key, value, home)) == settings_of(apply_key(m2, n2, key, value, home)),
{
    if key == "columns"@ {
        match array_value(value) {
            Some(items) => {
                lemma_columns_fold_effect(m1, m2, n1, n2, items);
                lemma_columns_fold_effect(m2, m1, n2, n1, items);
            },
            None => {},
        }
    }
}

/// A line that is not a column list and draws a warning changes no setting.
proof fn lemma_bad_line_keeps_settings(m: ConfigModel, n: nat, raw: Seq<char>, home: Option<Seq<char>>)
    requires
        !columns_line(raw),
        warnings_added(m, n, raw, home) > 0,
    ensures
        settings_of(line_step(m, n, raw, home)) == settings_of(m),
{
}

/// A bad line costs only itself, wherever it stands: with a line that
/// draws one warning and is not a column list between `a` and `b`, the
/// file gives the same settings as without it, and one more warning.
pub proof fn law_a_bad_line_anywhere_costs_only_itself(
    a: Seq<Seq<char>>,
    l: Seq<char>,
    b: Seq<Seq<char>>,
    home: Option<Seq<char>>,
)
    requires
        !columns_line(l),
        parse_lines(seq![l], home).warnings.len() == 1,
    ensures
        settings_of(parse_lines(a + seq![l] + b, home)) == settings_of(parse_lines(a + b, home)),
        parse_lines(a + seq![l] + b, home).warnings.len() == parse_lines(a + b, home).warnings.len() + 1,
    decreases b.len(),
{
    if b.len() == 0 {
        assert(a + seq![l] + b =~= a.push(l));
        assert(a + b =~= a);
        assert(a.push(l).drop_last() =~= a);
        assert(seq![l].drop_last() =~= Seq::<Seq<char>>::empty());
        assert(parse_lines(Seq::<Seq<char>>::empty(), home) == empty_model());
        assert(parse_lines(seq![l], home) == line_step(empty_model(), 1, l, home));
        let y = parse_lines(a, home);
        lemma_line_warning_count(empty_model(), y, 1, a.len() + 1, l, home);
        lemma_bad_line_keeps_settings(y, a.len() + 1, l, home);
    } else {
        let c = b.drop_last();
        let x = b.last();
        law_a_bad_line_anywhere_costs_only_itself(a, l, c, home);
        let long = a + seq![l] + b;
        let short = a + b;
        assert(long.drop_last() =~= a + seq![l] + c);
        assert(short.drop_last() =~= a + c);
        assert(long.last() == x);
        assert(short.last() == x);
        let mx = parse_lines(a + seq![l] + c, home);
        let my = parse_lines(a + c, home);
        lemma_line_warning_count(mx, my, long.len(), short.len(), x, home);
        lemma_line_settings(mx, my, long.len(), short.len(), x, home);
    }
}

} // verus!

verus! {

/// Every built-in name passes the validator that guards it, so the command
/// line and the config file accept everything the settings overlay shows.
pub proof fn law_built_in_names_pass_their_validators(t: ThemeId, g: GraphStyle, v: ViewMode, tab: TabId)
    ensures
        theme_check(crate::ui::theme::theme_name(t)) == Ok::<Seq<char>, Seq<char>>(crate::ui::theme::theme_name(t)),
        graph_check(crate::ui::graph::style_name(g)) == Ok::<Seq<char>, Seq<char>>(crate::ui::graph::style_name(g)),
        view_check(crate::app::view_mode_name(v)) == Ok::<Seq<char>, Seq<char>>(crate::app::view_mode_name(v)),
        tab_check(crate::tabs::tab_canonical_name(tab)) == Ok::<Seq<char>, Seq<char>>(crate::tabs::tab_canonical_name(tab)),
{
    crate::ui::theme::law_theme_names_round_trip(t);
    crate::ui::graph::law_style_cycle_and_names(g);
    crate::app::law_view_name_round_trips(v);
    crate::tabs::law_tab_names_round_trip(tab);
    reveal_strlit("dark");
    reveal_strlit("bars");
    assert(lower("dark"@) =~= "dark"@);
    assert(lower("bars"@) =~= "bars"@);
}

} // verus!

verus! {

/// The commented file `--write-config` writes: every key at its built-in
/// default, so "what can I set?" is answered by a file on disk.
pub const DEFAULT_FILE: &'static str = "# diskwatch config \u{2014} every key is optional, and every value below is\n\
    # the built-in default. A CLI flag overrides anything written here.\n\
    #\n\
    # Format: flat `key = value`, `#` comments, no tables.\n\
    \n\
    # Color theme: dark, light, ocean, solarized, dracula, nord, terminal.\n\
    # \"terminal\" resolves every color through the palette your terminal\n\
    # already defines, so a system-wide theme carries straight over.\n\
    theme = \"terminal\"\n\
    \n\
    # Chart style: bars, dots.\n\
    graph = \"bars\"\n\
    \n\
    # btop's gradient. Needs a theme with real RGB to fade through, so it\n\
    # does nothing under theme = \"terminal\".\n\
    graph_fade = false\n\
    \n\
    # View to open in: full, lite, dense.\n\
    view = \"full\"\n\
    \n\
    # Tab to open on: overview, devices, volumes, fs, io, smart, hot, insights.\n\
    tab = \"overview\"\n\
    \n\
    # SMART poll cadence, in seconds. Floor is 5s \u{2014} below that we issue\n\
    # more than one smartctl subprocess per second per disk.\n\
    smart_interval_secs = 300\n\
    \n\
    # Temperature display unit: celsius or fahrenheit. Drive firmware\n\
    # always reports Celsius; this governs the display layer only.\n\
    temp_unit = \"celsius\"\n\
    \n\
    # Columns shown in the Overview tab's DEVICES table, in table order:\n\
    # size, free, used_pct, temp, smart.\n\
    columns = [\"size\", \"free\", \"used_pct\", \"temp\", \"smart\"]\n\
    \n\
    # Paths the Hot Files tab watches, replacing the defaults ($HOME plus\n\
    # the OS log and tmp directories). A leading ~ expands to $HOME.\n\
    # Each entry is watched recursively, so on Linux a large tree can\n\
    # exhaust fs.inotify.max_user_watches \u{2014} diskwatch says so if it does.\n\
    # watch_paths = [\"~/src\", \"/var/log\"]\n\
    \n\
    # Paths added to whatever the roots already are, rather than\n\
    # replacing them. Use this to keep the defaults and add one more.\n\
    # extra_watch_paths = [\"/srv/data\"]\n";

/// A commented file showing every key at its built-in default.
pub fn default_file_contents() -> (s: String)
    ensures
        s@ == DEFAULT_FILE@,
{
    owned(DEFAULT_FILE)
}

} // verus!

verus! {

/// A line cut at its first `#` outside a double-quoted string; naive
/// splitting on `#` would mangle `watch_paths = ["/tmp/#scratch"]`.
pub fn strip_comment(line: &str) -> (r: String)
    ensures
        r@ == comment_stripped(line@),
{
    let v = to_chars(line);
    let e = comment_cut(&v, 0, v.len());
    proof {
        assert(v@.subrange(0, v@.len() as int) =~= v@);
    }
    string_of(&v, 0, e)
}

/// A single-line array of double-quoted strings: `None` when the
/// brackets are missing or an element is not a quoted string; `[]` is the
/// empty array. A trailing comma leaves an empty last element, which is
/// not a quoted string.
pub fn parse_array(raw: &str) -> (r: Option<Vec<String>>)
    ensures
        match r {
            Some(items) => array_value(raw@) == Some(strings_view(items@)),
            None => array_value(raw@) is None,
        },
{
    let v = to_chars(raw);
    proof {
        assert(v@.subrange(0, v@.len() as int) =~= v@);
    }
    read_array(&v, 0, v.len())
}

} // verus!
