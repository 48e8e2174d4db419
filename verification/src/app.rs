//! The view vocabulary the front end switches between, the display units,
//! and the SMART polling cadence the user can dial at runtime.

use vstd::prelude::*;
use crate::tabs::{tab_index, tab_order, TabId};
use crate::text::{chars_are, decimal, format_u64, lower, lower_range, push_char, to_chars};
use crate::ui::dense::{dense_clamped, DenseModel, DenseState};
use crate::ui::graph::{style_after, GraphSettings};
use crate::ui::lite::{lite_clamped, LiteModel, LiteState};
use crate::ui::rect::Rect;
use crate::ui::theme::{theme_after, ThemeId};

verus! {

/// Default SMART poll interval. Polling more often shortens the life of
/// some drives, so the default is conservative; the user can lower it.
pub const DEFAULT_SMART_INTERVAL_SECS: u64 = 300;

/// Lower bound for SMART polls: below it the tool would issue more than
/// one `smartctl` per second per disk.
pub const MIN_SMART_INTERVAL_SECS: u64 = 5;

/// Step size for the `+` / `-` interval nudges, in seconds.
pub const INTERVAL_STEP_SECS: u64 = 60;

/// How a run starts: the tab named on the command line, if any, and the
/// view. The full eight-tab view is the default at every terminal size.
#[derive(Debug, Clone)]
pub struct Options {
    pub start_tab: Option<String>,
    pub view: ViewMode,
}

/// Which view is on screen.
#[derive(Debug, Clone, Copy, PartialEq, Eq, Structural)]
pub enum ViewMode {
    Full,
    Lite,
    /// Six boxes, no chrome rows.
    Dense,
}

/// The view a configuration or command-line spelling names, compared
/// without regard to ASCII case. `v2`, `btop` and `2.0` are older names of
/// the dense view.
pub open spec fn view_mode_named(s: Seq<char>) -> Option<ViewMode> {
    let l = lower(s);
    if l == "full"@ {
        Some(ViewMode::Full)
    } else if l == "lite"@ {
        Some(ViewMode::Lite)
    } else if l == "dense"@ || l == "v2"@ || l == "btop"@ || l == "2.0"@ {
        Some(ViewMode::Dense)
    } else {
        None
    }
}

/// The canonical spelling of a view.
pub open spec fn view_mode_name(m: ViewMode) -> Seq<char> {
    match m {
        ViewMode::Full => "full"@,
        ViewMode::Lite => "lite"@,
        ViewMode::Dense => "dense"@,
    }
}

/// The view after `m` in the cycle full → lite → dense → full.
pub open spec fn view_mode_after(m: ViewMode) -> ViewMode {
    match m {
        ViewMode::Full => ViewMode::Lite,
        ViewMode::Lite => ViewMode::Dense,
        ViewMode::Dense => ViewMode::Full,
    }
}

/// Config / CLI spellings, in cycle order.
pub fn view_mode_names() -> (v: Vec<&'static str>)
    ensures
        v@.len() == 3,
        v@[0]@ == "full"@,
        v@[1]@ == "lite"@,
        v@[2]@ == "dense"@,
{
    vec!["full", "lite", "dense"]
}

impl ViewMode {
    /// Resolve a config / CLI spelling; `None` for anything unknown, so a
    /// typo is reported instead of silently selecting the default view.
    pub fn from_name(name: &str) -> (r: Option<ViewMode>)
        ensures
            r == view_mode_named(name@),
    {
        let v = to_chars(name);
        let l = lower_range(&v, 0, v.len());
        proof {
            assert(v@.subrange(0, v@.len() as int) =~= v@);
        }
        if chars_are(&l, "full") {
            Some(ViewMode::Full)
        } else if chars_are(&l, "lite") {
            Some(ViewMode::Lite)
        } else if chars_are(&l, "dense") || chars_are(&l, "v2") || chars_are(&l, "btop") || chars_are(&l, "2.0") {
            Some(ViewMode::Dense)
        } else {
            None
        }
    }

    pub fn name(self) -> (s: &'static str)
        ensures
            s@ == view_mode_name(self),
    {
        match self {
            ViewMode::Full => "full",
            ViewMode::Lite => "lite",
            ViewMode::Dense => "dense",
        }
    }

    pub fn next(self) -> (m: ViewMode)
        ensures
            m == view_mode_after(self),
    {
        match self {
            ViewMode::Full => ViewMode::Lite,
            ViewMode::Lite => ViewMode::Dense,
            ViewMode::Dense => ViewMode::Full,
        }
    }
}

/// Cycling three times returns to the view it started from, and every
/// view is met on the way.
pub proof fn law_view_cycle_returns_home(m: ViewMode)
    ensures
        view_mode_after(view_mode_after(view_mode_after(m))) == m,
        view_mode_after(m) != m,
        view_mode_after(view_mode_after(m)) != m,
        view_mode_after(view_mode_after(m)) != view_mode_after(m),
{
}

/// Every view's canonical name resolves back to that view.
pub proof fn law_view_name_round_trips(m: ViewMode)
    ensures
        view_mode_named(view_mode_name(m)) == Some(m),
{
    reveal_strlit("full");
    reveal_strlit("lite");
    reveal_strlit("dense");
    reveal_strlit("v2");
    reveal_strlit("btop");
    reveal_strlit("2.0");
    let n = view_mode_name(m);
    assert(lower(n) =~= n);
    assert("lite"@[0] != "full"@[0]);
    assert("dense"@.len() != "full"@.len() && "dense"@.len() != "lite"@.len());
}

} // verus!

verus! {

/// Bit flags for the columns shown in the Overview tab's device list.
#[derive(Debug, Clone, Copy, PartialEq, Eq, Structural)]
pub struct VisibleColumns(pub u8);

impl VisibleColumns {
    pub const SIZE: u8 = 1;
    pub const FREE: u8 = 2;
    pub const USED_PCT: u8 = 4;
    pub const TEMP: u8 = 8;
    pub const SMART: u8 = 16;
    /// All columns visible — the default.
    pub const ALL: u8 = 31;

    /// True when any of the bits in `other` is shown.
    pub fn contains(self, other: u8) -> (b: bool)
        ensures
            b == (self.0 & other != 0),
    {
        self.0 & other != 0
    }

    /// Flip the bits in `col`.
    pub fn toggle(&mut self, col: u8)
        ensures
            final(self).0 == old(self).0 ^ col,
    {
        self.0 = self.0 ^ col;
    }
}

/// Toggling a column twice leaves the set as it was; a toggle inverts the
/// toggled bits and leaves every other bit alone.
pub proof fn law_toggle_is_an_involution(bits: u8, col: u8)
    ensures
        (bits ^ col) ^ col == bits,
        ((bits ^ col) & col) == (!bits & col),
        ((bits ^ col) & !col) == (bits & !col),
{
    assert((bits ^ col) ^ col == bits) by (bit_vector);
    assert(((bits ^ col) & col) == (!bits & col)) by (bit_vector);
    assert(((bits ^ col) & !col) == (bits & !col)) by (bit_vector);
}

/// Display unit for SMART temperatures. Drives always report Celsius.
#[derive(Debug, Clone, Copy, PartialEq, Eq, Structural)]
pub enum TempUnit {
    Celsius,
    Fahrenheit,
}

/// The other unit.
pub open spec fn temp_unit_after(u: TempUnit) -> TempUnit {
    match u {
        TempUnit::Celsius => TempUnit::Fahrenheit,
        TempUnit::Fahrenheit => TempUnit::Celsius,
    }
}

/// The label the settings overlay shows for a unit.
pub open spec fn temp_unit_label(u: TempUnit) -> Seq<char> {
    match u {
        TempUnit::Celsius => "Celsius (°C)"@,
        TempUnit::Fahrenheit => "Fahrenheit (°F)"@,
    }
}

/// `c` °C in °F, rounded to the nearest degree (`9c/5 + 32` never falls
/// exactly half-way between two integers).
pub open spec fn fahrenheit_rounded(c: int) -> int {
    (2 * (9 * c + 160) + 5) / 10
}

/// The text a temperature of `c` °C is displayed as. A Fahrenheit value
/// that rounds to zero from below keeps its minus sign, as `{:.0}`
/// formatting of a negative number does.
pub open spec fn temp_text(u: TempUnit, c: int) -> Seq<char> {
    match u {
        TempUnit::Celsius => signed_decimal(c) + "°C"@,
        TempUnit::Fahrenheit => {
            let f = fahrenheit_rounded(c);
            if f == 0 && 9 * c + 160 < 0 {
                "-0°F"@
            } else {
                signed_decimal(f) + "°F"@
            }
        },
    }
}

/// A temperature reads as whole degrees of its unit: in Celsius the
/// reading itself; in Fahrenheit the integer nearest `9c/5 + 32` — the
/// `f` with `5f` within 2 of `9c + 160` — with a minus sign kept where a
/// value below zero rounds to zero.
pub proof fn law_temperatures_read_in_their_unit(c: int, f: int)
    ensures
        temp_text(TempUnit::Celsius, c) == signed_decimal(c) + "°C"@,
        -2 <= 5 * f - (9 * c + 160) <= 2 && !(f == 0 && 9 * c + 160 < 0)
            ==> temp_text(TempUnit::Fahrenheit, c) == signed_decimal(f) + "°F"@,
        -2 <= 5 * f - (9 * c + 160) <= 2 && f == 0 && 9 * c + 160 < 0
            ==> temp_text(TempUnit::Fahrenheit, c) == "-0°F"@,
{
    if -2 <= 5 * f - (9 * c + 160) <= 2 {
        let x = 9 * c + 160;
        assert(10 * f + 1 <= 2 * x + 5 <= 10 * f + 9);
        assert((2 * x + 5) / 10 == f) by (nonlinear_arith)
            requires 10 * f + 1 <= 2 * x + 5 <= 10 * f + 9;
    }
}

/// Decimal text of a signed integer.
pub open spec fn signed_decimal(n: int) -> Seq<char> {
    if n < 0 {
        seq!['-'] + decimal((-n) as nat)
    } else {
        decimal(n as nat)
    }
}

fn signed_text(n: i32) -> (s: String)
    requires
        n > i32::MIN,
    ensures
        s@ == signed_decimal(n as int),
{
    if n < 0 {
        let mut s = String::new();
        push_char(&mut s, '-');
        let d = format_u64((-n) as u64);
        s.append(d.as_str());
        s
    } else {
        format_u64(n as u64)
    }
}

impl TempUnit {
    pub fn next(self) -> (u: TempUnit)
        ensures
            u == temp_unit_after(self),
    {
        match self {
            TempUnit::Celsius => TempUnit::Fahrenheit,
            TempUnit::Fahrenheit => TempUnit::Celsius,
        }
    }

    pub fn label(self) -> (s: &'static str)
        ensures
            s@ == temp_unit_label(self),
    {
        match self {
            TempUnit::Celsius => "Celsius (°C)",
            TempUnit::Fahrenheit => "Fahrenheit (°F)",
        }
    }

    /// A Celsius reading in this unit, with its unit suffix.
    pub fn format_temp(self, c: i16) -> (s: String)
        ensures
            s@ == temp_text(self, c as int),
    {
        match self {
            TempUnit::Celsius => {
                let t = signed_text(c as i32);
                t.concat("°C")
            },
            TempUnit::Fahrenheit => {
                let x: i32 = 9 * (c as i32) + 160;
                let num: i32 = 2 * x + 5;
                // Floor division, which `/` on a negative numerator is not.
                let f: i32 = if num >= 0 { num / 10 } else { -((-num + 9) / 10) };
                proof {
                    assert(f == fahrenheit_rounded(c as int)) by (nonlinear_arith)
                        requires
                            num == 2 * (9 * (c as int) + 160) + 5,
                            num >= 0 ==> f == num / 10,
                            num < 0 ==> f == -((-num + 9) / 10),
                    ;
                }
                if f == 0 && x < 0 {
                    String::from_str("-0°F")
                } else {
                    let t = signed_text(f);
                    t.concat("°F")
                }
            },
        }
    }
}

/// Whether samples are being taken.
#[derive(Debug, Clone, Copy, PartialEq, Eq, Structural)]
pub enum LiveState {
    Live,
    Paused,
}

/// What the header shows about the machine.
#[derive(Debug, Clone)]
pub struct HostInfo {
    pub hostname: String,
    pub os: String,
    pub uptime_secs: u64,
    pub device_count: usize,
}

/// The footer's compact rendering of a SMART interval: seconds under a
/// minute, whole minutes under an hour, whole hours beyond.
pub open spec fn smart_label(secs: nat) -> Seq<char> {
    if secs < 60 {
        decimal(secs) + "s"@
    } else if secs < 3600 {
        decimal(secs / 60) + "m"@
    } else {
        decimal(secs / 3600) + "h"@
    }
}

pub fn format_smart_label(secs: u64) -> (s: String)
    ensures
        s@ == smart_label(secs as nat),
{
    if secs < 60 {
        format_u64(secs).concat("s")
    } else if secs < 3600 {
        format_u64(secs / 60).concat("m")
    } else {
        format_u64(secs / 3600).concat("h")
    }
}

/// Footer hint for the `+` / `-` keys: the step size, in seconds.
pub fn step_label() -> (s: String)
    ensures
        s@ == "±"@ + decimal(INTERVAL_STEP_SECS as nat) + "s"@,
{
    String::from_str("±").concat(format_u64(INTERVAL_STEP_SECS).as_str()).concat("s")
}

/// Settings popup width and the columns its label takes.
pub const SETTINGS_POPUP_W: u16 = 60;
pub const SETTINGS_LABEL_W: u16 = 38;
/// Columns the cursor marker occupies.
pub const SETTINGS_MARKER_W: u16 = 3;

/// Columns a settings row's value may occupy: the popup less its two
/// borders, the marker and the label.
pub fn settings_value_w() -> (w: u16)
    ensures
        w == SETTINGS_POPUP_W - 2 - SETTINGS_MARKER_W - SETTINGS_LABEL_W,
{
    SETTINGS_POPUP_W - 2 - SETTINGS_MARKER_W - SETTINGS_LABEL_W
}

} // verus!

verus! {

// ── the keyboard ─────────────────────────────────────────────────────────

/// A key press, as the terminal reports it.
#[derive(Debug, Clone, Copy, PartialEq, Eq, Structural)]
pub enum Key {
    Char(char),
    Esc,
    Enter,
    Backspace,
    Up,
    Down,
    Left,
    Right,
    Home,
    End,
    PageUp,
    PageDown,
    Tab,
    BackTab,
    Other,
}

/// What the views show and the user has set: the state every key press
/// acts on.
#[derive(Debug, Clone)]
pub struct UiState {
    pub active_tab: TabId,
    pub view: ViewMode,
    /// Lite's selection, filter and detail state; it survives a round
    /// trip to another view and back.
    pub lite: LiteState,
    /// The dense view's selection, filter and sort; it survives too.
    pub dense: DenseState,
    pub live: LiveState,
    pub show_help: bool,
    pub show_settings: bool,
    pub settings_cursor: usize,
    pub visible_columns: VisibleColumns,
    pub temp_unit: TempUnit,
    pub smart_interval_secs: u64,
    /// The footer's rendering of the interval.
    pub smart_interval_label: String,
    /// Set by `r`: refresh SMART on the next tick whatever the interval.
    pub smart_refresh_requested: bool,
    pub should_quit: bool,
    pub selected_device: usize,
    pub selected_fs: usize,
    pub theme: ThemeId,
    pub graph: GraphSettings,
}

pub ghost struct UiModel {
    pub active_tab: TabId,
    pub view: ViewMode,
    pub lite: LiteModel,
    pub dense: DenseModel,
    pub live: LiveState,
    pub show_help: bool,
    pub show_settings: bool,
    pub settings_cursor: nat,
    pub visible_columns: u8,
    pub temp_unit: TempUnit,
    pub smart_interval_secs: u64,
    pub smart_interval_label: Seq<char>,
    pub smart_refresh_requested: bool,
    pub should_quit: bool,
    pub selected_device: nat,
    pub selected_fs: nat,
    pub theme: ThemeId,
    pub graph: GraphSettings,
}

impl View for UiState {
    type V = UiModel;

    open spec fn view(&self) -> UiModel {
        UiModel {
            active_tab: self.active_tab,
            view: self.view,
            lite: self.lite@,
            dense: self.dense@,
            live: self.live,
            show_help: self.show_help,
            show_settings: self.show_settings,
            settings_cursor: self.settings_cursor as nat,
            visible_columns: self.visible_columns.0,
            temp_unit: self.temp_unit,
            smart_interval_secs: self.smart_interval_secs,
            smart_interval_label: self.smart_interval_label@,
            smart_refresh_requested: self.smart_refresh_requested,
            should_quit: self.should_quit,
            selected_device: self.selected_device as nat,
            selected_fs: self.selected_fs as nat,
            theme: self.theme,
            graph: self.graph,
        }
    }
}

/// What a key press reads besides the state: how many items each list
/// holds right now, and the last area drawn.
#[derive(Debug, Clone, Copy)]
pub struct KeyContext {
    pub device_count: usize,
    pub fs_count: usize,
    /// Rows of Lite's file table that match its filter.
    pub lite_matches: usize,
    /// Rows of the dense view's file box that match its filter.
    pub dense_matches: usize,
    pub last_area: Rect,
}

/// Rows in the settings overlay.
pub const SETTINGS_ROWS: usize = 11;

/// Rows below this index toggle a column; rows from it on cycle a setting.
pub const SETTINGS_FIRST_CYCLE: usize = 5;

pub open spec fn toggled_live(l: LiveState) -> LiveState {
    match l {
        LiveState::Live => LiveState::Paused,
        LiveState::Paused => LiveState::Live,
    }
}

/// `V`: the next view; leaving Lite closes its detail block and leaving
/// the dense view ends its filter input.
pub open spec fn cycled_view(m: UiModel) -> UiModel {
    let v = view_mode_after(m.view);
    UiModel {
        view: v,
        lite: if v != ViewMode::Lite { LiteModel { detail_open: false, ..m.lite } } else { m.lite },
        dense: if v != ViewMode::Dense { DenseModel { filter_input: false, ..m.dense } } else { m.dense },
        ..m
    }
}

/// The interval set to `secs`, with its footer label.
pub open spec fn with_interval(m: UiModel, secs: u64) -> UiModel {
    UiModel { smart_interval_secs: secs, smart_interval_label: smart_label(secs as nat), ..m }
}

/// The SMART interval preset after `cur`: the first of 10 s, 30 s, 1 min
/// and 5 min above it, wrapping to the first.
pub open spec fn preset_after(cur: u64) -> u64 {
    if cur < 10 { 10 } else if cur < 30 { 30 } else if cur < 60 { 60 } else if cur < 300 { 300 } else { 10 }
}

/// The settings overlay's keys: close it, move its cursor (wrapping), or
/// act on the row under the cursor.
pub open spec fn settings_step(m: UiModel, key: Key) -> UiModel {
    match key {
        Key::Esc | Key::Char(',') | Key::Char('q') => UiModel { show_settings: false, ..m },
        Key::Up | Key::Char('k') => UiModel {
            settings_cursor: if m.settings_cursor == 0 { (SETTINGS_ROWS - 1) as nat } else { (m.settings_cursor - 1) as nat },
            ..m
        },
        Key::Down | Key::Char('j') => UiModel { settings_cursor: ((m.settings_cursor + 1) % (SETTINGS_ROWS as nat)) as nat, ..m },
        Key::Char(' ') | Key::Enter => settings_activate(m),
        _ => m,
    }
}

/// The column each of the first five settings rows toggles.
pub open spec fn settings_column(c: nat) -> u8 {
    if c == 0 {
        VisibleColumns::SIZE
    } else if c == 1 {
        VisibleColumns::FREE
    } else if c == 2 {
        VisibleColumns::USED_PCT
    } else if c == 3 {
        VisibleColumns::TEMP
    } else {
        VisibleColumns::SMART
    }
}

/// Space or Enter on a settings row: rows below the first cycle row
/// toggle a column; the rest cycle the temperature unit, the SMART
/// interval preset (asking for a refresh), the theme, the view, the graph
/// style and the gradient.
pub open spec fn settings_activate(m: UiModel) -> UiModel {
    let c = m.settings_cursor;
    if c < SETTINGS_FIRST_CYCLE {
        UiModel { visible_columns: m.visible_columns ^ settings_column(c), ..m }
    } else if c == 5 {
        UiModel { temp_unit: temp_unit_after(m.temp_unit), ..m }
    } else if c == 6 {
        UiModel { smart_refresh_requested: true, ..with_interval(m, preset_after(m.smart_interval_secs)) }
    } else if c == 7 {
        UiModel { theme: theme_after(m.theme), ..m }
    } else if c == 8 {
        cycled_view(m)
    } else if c == 9 {
        UiModel { graph: GraphSettings { style: style_after(m.graph.style), ..m.graph }, ..m }
    } else if c == 10 {
        UiModel { graph: GraphSettings { fade: !m.graph.fade, ..m.graph }, ..m }
    } else {
        m
    }
}

/// With the help overlay up, any key dismisses it; `Q` quits.
pub open spec fn help_step(m: UiModel, key: Key) -> UiModel {
    match key {
        Key::Char('Q') => UiModel { should_quit: true, ..m },
        _ => UiModel { show_help: false, ..m },
    }
}

} // verus!

verus! {

/// A filter being typed: Esc abandons it, Enter commits it, Backspace
/// and printable keys edit it; every edit puts the selection back at the
/// top. Returns `(filter_input, filter_text, reset)`.
pub open spec fn filter_edit(text: Seq<char>, key: Key) -> (bool, Seq<char>, bool) {
    match key {
        Key::Esc => (false, Seq::empty(), true),
        Key::Enter => (false, text, false),
        Key::Backspace => (true, if text.len() > 0 { text.drop_last() } else { text }, true),
        Key::Char(c) => (true, text.push(c), true),
        _ => (true, text, false),
    }
}

/// Lite's rows on screen for the last drawn area.
pub open spec fn lite_visible(area: Rect, detail_open: bool) -> nat {
    let f = crate::ui::lite::lite_layout(area).file_rows;
    if detail_open {
        crate::ui::lite::sat_sub(f as int, crate::ui::lite::DETAIL_ROWS as int) as nat
    } else {
        f as nat
    }
}

/// Keys that move Lite's selection.
pub open spec fn is_move_key(key: Key) -> bool {
    key == Key::Down || key == Key::Char('j') || key == Key::Up || key == Key::Char('k')
        || key == Key::Home || key == Key::End
}

/// A selection of `sel` moved by a movement key over `count` rows.
pub open spec fn moved_selection(sel: nat, key: Key, count: nat) -> nat {
    if key == Key::Down || key == Key::Char('j') {
        if count > 0 {
            if sel + 1 > count - 1 { (count - 1) as nat } else { sel + 1 }
        } else {
            sel
        }
    } else if key == Key::Up || key == Key::Char('k') {
        if sel > 0 { (sel - 1) as nat } else { 0 }
    } else if key == Key::Home {
        0
    } else {
        if count > 0 { (count - 1) as nat } else { 0 }
    }
}

/// Lite's commands: the keys that are not movement.
pub open spec fn lite_commands(m: UiModel, key: Key) -> UiModel {
    let l = m.lite;
    match key {
        Key::Char('q') => UiModel { should_quit: true, ..m },
        Key::Char('L') => UiModel {
            view: ViewMode::Full,
            lite: LiteModel { detail_open: false, filter_input: false, ..l },
            ..m
        },
        Key::Char('v') | Key::Char('V') => cycled_view(UiModel { lite: LiteModel { filter_input: false, ..l }, ..m }),
        Key::Char('?') => UiModel { show_help: true, ..m },
        Key::Char('p') => UiModel { live: toggled_live(m.live), ..m },
        Key::Char('/') => UiModel { lite: LiteModel { filter_input: true, filter_text: Seq::empty(), ..l }, ..m },
        Key::Enter => UiModel { lite: LiteModel { detail_open: !l.detail_open, ..l }, ..m },
        Key::Esc => if l.detail_open {
            UiModel { lite: LiteModel { detail_open: false, ..l }, ..m }
        } else if l.filter_text.len() > 0 {
            UiModel { lite: LiteModel { filter_text: Seq::empty(), selected: 0, offset: 0, ..l }, ..m }
        } else {
            UiModel { should_quit: true, ..m }
        },
        _ => m,
    }
}

/// Lite's complete key surface, before the window is clamped. Esc unwinds
/// one layer at a time: the detail block, then the filter, and only then
/// does it quit.
pub open spec fn lite_keys(m: UiModel, key: Key, count: nat) -> UiModel {
    if is_move_key(key) {
        UiModel { lite: LiteModel { selected: moved_selection(m.lite.selected, key, count), ..m.lite }, ..m }
    } else {
        lite_commands(m, key)
    }
}

/// Lite's keys: a filter being typed swallows printable keys; otherwise
/// the key acts and the selection is kept on screen.
pub open spec fn lite_step(m: UiModel, key: Key, ctx: KeyContext) -> UiModel {
    let l = m.lite;
    if l.filter_input {
        let (input, text, reset) = filter_edit(l.filter_text, key);
        UiModel {
            lite: LiteModel {
                filter_input: input,
                filter_text: text,
                selected: if reset { 0 } else { l.selected },
                offset: if reset { 0 } else { l.offset },
                ..l
            },
            ..m
        }
    } else {
        let count = ctx.lite_matches as nat;
        let visible = lite_visible(ctx.last_area, l.detail_open);
        let m2 = lite_keys(m, key, count);
        UiModel { lite: lite_clamped(m2.lite, count, visible), ..m2 }
    }
}

/// The dense view's commands: the keys that are not movement.
pub open spec fn dense_commands(m: UiModel, key: Key) -> UiModel {
    let d = m.dense;
    match key {
        Key::Char('q') => UiModel { should_quit: true, ..m },
        Key::Char('v') | Key::Char('V') => cycled_view(UiModel { dense: DenseModel { filter_input: false, ..d }, ..m }),
        Key::Char('L') => UiModel { view: ViewMode::Lite, dense: DenseModel { filter_input: false, ..d }, ..m },
        Key::Char(',') => UiModel { show_settings: true, settings_cursor: 0, ..m },
        Key::Char('?') => UiModel { show_help: true, ..m },
        Key::Char('p') => UiModel { live: toggled_live(m.live), ..m },
        Key::Char('/') => UiModel { dense: DenseModel { filter_input: true, filter_text: Seq::empty(), ..d }, ..m },
        Key::Char('s') => UiModel { dense: DenseModel { sort: crate::ui::dense::sort_after(d.sort), ..d }, ..m },
        Key::Esc => if d.filter_text.len() > 0 {
            UiModel { dense: DenseModel { filter_text: Seq::empty(), selected: 0, offset: 0, ..d }, ..m }
        } else {
            UiModel { should_quit: true, ..m }
        },
        _ => m,
    }
}

/// The dense view's key surface, before the window is clamped.
pub open spec fn dense_keys(m: UiModel, key: Key, count: nat) -> UiModel {
    if is_move_key(key) {
        UiModel { dense: DenseModel { selected: moved_selection(m.dense.selected, key, count), ..m.dense }, ..m }
    } else {
        dense_commands(m, key)
    }
}

/// The dense view's keys: its filter swallows printable keys too.
pub open spec fn dense_step(m: UiModel, key: Key, ctx: KeyContext) -> UiModel {
    let d = m.dense;
    if d.filter_input {
        let (input, text, reset) = filter_edit(d.filter_text, key);
        UiModel {
            dense: DenseModel {
                filter_input: input,
                filter_text: text,
                selected: if reset { 0 } else { d.selected },
                offset: if reset { 0 } else { d.offset },
                ..d
            },
            ..m
        }
    } else {
        let count = ctx.dense_matches as nat;
        let visible = crate::ui::dense::visible_files_for(ctx.last_area) as nat;
        let m2 = dense_keys(m, key, count);
        UiModel { dense: dense_clamped(m2.dense, count, visible), ..m2 }
    }
}

/// Tabs that list items the arrows move through; on the others, left and
/// right cycle tabs so no arrow key is ever dead.
pub open spec fn picker_tab(t: TabId) -> bool {
    t == TabId::Overview || t == TabId::Devices || t == TabId::Smart || t == TabId::Fs
}

/// The tab `delta` steps from the active one, wrapping.
pub open spec fn tab_stepped(t: TabId, delta: int) -> TabId {
    tab_order()[(tab_index(t) + delta) % 8]
}

/// The picker's new index: the first with `mode` -1, the last with 1,
/// else `dy` steps from `cur`, wrapping.
pub open spec fn selection_after(cur: nat, len: nat, dy: int, mode: int) -> nat {
    if mode == -1 {
        0
    } else if mode == 1 {
        (len - 1) as nat
    } else {
        ((cur + dy) % (len as int)) as nat
    }
}

/// Move the picker of the active tab: the filesystem list on the FS tab,
/// the device list elsewhere.
pub open spec fn moved(m: UiModel, dy: int, mode: int, ctx: KeyContext) -> UiModel {
    if m.active_tab == TabId::Fs {
        if ctx.fs_count == 0 {
            m
        } else {
            UiModel { selected_fs: selection_after(m.selected_fs, ctx.fs_count as nat, dy, mode), ..m }
        }
    } else {
        if ctx.device_count == 0 {
            m
        } else {
            UiModel { selected_device: selection_after(m.selected_device, ctx.device_count as nat, dy, mode), ..m }
        }
    }
}

/// Keys that navigate the full view: tabs and pickers.
pub open spec fn is_nav_key(key: Key) -> bool {
    match key {
        Key::BackTab | Key::Tab | Key::Up | Key::Down | Key::Left | Key::Right | Key::Home | Key::End
        | Key::PageUp | Key::PageDown => true,
        Key::Char(c) => c == 'k' || c == 'j' || c == 'h' || c == 'l' || ('1' <= c && c <= '9'),
        _ => false,
    }
}

/// The full view's commands.
pub open spec fn full_commands(m: UiModel, key: Key) -> UiModel {
    match key {
        Key::Char('q') | Key::Esc => UiModel { should_quit: true, ..m },
        Key::Char('p') => UiModel { live: toggled_live(m.live), ..m },
        Key::Char('?') => UiModel { show_help: true, ..m },
        Key::Char(',') => UiModel { show_settings: !m.show_settings, settings_cursor: 0, ..m },
        Key::Char('L') => UiModel { view: ViewMode::Lite, ..m },
        Key::Char('v') | Key::Char('V') => cycled_view(m),
        Key::Char('r') | Key::Char('R') => UiModel { smart_refresh_requested: true, ..m },
        Key::Char('+') | Key::Char('=') => with_interval(m,
            if m.smart_interval_secs + INTERVAL_STEP_SECS > u64::MAX { u64::MAX } else { (m.smart_interval_secs + INTERVAL_STEP_SECS) as u64 }),
        Key::Char('-') | Key::Char('_') => with_interval(m,
            if m.smart_interval_secs >= INTERVAL_STEP_SECS + MIN_SMART_INTERVAL_SECS { (m.smart_interval_secs - INTERVAL_STEP_SECS) as u64 } else { MIN_SMART_INTERVAL_SECS }),
        Key::Char('0') => UiModel { smart_refresh_requested: true, ..with_interval(m, DEFAULT_SMART_INTERVAL_SECS) },
        _ => m,
    }
}

/// The full view's navigation: Tab and BackTab cycle tabs; the arrows and
/// `hjkl` move the picker, left and right cycling tabs where there is no
/// picker; Home, End and the page keys jump; a digit picks a tab.
pub open spec fn full_navigation(m: UiModel, key: Key, ctx: KeyContext) -> UiModel {
    match key {
        Key::BackTab => UiModel { active_tab: tab_stepped(m.active_tab, -1), ..m },
        Key::Tab => UiModel { active_tab: tab_stepped(m.active_tab, 1), ..m },
        Key::Up | Key::Char('k') => moved(m, -1, 0, ctx),
        Key::Down | Key::Char('j') => moved(m, 1, 0, ctx),
        Key::Left | Key::Char('h') => if picker_tab(m.active_tab) {
            moved(m, -1, 0, ctx)
        } else {
            UiModel { active_tab: tab_stepped(m.active_tab, -1), ..m }
        },
        Key::Right | Key::Char('l') => if picker_tab(m.active_tab) {
            moved(m, 1, 0, ctx)
        } else {
            UiModel { active_tab: tab_stepped(m.active_tab, 1), ..m }
        },
        Key::Home => moved(m, 0, -1, ctx),
        Key::End => moved(m, 0, 1, ctx),
        Key::PageUp => moved(m, -5, 0, ctx),
        Key::PageDown => moved(m, 5, 0, ctx),
        Key::Char(c) => if '1' <= c && c <= '8' {
            UiModel { active_tab: tab_order()[c as int - '1' as int], ..m }
        } else {
            m
        },
        _ => m,
    }
}

/// The full view's keys.
pub open spec fn full_step(m: UiModel, key: Key, ctx: KeyContext) -> UiModel {
    if is_nav_key(key) {
        full_navigation(m, key, ctx)
    } else {
        full_commands(m, key)
    }
}

/// What one key press does. The settings overlay claims the keyboard
/// first, then Lite and the dense view own theirs; the help overlay, when
/// up, only dismisses; otherwise the full view's keys apply.
pub open spec fn key_step(m: UiModel, key: Key, ctx: KeyContext) -> UiModel {
    if m.show_settings && !m.show_help {
        settings_step(m, key)
    } else if m.view == ViewMode::Lite && !m.show_help {
        lite_step(m, key, ctx)
    } else if m.view == ViewMode::Dense && !m.show_help {
        dense_step(m, key, ctx)
    } else if m.show_help {
        help_step(m, key)
    } else {
        full_step(m, key, ctx)
    }
}

} // verus!

verus! {

/// `String::pop`, its character dropped: removes the last character, if
/// there is one.
#[verifier::external_body]
fn pop_char(s: &mut String)
    ensures
        final(s)@ == if old(s)@.len() > 0 { old(s)@.drop_last() } else { old(s)@ },
{
    s.pop();
}

/// The new index for a picker of `len` items.
fn step_selection(cur: usize, len: usize, dy: i32, mode: i32) -> (r: usize)
    requires
        len > 0,
        len < 0x8000_0000,
        cur < 0x8000_0000,
        -5 <= dy <= 5,
    ensures
        r == selection_after(cur as nat, len as nat, dy as int, mode as int),
{
    if mode == -1 {
        0
    } else if mode == 1 {
        len - 1
    } else if dy >= 0 {
        ((cur as u64 + dy as u64) % len as u64) as usize
    } else {
        let k = (-dy) as u64;
        let c = cur as u64;
        let n = len as u64;
        proof {
            vstd::arithmetic::div_mod::lemma_mod_multiples_vanish(5, c as int - k as int, n as int);
            assert((n as int) * 5 + (c as int - k as int) == c + 5 * n - k) by (nonlinear_arith);
        }
        ((c + 5 * n - k) % n) as usize
    }
}

impl UiState {
    fn cycle_view(&mut self)
        ensures
            final(self)@ == cycled_view(old(self)@),
    {
        self.view = self.view.next();
        if self.view != ViewMode::Lite {
            self.lite.detail_open = false;
        }
        if self.view != ViewMode::Dense {
            self.dense.filter_input = false;
        }
    }

    fn set_interval(&mut self, secs: u64)
        ensures
            final(self)@ == with_interval(old(self)@, secs),
    {
        self.smart_interval_secs = secs;
        self.smart_interval_label = format_smart_label(secs);
    }

    #[verifier::spinoff_prover]
    #[verifier::rlimit(50)]
    fn settings_key(&mut self, key: Key)
        requires
            old(self).settings_cursor < SETTINGS_ROWS,
        ensures
            final(self)@ == settings_step(old(self)@, key),
    {
        match key {
            Key::Esc | Key::Char(',') | Key::Char('q') => {
                self.show_settings = false;
            },
            Key::Up | Key::Char('k') => {
                if self.settings_cursor == 0 {
                    self.settings_cursor = SETTINGS_ROWS - 1;
                } else {
                    self.settings_cursor = self.settings_cursor - 1;
                }
            },
            Key::Down | Key::Char('j') => {
                self.settings_cursor = (self.settings_cursor + 1) % SETTINGS_ROWS;
            },
            Key::Char(' ') | Key::Enter => {
                self.settings_press();
            },
            _ => {},
        }
    }

    /// Space or Enter on the settings row under the cursor.
    fn settings_press(&mut self)
        ensures
            final(self)@ == settings_activate(old(self)@),
    {
        let c = self.settings_cursor;
        if c < SETTINGS_FIRST_CYCLE {
            let col: u8 = if c == 0 {
                VisibleColumns::SIZE
            } else if c == 1 {
                VisibleColumns::FREE
            } else if c == 2 {
                VisibleColumns::USED_PCT
            } else if c == 3 {
                VisibleColumns::TEMP
            } else {
                VisibleColumns::SMART
            };
            self.visible_columns.toggle(col);
        } else if c == 5 {
            self.temp_unit = self.temp_unit.next();
        } else if c == 6 {
            let cur = self.smart_interval_secs;
            let next: u64 = if cur < 10 { 10 } else if cur < 30 { 30 } else if cur < 60 { 60 } else if cur < 300 { 300 } else { 10 };
            self.set_interval(next);
            self.smart_refresh_requested = true;
        } else if c == 7 {
            crate::ui::theme::cycle(&mut self.theme);
        } else if c == 8 {
            self.cycle_view();
        } else if c == 9 {
            crate::ui::graph::cycle(&mut self.graph);
        } else if c == 10 {
            crate::ui::graph::toggle_fade(&mut self.graph);
        }
    }

    fn help_key(&mut self, key: Key)
        ensures
            final(self)@ == help_step(old(self)@, key),
    {
        match key {
            Key::Char('Q') => {
                self.should_quit = true;
            },
            _ => {
                self.show_help = false;
            },
        }
    }
}

/// A filter being typed: apply one key to it.
fn edit_filter(input: &mut bool, text: &mut String, key: Key) -> (reset: bool)
    ensures
        (*final(input), final(text)@, reset) == filter_edit(old(text)@, key),
{
    match key {
        Key::Esc => {
            *input = false;
            *text = String::new();
            true
        },
        Key::Enter => {
            *input = false;
            false
        },
        Key::Backspace => {
            pop_char(text);
            *input = true;
            true
        },
        Key::Char(c) => {
            push_char(text, c);
            *input = true;
            true
        },
        _ => {
            *input = true;
            false
        },
    }
}

} // verus!

verus! {

fn is_move(key: Key) -> (b: bool)
    ensures
        b == is_move_key(key),
{
    match key {
        Key::Down | Key::Char('j') | Key::Up | Key::Char('k') | Key::Home | Key::End => true,
        _ => false,
    }
}

/// A selection moved by a movement key over `count` rows.
fn move_in(sel: usize, key: Key, count: usize) -> (r: usize)
    requires
        is_move_key(key),
    ensures
        r == moved_selection(sel as nat, key, count as nat),
{
    match key {
        Key::Down | Key::Char('j') => {
            if count > 0 {
                if sel >= count - 1 { count - 1 } else { sel + 1 }
            } else {
                sel
            }
        },
        Key::Up | Key::Char('k') => sel.saturating_sub(1),
        Key::Home => 0,
        _ => count.saturating_sub(1),
    }
}

impl UiState {
    fn lite_keys(&mut self, key: Key, count: usize)
        ensures
            final(self)@ == lite_keys(old(self)@, key, count as nat),
    {
        if is_move(key) {
            self.lite.selected = move_in(self.lite.selected, key, count);
        } else {
            self.lite_command(key);
        }
    }

    #[verifier::spinoff_prover]
    #[verifier::rlimit(50)]
    fn lite_command(&mut self, key: Key)
        ensures
            final(self)@ == lite_commands(old(self)@, key),
    {
        match key {
            Key::Char('q') => {
                self.should_quit = true;
            },
            Key::Char('L') => {
                self.view = ViewMode::Full;
                self.lite.detail_open = false;
                self.lite.filter_input = false;
            },
            Key::Char('v') | Key::Char('V') => {
                self.lite.filter_input = false;
                self.cycle_view();
            },
            Key::Char('?') => {
                self.show_help = true;
            },
            Key::Char('p') => {
                self.live = match self.live {
                    LiveState::Live => LiveState::Paused,
                    LiveState::Paused => LiveState::Live,
                };
            },
            Key::Char('/') => {
                self.lite.filter_input = true;
                self.lite.filter_text = String::new();
            },
            Key::Enter => {
                self.lite.detail_open = !self.lite.detail_open;
            },
            Key::Esc => {
                if self.lite.detail_open {
                    self.lite.detail_open = false;
                } else if to_chars(self.lite.filter_text.as_str()).len() > 0 {
                    self.lite.filter_text = String::new();
                    self.lite.selected = 0;
                    self.lite.offset = 0;
                } else {
                    self.should_quit = true;
                }
            },
            _ => {},
        }
    }

    fn lite_key(&mut self, key: Key, ctx: &KeyContext)
        requires
            crate::ui::lite::lite_fits(ctx.last_area),
        ensures
            final(self)@ == lite_step(old(self)@, key, *ctx),
    {
        if self.lite.filter_input {
            let reset = edit_filter(&mut self.lite.filter_input, &mut self.lite.filter_text, key);
            if reset {
                self.lite.selected = 0;
                self.lite.offset = 0;
            }
            return;
        }
        let count = ctx.lite_matches;
        let visible = crate::ui::lite::Layout::new(ctx.last_area).visible_files(self.lite.detail_open);
        self.lite_keys(key, count);
        crate::ui::lite::clamp_lite_scroll(&mut self.lite, count, visible);
    }

    fn dense_keys(&mut self, key: Key, count: usize)
        ensures
            final(self)@ == dense_keys(old(self)@, key, count as nat),
    {
        if is_move(key) {
            self.dense.selected = move_in(self.dense.selected, key, count);
        } else {
            self.dense_command(key);
        }
    }

    #[verifier::spinoff_prover]
    #[verifier::rlimit(50)]
    fn dense_command(&mut self, key: Key)
        ensures
            final(self)@ == dense_commands(old(self)@, key),
    {
        match key {
            Key::Char('q') => {
                self.should_quit = true;
            },
            Key::Char('v') | Key::Char('V') => {
                self.dense.filter_input = false;
                self.cycle_view();
            },
            Key::Char('L') => {
                self.view = ViewMode::Lite;
                self.dense.filter_input = false;
            },
            Key::Char(',') => {
                self.show_settings = true;
                self.settings_cursor = 0;
            },
            Key::Char('?') => {
                self.show_help = true;
            },
            Key::Char('p') => {
                self.live = match self.live {
                    LiveState::Live => LiveState::Paused,
                    LiveState::Paused => LiveState::Live,
                };
            },
            Key::Char('/') => {
                self.dense.filter_input = true;
                self.dense.filter_text = String::new();
            },
            Key::Char('s') => {
                self.dense.sort = self.dense.sort.next();
            },
            Key::Esc => {
                if to_chars(self.dense.filter_text.as_str()).len() > 0 {
                    self.dense.filter_text = String::new();
                    self.dense.selected = 0;
                    self.dense.offset = 0;
                } else {
                    self.should_quit = true;
                }
            },
            _ => {},
        }
    }

    fn dense_key(&mut self, key: Key, ctx: &KeyContext)
        requires
            ctx.last_area.width >= crate::ui::dense::MIN_FULL_W && ctx.last_area.height >= crate::ui::dense::MIN_FULL_H
                ==> crate::ui::dense::layout_fits(ctx.last_area),
        ensures
            final(self)@ == dense_step(old(self)@, key, *ctx),
    {
        if self.dense.filter_input {
            let reset = edit_filter(&mut self.dense.filter_input, &mut self.dense.filter_text, key);
            if reset {
                self.dense.selected = 0;
                self.dense.offset = 0;
            }
            return;
        }
        let count = ctx.dense_matches;
        let visible = crate::ui::dense::visible_files(ctx.last_area);
        self.dense_keys(key, count);
        crate::ui::dense::clamp_dense_scroll(&mut self.dense, count, visible);
    }
}

} // verus!

verus! {

/// Whether `key` navigates the full view.
fn is_nav(key: Key) -> (b: bool)
    ensures
        b == is_nav_key(key),
{
    match key {
        Key::BackTab | Key::Tab | Key::Up | Key::Down | Key::Left | Key::Right | Key::Home | Key::End
        | Key::PageUp | Key::PageDown => true,
        Key::Char(c) => c == 'k' || c == 'j' || c == 'h' || c == 'l' || ('1' <= c && c <= '9'),
        _ => false,
    }
}

/// The tab `delta` (±1) steps from `t`, wrapping.
fn step_tab(t: TabId, delta: i32) -> (r: TabId)
    requires
        delta == 1 || delta == -1,
    ensures
        r == tab_stepped(t, delta as int),
{
    let tabs = crate::tabs::all_tabs();
    let cur = t.number() - 1;
    proof {
        crate::tabs::law_tab_names_round_trip(t);
    }
    let next = if delta == 1 { (cur + 1) % 8 } else { (cur + 7) % 8 };
    proof {
        if delta == -1 {
            vstd::arithmetic::div_mod::lemma_mod_multiples_vanish(1, cur as int - 1, 8);
        }
    }
    tabs[next]
}

/// Whether the tab lists items the arrows move through.
fn is_picker_tab(t: TabId) -> (b: bool)
    ensures
        b == picker_tab(t),
{
    match t {
        TabId::Overview | TabId::Devices | TabId::Smart | TabId::Fs => true,
        _ => false,
    }
}

/// The bounds within which the full view's picker arithmetic is exact.
pub open spec fn pickers_in_range(m: UiModel, ctx: KeyContext) -> bool {
    &&& ctx.device_count < 0x8000_0000
    &&& ctx.fs_count < 0x8000_0000
    &&& m.selected_device < 0x8000_0000
    &&& m.selected_fs < 0x8000_0000
}

impl UiState {
    fn move_selection(&mut self, dy: i32, mode: i32, ctx: &KeyContext)
        requires
            pickers_in_range(old(self)@, *ctx),
            -5 <= dy <= 5,
        ensures
            final(self)@ == moved(old(self)@, dy as int, mode as int, *ctx),
    {
        if self.active_tab == TabId::Fs {
            if ctx.fs_count > 0 {
                self.selected_fs = step_selection(self.selected_fs, ctx.fs_count, dy, mode);
            }
        } else {
            if ctx.device_count > 0 {
                self.selected_device = step_selection(self.selected_device, ctx.device_count, dy, mode);
            }
        }
    }

    #[verifier::spinoff_prover]
    #[verifier::rlimit(50)]
    fn full_navigation(&mut self, key: Key, ctx: &KeyContext)
        requires
            pickers_in_range(old(self)@, *ctx),
        ensures
            final(self)@ == full_navigation(old(self)@, key, *ctx),
    {
        match key {
            Key::BackTab => {
                self.active_tab = step_tab(self.active_tab, -1);
            },
            Key::Tab => {
                self.active_tab = step_tab(self.active_tab, 1);
            },
            Key::Up | Key::Char('k') => self.move_selection(-1, 0, ctx),
            Key::Down | Key::Char('j') => self.move_selection(1, 0, ctx),
            Key::Left | Key::Char('h') => {
                if is_picker_tab(self.active_tab) {
                    self.move_selection(-1, 0, ctx);
                } else {
                    self.active_tab = step_tab(self.active_tab, -1);
                }
            },
            Key::Right | Key::Char('l') => {
                if is_picker_tab(self.active_tab) {
                    self.move_selection(1, 0, ctx);
                } else {
                    self.active_tab = step_tab(self.active_tab, 1);
                }
            },
            Key::Home => self.move_selection(0, -1, ctx),
            Key::End => self.move_selection(0, 1, ctx),
            Key::PageUp => self.move_selection(-5, 0, ctx),
            Key::PageDown => self.move_selection(5, 0, ctx),
            Key::Char(c) => {
                if '1' <= c && c <= '8' {
                    let tabs = crate::tabs::all_tabs();
                    let idx = (c as u32 - '1' as u32) as usize;
                    self.active_tab = tabs[idx];
                }
            },
            _ => {},
        }
    }

    #[verifier::spinoff_prover]
    #[verifier::rlimit(50)]
    fn full_commands(&mut self, key: Key)
        ensures
            final(self)@ == full_commands(old(self)@, key),
    {
        match key {
            Key::Char('q') | Key::Esc => {
                self.should_quit = true;
            },
            Key::Char('p') => {
                self.live = match self.live {
                    LiveState::Live => LiveState::Paused,
                    LiveState::Paused => LiveState::Live,
                };
            },
            Key::Char('?') => {
                self.show_help = true;
            },
            Key::Char(',') => {
                self.show_settings = !self.show_settings;
                self.settings_cursor = 0;
            },
            Key::Char('L') => {
                self.view = ViewMode::Lite;
            },
            Key::Char('v') | Key::Char('V') => self.cycle_view(),
            Key::Char('r') | Key::Char('R') => {
                self.smart_refresh_requested = true;
            },
            Key::Char('+') | Key::Char('=') => {
                let next = self.smart_interval_secs.saturating_add(INTERVAL_STEP_SECS);
                self.set_interval(next);
            },
            Key::Char('-') | Key::Char('_') => {
                let down = self.smart_interval_secs.saturating_sub(INTERVAL_STEP_SECS);
                let next = if down > MIN_SMART_INTERVAL_SECS { down } else { MIN_SMART_INTERVAL_SECS };
                self.set_interval(next);
            },
            Key::Char('0') => {
                self.set_interval(DEFAULT_SMART_INTERVAL_SECS);
                self.smart_refresh_requested = true;
            },
            _ => {},
        }
    }

    /// The state a key press leaves: the settings overlay claims the
    /// keyboard first, then Lite and the dense view own their key
    /// surfaces; the help overlay only dismisses; otherwise the full
    /// view's keys apply.
    pub fn handle_key(&mut self, key: Key, ctx: &KeyContext)
        requires
            ui_ok(old(self)@, *ctx),
        ensures
            final(self)@ == key_step(old(self)@, key, *ctx),
            ui_ok(final(self)@, *ctx),
    {
        if self.show_settings && !self.show_help {
            self.settings_key(key);
        } else if self.view == ViewMode::Lite && !self.show_help {
            self.lite_key(key, ctx);
        } else if self.view == ViewMode::Dense && !self.show_help {
            self.dense_key(key, ctx);
        } else if self.show_help {
            self.help_key(key);
        } else if is_nav(key) {
            self.full_navigation(key, ctx);
        } else {
            self.full_commands(key);
        }
        proof {
            lemma_key_step_keeps_ok(old(self)@, key, *ctx);
        }
    }
}

/// What every state the keyboard reaches keeps: the settings cursor on a
/// row, the pickers and the last area within the arithmetic's range.
pub open spec fn ui_ok(m: UiModel, ctx: KeyContext) -> bool {
    &&& m.settings_cursor < SETTINGS_ROWS
    &&& pickers_in_range(m, ctx)
    &&& crate::ui::lite::lite_fits(ctx.last_area)
    &&& (ctx.last_area.width >= crate::ui::dense::MIN_FULL_W && ctx.last_area.height >= crate::ui::dense::MIN_FULL_H
        ==> crate::ui::dense::layout_fits(ctx.last_area))
}

#[verifier::spinoff_prover]
#[verifier::rlimit(40)]
proof fn lemma_key_step_keeps_ok(m: UiModel, key: Key, ctx: KeyContext)
    requires
        ui_ok(m, ctx),
    ensures
        ui_ok(key_step(m, key, ctx), ctx),
{
}

} // verus!

verus! {

/// No overlay is up and neither view is typing a filter.
pub open spec fn at_rest(m: UiModel) -> bool {
    !m.show_help && !m.show_settings && !m.lite.filter_input && !m.dense.filter_input
}

/// `V` walks full → lite → dense → full: three presses visit every view
/// once and return to the one the walk started from.
pub proof fn law_v_cycles_every_view(m: UiModel, ctx: KeyContext)
    requires
        at_rest(m),
    ensures
        ({
            let a = key_step(m, Key::Char('V'), ctx);
            let b = key_step(a, Key::Char('V'), ctx);
            let c = key_step(b, Key::Char('V'), ctx);
            &&& a.view == view_mode_after(m.view)
            &&& b.view == view_mode_after(a.view)
            &&& c.view == m.view
            &&& a.view != m.view && b.view != m.view && a.view != b.view
        }),
{
}

/// In Lite, Esc unwinds one layer at a time: an open detail block closes
/// first, then an applied filter clears, and only then does Esc quit.
pub proof fn law_lite_esc_unwinds_one_layer_at_a_time(m: UiModel, ctx: KeyContext)
    requires
        at_rest(m),
        m.view == ViewMode::Lite,
    ensures
        ({
            let n = key_step(m, Key::Esc, ctx);
            &&& m.lite.detail_open ==> !n.lite.detail_open && n.should_quit == m.should_quit
                && n.lite.filter_text == m.lite.filter_text
            &&& !m.lite.detail_open && m.lite.filter_text.len() > 0 ==> n.lite.filter_text.len() == 0
                && n.should_quit == m.should_quit
            &&& !m.lite.detail_open && m.lite.filter_text.len() == 0 ==> n.should_quit
        }),
{
}

/// In the dense view, Esc clears an applied filter before it quits.
pub proof fn law_dense_esc_unwinds_the_filter_before_it_quits(m: UiModel, ctx: KeyContext)
    requires
        at_rest(m),
        m.view == ViewMode::Dense,
    ensures
        ({
            let n = key_step(m, Key::Esc, ctx);
            &&& m.dense.filter_text.len() > 0 ==> n.dense.filter_text.len() == 0 && n.should_quit == m.should_quit
            &&& m.dense.filter_text.len() == 0 ==> n.should_quit
        }),
{
}

/// While a filter is being typed, every printable key is text: it is
/// appended to the filter and does nothing else — no quitting, no view
/// change, no help.
pub proof fn law_a_filter_captures_printable_keys(m: UiModel, c: char, ctx: KeyContext)
    requires
        !m.show_help,
        !m.show_settings,
        (m.view == ViewMode::Lite && m.lite.filter_input) || (m.view == ViewMode::Dense && m.dense.filter_input),
    ensures
        ({
            let n = key_step(m, Key::Char(c), ctx);
            &&& m.view == ViewMode::Lite ==> n.lite.filter_text == m.lite.filter_text.push(c) && n.lite.filter_input
            &&& m.view == ViewMode::Dense ==> n.dense.filter_text == m.dense.filter_text.push(c) && n.dense.filter_input
            &&& n.view == m.view
            &&& n.should_quit == m.should_quit
            &&& n.show_help == m.show_help
            &&& n.active_tab == m.active_tab
        }),
{
}

/// Lite and the dense view own their key surfaces: no key pressed in them
/// switches the full view's tab, moves its pickers or changes the SMART
/// interval behind the user's back.
pub proof fn law_view_keys_do_not_leak_into_the_full_view(m: UiModel, key: Key, ctx: KeyContext)
    requires
        !m.show_help,
        !m.show_settings,
        m.view == ViewMode::Lite || m.view == ViewMode::Dense,
    ensures
        ({
            let n = key_step(m, key, ctx);
            &&& n.active_tab == m.active_tab
            &&& n.selected_device == m.selected_device
            &&& n.selected_fs == m.selected_fs
            &&& n.smart_interval_secs == m.smart_interval_secs
        }),
{
}

/// The settings overlay claims the keyboard: while it is up no key quits,
/// switches tab or moves a picker, and its cursor stays on a row.
pub proof fn law_settings_claim_the_keyboard(m: UiModel, key: Key, ctx: KeyContext)
    requires
        m.show_settings,
        !m.show_help,
        m.settings_cursor < SETTINGS_ROWS,
    ensures
        ({
            let n = key_step(m, key, ctx);
            &&& n.should_quit == m.should_quit
            &&& n.active_tab == m.active_tab
            &&& n.selected_device == m.selected_device
            &&& n.settings_cursor < SETTINGS_ROWS
        }),
{
}

/// In the full view a picker's selection stays within its list, whatever
/// key is pressed.
pub proof fn law_picker_selection_stays_in_its_list(m: UiModel, key: Key, ctx: KeyContext)
    requires
        at_rest(m),
        m.view == ViewMode::Full,
        m.selected_device < ctx.device_count,
    ensures
        key_step(m, key, ctx).selected_device < ctx.device_count,
{
    let n = key_step(m, key, ctx);
    assert(n == full_step(m, key, ctx));
    if is_nav_key(key) {
        assert(n == full_navigation(m, key, ctx));
    } else {
        assert(n == full_commands(m, key));
    }
}

/// Eight presses of Tab return to the tab they started from.
pub proof fn law_tab_cycle_returns_home(t: TabId)
    ensures
        tab_stepped(tab_stepped(tab_stepped(tab_stepped(tab_stepped(tab_stepped(tab_stepped(tab_stepped(
            t, 1), 1), 1), 1), 1), 1), 1), 1) == t,
{
    match t {
        TabId::Overview => {},
        TabId::Devices => {},
        TabId::Volumes => {},
        TabId::Fs => {},
        TabId::Io => {},
        TabId::Smart => {},
        TabId::Hot => {},
        TabId::Insights => {},
    }
}

} // verus!

verus! {

impl UiState {
    /// The state a run starts in: the given tab and view, everything else
    /// at its default.
    pub fn new(start: TabId, view: ViewMode) -> (s: UiState)
        ensures
            s@.active_tab == start,
            s@.view == view,
            s@.settings_cursor == 0,
            s@.selected_device == 0 && s@.selected_fs == 0,
            !s@.show_help && !s@.show_settings && !s@.should_quit && !s@.smart_refresh_requested,
            s@.live == LiveState::Live,
            !s@.lite.filter_input && !s@.dense.filter_input && !s@.lite.detail_open,
            s@.lite.filter_text.len() == 0 && s@.dense.filter_text.len() == 0,
            s@.visible_columns == VisibleColumns::ALL,
            s@.temp_unit == TempUnit::Celsius,
            s@.smart_interval_secs == DEFAULT_SMART_INTERVAL_SECS,
            s@.smart_interval_label == smart_label(DEFAULT_SMART_INTERVAL_SECS as nat),
            s@.theme == ThemeId::Terminal,
            s@.graph.style == crate::ui::graph::GraphStyle::Bars && !s@.graph.fade,
    {
        UiState {
            active_tab: start,
            view,
            lite: LiteState::new(),
            dense: DenseState::new(),
            live: LiveState::Live,
            show_help: false,
            show_settings: false,
            settings_cursor: 0,
            visible_columns: VisibleColumns(VisibleColumns::ALL),
            temp_unit: TempUnit::Celsius,
            smart_interval_secs: DEFAULT_SMART_INTERVAL_SECS,
            smart_interval_label: format_smart_label(DEFAULT_SMART_INTERVAL_SECS),
            smart_refresh_requested: false,
            should_quit: false,
            selected_device: 0,
            selected_fs: 0,
            theme: ThemeId::Terminal,
            graph: GraphSettings::new(),
        }
    }
}

// ── the settings overlay's rows ──────────────────────────────────────────

pub open spec fn check_box(on: bool) -> Seq<char> {
    if on { "[x]"@ } else { "[ ]"@ }
}

/// The gradient row: under the terminal theme fading has no RGB to work
/// in, so the row says so rather than offering a toggle that does nothing.
pub open spec fn fade_value(theme: ThemeId, fade: bool) -> Seq<char> {
    if theme == ThemeId::Terminal {
        "n/a (terminal)"@
    } else if fade {
        "on"@
    } else {
        "off"@
    }
}

/// The values of the settings rows, in row order.
pub open spec fn settings_values(m: UiModel) -> Seq<Seq<char>> {
    seq![
        check_box(m.visible_columns & VisibleColumns::SIZE != 0),
        check_box(m.visible_columns & VisibleColumns::FREE != 0),
        check_box(m.visible_columns & VisibleColumns::USED_PCT != 0),
        check_box(m.visible_columns & VisibleColumns::TEMP != 0),
        check_box(m.visible_columns & VisibleColumns::SMART != 0),
        temp_unit_label(m.temp_unit),
        m.smart_interval_label + " (r refreshes)"@,
        crate::ui::theme::theme_name(m.theme),
        view_mode_name(m.view),
        crate::ui::graph::style_name(m.graph.style),
        fade_value(m.theme, m.graph.fade)
    ]
}

/// The labels of the settings rows, in row order.
pub open spec fn settings_labels() -> Seq<Seq<char>> {
    seq![
        "Overview  DEVICES \u{2014} SIZE column"@,
        "Overview  DEVICES \u{2014} FREE column"@,
        "Overview  DEVICES \u{2014} USED % column"@,
        "Overview  DEVICES \u{2014} TEMP column"@,
        "Overview  DEVICES \u{2014} SMART column"@,
        "Temperature unit"@,
        "SMART poll interval"@,
        "Theme"@,
        "View"@,
        "Graph style"@,
        "Graph fade (btop gradient)"@
    ]
}

fn check_box_text(on: bool) -> (s: String)
    ensures
        s@ == check_box(on),
{
    if on { crate::text::owned("[x]") } else { crate::text::owned("[ ]") }
}

impl UiState {
    /// The settings rows as `(label, value)` pairs, one per row the
    /// overlay's cursor can reach.
    #[verifier::spinoff_prover]
    #[verifier::rlimit(80)]
    pub fn settings_rows(&self) -> (rows: Vec<(&'static str, String)>)
        ensures
            rows@.len() == SETTINGS_ROWS,
            forall|i: int| 0 <= i < SETTINGS_ROWS ==> (#[trigger] rows@[i]).0@ == settings_labels()[i]
                && rows@[i].1@ == settings_values(self@)[i],
    {
        let c = self.visible_columns;
        let fade = if self.theme == ThemeId::Terminal {
            crate::text::owned("n/a (terminal)")
        } else if self.graph.fade {
            crate::text::owned("on")
        } else {
            crate::text::owned("off")
        };
        let rows = vec![
            ("Overview  DEVICES \u{2014} SIZE column", check_box_text(c.contains(VisibleColumns::SIZE))),
            ("Overview  DEVICES \u{2014} FREE column", check_box_text(c.contains(VisibleColumns::FREE))),
            ("Overview  DEVICES \u{2014} USED % column", check_box_text(c.contains(VisibleColumns::USED_PCT))),
            ("Overview  DEVICES \u{2014} TEMP column", check_box_text(c.contains(VisibleColumns::TEMP))),
            ("Overview  DEVICES \u{2014} SMART column", check_box_text(c.contains(VisibleColumns::SMART))),
            ("Temperature unit", crate::text::owned(self.temp_unit.label())),
            ("SMART poll interval", crate::text::cat(crate::text::owned(self.smart_interval_label.as_str()), " (r refreshes)")),
            ("Theme", crate::text::owned(self.theme.name())),
            ("View", crate::text::owned(self.view.name())),
            ("Graph style", crate::text::owned(self.graph.style.name())),
            ("Graph fade (btop gradient)", fade),
        ];
        proof {
            assert forall|i: int| 0 <= i < SETTINGS_ROWS implies (#[trigger] rows@[i]).0@ == settings_labels()[i]
                && rows@[i].1@ == settings_values(self@)[i] by {
                if i == 0 {} else if i == 1 {} else if i == 2 {} else if i == 3 {} else if i == 4 {}
                else if i == 5 {} else if i == 6 {} else if i == 7 {} else if i == 8 {} else if i == 9 {} else {}
            }
        }
        rows
    }
}

} // verus!

verus! {

/// Every settings row the cursor can reach does something: pressing Space
/// on it changes the state.
pub proof fn law_every_settings_row_acts(m: UiModel)
    requires
        m.settings_cursor < SETTINGS_ROWS,
    ensures
        settings_activate(m) != m,
{
    let v = m.visible_columns;
    if m.settings_cursor < SETTINGS_FIRST_CYCLE {
        let b = settings_column(m.settings_cursor);
        assert(b == 1 || b == 2 || b == 4 || b == 8 || b == 16);
        assert(b != 0 ==> v ^ b != v) by (bit_vector);
        assert(settings_activate(m).visible_columns != v);
    }
}

/// Every settings value fits the overlay's value column, so none is
/// sheared mid-word — as long as the interval's label is the footer's
/// compact form of at most three characters.
pub proof fn law_settings_values_fit_their_column(m: UiModel)
    requires
        m.smart_interval_label.len() <= 3,
    ensures
        forall|i: int| 0 <= i < SETTINGS_ROWS ==> (#[trigger] settings_values(m)[i]).len()
            <= SETTINGS_POPUP_W - 2 - SETTINGS_MARKER_W - SETTINGS_LABEL_W,
{
    reveal_strlit("[x]");
    reveal_strlit("[ ]");
    reveal_strlit("Celsius (°C)");
    reveal_strlit("Fahrenheit (°F)");
    reveal_strlit(" (r refreshes)");
    reveal_strlit("dark");
    reveal_strlit("light");
    reveal_strlit("ocean");
    reveal_strlit("solarized");
    reveal_strlit("dracula");
    reveal_strlit("nord");
    reveal_strlit("terminal");
    reveal_strlit("full");
    reveal_strlit("lite");
    reveal_strlit("dense");
    reveal_strlit("bars");
    reveal_strlit("dots");
    reveal_strlit("n/a (terminal)");
    reveal_strlit("on");
    reveal_strlit("off");
    let vals = settings_values(m);
    assert forall|i: int| 0 <= i < SETTINGS_ROWS implies (#[trigger] settings_values(m)[i]).len() <= 17 by {
        if i == 0 {} else if i == 1 {} else if i == 2 {} else if i == 3 {} else if i == 4 {}
        else if i == 5 {} else if i == 6 {} else if i == 7 {} else if i == 8 {} else if i == 9 {} else {}
    }
}

} // verus!

verus! {

/// How often mount usage and the filesystem list are re-read.
pub const USAGE_REFRESH_MS: u64 = 1_000;
/// How often the device list and the arrays are re-enumerated.
pub const METADATA_REFRESH_MS: u64 = 30_000;

/// When the slower readings were last taken, in milliseconds on the
/// front end's monotonic clock.
#[derive(Debug, Clone, Copy, PartialEq, Eq, Structural)]
pub struct TickClock {
    /// When the IO counters were last sampled; `None` before the first.
    pub last_io_ms: Option<u64>,
    pub last_usage_ms: u64,
    pub last_metadata_ms: u64,
}

/// What one tick of the main loop is to read.
#[derive(Debug, Clone, Copy, PartialEq, Eq, Structural)]
pub struct TickPlan {
    /// Sample the IO counters.
    pub sample_io: bool,
    /// Re-read usage, filesystems and trends, and decay the hot files.
    pub refresh_usage: bool,
    /// Re-enumerate devices and arrays.
    pub refresh_metadata: bool,
    /// Give the SMART schedule its turn.
    pub smart: bool,
}

/// Whether `every` milliseconds have passed since `last`.
pub open spec fn elapsed(last: u64, now: u64, every: u64) -> bool {
    now >= last && now - last >= every
}

/// Whether the IO counters are due: never sampled, or a sample interval
/// has passed since the last sample.
pub open spec fn io_due(last: Option<u64>, now: u64) -> bool {
    match last {
        None => true,
        Some(t) => elapsed(t, now, crate::collect::io::SAMPLE_MS as u64),
    }
}

/// One tick: nothing while paused; otherwise SMART every tick, the IO
/// counters once a sample interval, usage once a second and the device list
/// every thirty seconds, each marked as taken when it is.
pub open spec fn tick_plan(c: TickClock, live: LiveState, now: u64) -> (TickClock, TickPlan) {
    if live == LiveState::Paused {
        (c, TickPlan { sample_io: false, refresh_usage: false, refresh_metadata: false, smart: false })
    } else {
        let i = io_due(c.last_io_ms, now);
        let u = elapsed(c.last_usage_ms, now, USAGE_REFRESH_MS);
        let m = elapsed(c.last_metadata_ms, now, METADATA_REFRESH_MS);
        (
            TickClock {
                last_io_ms: if i { Some(now) } else { c.last_io_ms },
                last_usage_ms: if u { now } else { c.last_usage_ms },
                last_metadata_ms: if m { now } else { c.last_metadata_ms },
            },
            TickPlan { sample_io: i, refresh_usage: u, refresh_metadata: m, smart: true },
        )
    }
}

impl TickClock {
    /// A clock whose usage and device readings were just taken at `now_ms`,
    /// and whose IO counters are still to be sampled.
    pub fn new(now_ms: u64) -> (c: TickClock)
        ensures
            c.last_io_ms is None,
            c.last_usage_ms == now_ms && c.last_metadata_ms == now_ms,
    {
        TickClock { last_io_ms: None, last_usage_ms: now_ms, last_metadata_ms: now_ms }
    }

    pub fn plan(&mut self, live: LiveState, now_ms: u64) -> (p: TickPlan)
        ensures
            (*final(self), p) == tick_plan(*old(self), live, now_ms),
    {
        if live == LiveState::Paused {
            return TickPlan { sample_io: false, refresh_usage: false, refresh_metadata: false, smart: false };
        }
        let i = match self.last_io_ms {
            None => true,
            Some(t) => now_ms >= t && now_ms - t >= crate::collect::io::SAMPLE_MS as u64,
        };
        let u = now_ms >= self.last_usage_ms && now_ms - self.last_usage_ms >= USAGE_REFRESH_MS;
        let m = now_ms >= self.last_metadata_ms && now_ms - self.last_metadata_ms >= METADATA_REFRESH_MS;
        if i {
            self.last_io_ms = Some(now_ms);
        }
        if u {
            self.last_usage_ms = now_ms;
        }
        if m {
            self.last_metadata_ms = now_ms;
        }
        TickPlan { sample_io: i, refresh_usage: u, refresh_metadata: m, smart: true }
    }
}

/// A paused view reads nothing and keeps its clock.
pub proof fn law_paused_reads_nothing(c: TickClock, now: u64)
    ensures
        tick_plan(c, LiveState::Paused, now).0 == c,
        !tick_plan(c, LiveState::Paused, now).1.sample_io,
        !tick_plan(c, LiveState::Paused, now).1.refresh_usage,
        !tick_plan(c, LiveState::Paused, now).1.refresh_metadata,
        !tick_plan(c, LiveState::Paused, now).1.smart,
{
}

/// The IO counters are sampled at most once a sample interval, usage is
/// re-read at most once a second, and the devices at most once every thirty
/// seconds, however often the loop ticks.
pub proof fn law_slow_readings_keep_their_pace(c: TickClock, live: LiveState, now: u64, later: u64, live2: LiveState)
    requires
        now <= later,
    ensures
        tick_plan(c, live, now).1.sample_io && later < now + crate::collect::io::SAMPLE_MS
            ==> !tick_plan(tick_plan(c, live, now).0, live2, later).1.sample_io,
        tick_plan(c, live, now).1.refresh_usage && later < now + USAGE_REFRESH_MS
            ==> !tick_plan(tick_plan(c, live, now).0, live2, later).1.refresh_usage,
        tick_plan(c, live, now).1.refresh_metadata && later < now + METADATA_REFRESH_MS
            ==> !tick_plan(tick_plan(c, live, now).0, live2, later).1.refresh_metadata,
{
}

} // verus!

verus! {

// ── what the dense view's borders advertise ─────────────────────────────

/// The keys the dense view prints in its borders: the file box's footer,
/// wide or narrow, and the io box's `, settings`.
pub open spec fn border_keys(wide: bool) -> Seq<Key> {
    if wide {
        seq![Key::Char('q'), Key::Up, Key::Char('/'), Key::Char('s'), Key::Char('V'), Key::Char('?'), Key::Char(',')]
    } else {
        seq![Key::Char('q'), Key::Char('/'), Key::Char('s'), Key::Char('V'), Key::Char(',')]
    }
}

/// How a key is printed in a border.
pub open spec fn key_glyph(k: Key) -> Seq<char> {
    match k {
        Key::Char(c) => seq![c],
        Key::Up => "\u{2191}\u{2193}"@,
        _ => Seq::empty(),
    }
}

/// What a key does, as its border says it.
pub open spec fn key_caption(k: Key) -> Seq<char> {
    match k {
        Key::Char('q') => "uit"@,
        Key::Up => " select"@,
        Key::Char('/') => " filter"@,
        Key::Char('s') => "ort"@,
        Key::Char('V') => " view"@,
        Key::Char('?') => " help"@,
        Key::Char(',') => " settings"@,
        _ => Seq::empty(),
    }
}

/// The key hints the dense view's borders print, glyph and caption, in
/// order.
pub fn border_hints(wide: bool) -> (v: Vec<(&'static str, &'static str)>)
    ensures
        v@.len() == border_keys(wide).len(),
        forall|i: int| 0 <= i < v@.len() ==> (#[trigger] v@[i]).0@ == key_glyph(border_keys(wide)[i])
            && v@[i].1@ == key_caption(border_keys(wide)[i]),
{
    proof {
        reveal_strlit("q");
        reveal_strlit("/");
        reveal_strlit("s");
        reveal_strlit("V");
        reveal_strlit("?");
        reveal_strlit(",");
    }
    let v = if wide {
        vec![("q", "uit"), ("\u{2191}\u{2193}", " select"), ("/", " filter"), ("s", "ort"), ("V", " view"), ("?", " help"), (",", " settings")]
    } else {
        vec![("q", "uit"), ("/", " filter"), ("s", "ort"), ("V", " view"), (",", " settings")]
    };
    proof {
        assert("q"@ =~= seq!['q']);
        assert("/"@ =~= seq!['/']);
        assert("s"@ =~= seq!['s']);
        assert("V"@ =~= seq!['V']);
        assert("?"@ =~= seq!['?']);
        assert(","@ =~= seq![',']);
    }
    v
}

/// Every key the dense view prints in a border does something there: at
/// rest, pressing one changes the state — except the arrows, which have
/// nothing to move through in an empty list, and whose selection stays on
/// the list ([`law_picker_selection_stays_in_its_list`] and the dense
/// clamp).
pub proof fn law_every_key_the_dense_view_prints_acts(m: UiModel, ctx: KeyContext, wide: bool, key: Key)
    requires
        at_rest(m),
        m.view == ViewMode::Dense,
        !m.should_quit,
        border_keys(wide).contains(key),
        key != Key::Up,
    ensures
        key_step(m, key, ctx) != m,
{
    let i = choose|i: int| 0 <= i < border_keys(wide).len() && border_keys(wide)[i] == key;
    crate::ui::dense::law_sort_cycle(m.dense.sort);
    if key == Key::Char('q') {
        assert(key_step(m, key, ctx).should_quit);
    } else if key == Key::Char('/') {
        assert(key_step(m, key, ctx).dense.filter_input);
    } else if key == Key::Char('s') {
        assert(key_step(m, key, ctx).dense.sort != m.dense.sort);
    } else if key == Key::Char('V') {
        assert(key_step(m, key, ctx).view != m.view);
    } else if key == Key::Char('?') {
        assert(key_step(m, key, ctx).show_help);
    } else {
        assert(key == Key::Char(','));
        assert(key_step(m, key, ctx).show_settings);
    }
}

} // verus!
