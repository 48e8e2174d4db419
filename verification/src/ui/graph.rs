//! The chart style every graph in the app draws with, and the fade switch.
//!
//! The settings live in one value owned by the front end, so one change
//! restyles every chart on the next frame.

use vstd::prelude::*;
use crate::text::{chars_are, lower, lower_range, to_chars};

verus! {

#[derive(Debug, Clone, Copy, PartialEq, Eq, Structural)]
pub enum GraphStyle {
    /// Solid stacked eighth-blocks.
    Bars,
    /// Braille area plot: four levels per row instead of one.
    Dots,
}

/// The style a spelling names; anything unrecognised falls back to bars.
/// `braille` and `btop` are accepted for dots.
pub open spec fn style_named(s: Seq<char>) -> GraphStyle {
    let l = lower(s);
    if l == "dots"@ || l == "braille"@ || l == "btop"@ {
        GraphStyle::Dots
    } else {
        GraphStyle::Bars
    }
}

pub open spec fn style_name(s: GraphStyle) -> Seq<char> {
    match s {
        GraphStyle::Bars => "bars"@,
        GraphStyle::Dots => "dots"@,
    }
}

pub open spec fn style_after(s: GraphStyle) -> GraphStyle {
    match s {
        GraphStyle::Bars => GraphStyle::Dots,
        GraphStyle::Dots => GraphStyle::Bars,
    }
}

/// The style names the CLI and config accept, in cycle order.
pub fn graph_style_names() -> (v: Vec<&'static str>)
    ensures
        v@.len() == 2,
        v@[0]@ == "bars"@,
        v@[1]@ == "dots"@,
{
    vec!["bars", "dots"]
}

pub fn by_name(name: &str) -> (s: GraphStyle)
    ensures
        s == style_named(name@),
{
    let v = to_chars(name);
    let l = lower_range(&v, 0, v.len());
    proof {
        assert(v@.subrange(0, v@.len() as int) =~= v@);
    }
    if chars_are(&l, "dots") || chars_are(&l, "braille") || chars_are(&l, "btop") {
        GraphStyle::Dots
    } else {
        GraphStyle::Bars
    }
}

impl GraphStyle {
    pub fn name(self) -> (s: &'static str)
        ensures
            s@ == style_name(self),
    {
        match self {
            GraphStyle::Bars => "bars",
            GraphStyle::Dots => "dots",
        }
    }
}

/// The chart settings: style, and whether charts fade toward the past.
#[derive(Debug, Clone, Copy, PartialEq, Eq, Structural)]
pub struct GraphSettings {
    pub style: GraphStyle,
    pub fade: bool,
}

impl GraphSettings {
    /// Bars, no fade.
    pub fn new() -> (g: GraphSettings)
        ensures
            g.style == GraphStyle::Bars,
            !g.fade,
    {
        GraphSettings { style: GraphStyle::Bars, fade: false }
    }
}

pub fn active(g: &GraphSettings) -> (s: GraphStyle)
    ensures
        s == g.style,
{
    g.style
}

pub fn set_by_name(g: &mut GraphSettings, name: &str)
    ensures
        final(g).style == style_named(name@),
        final(g).fade == old(g).fade,
{
    g.style = by_name(name);
}

pub fn name(g: &GraphSettings) -> (s: &'static str)
    ensures
        s@ == style_name(g.style),
{
    g.style.name()
}

/// Advance to the next style, wrapping; returns the new style's name.
pub fn cycle(g: &mut GraphSettings) -> (s: &'static str)
    ensures
        final(g).style == style_after(old(g).style),
        final(g).fade == old(g).fade,
        s@ == style_name(final(g).style),
{
    g.style = match g.style {
        GraphStyle::Bars => GraphStyle::Dots,
        GraphStyle::Dots => GraphStyle::Bars,
    };
    g.style.name()
}

pub fn fade_enabled(g: &GraphSettings) -> (b: bool)
    ensures
        b == g.fade,
{
    g.fade
}

pub fn set_fade(g: &mut GraphSettings, on: bool)
    ensures
        final(g).fade == on,
        final(g).style == old(g).style,
{
    g.fade = on;
}

/// Flip the fade switch; returns its new state.
pub fn toggle_fade(g: &mut GraphSettings) -> (b: bool)
    ensures
        final(g).fade == !old(g).fade,
        final(g).style == old(g).style,
        b == final(g).fade,
{
    g.fade = !g.fade;
    g.fade
}

/// Cycling twice returns to the starting style and always changes it on
/// the way; every style's name resolves back to it.
pub proof fn law_style_cycle_and_names(s: GraphStyle)
    ensures
        style_after(style_after(s)) == s,
        style_after(s) != s,
        style_named(style_name(s)) == s,
{
    reveal_strlit("bars");
    reveal_strlit("dots");
    reveal_strlit("braille");
    reveal_strlit("btop");
    let n = style_name(s);
    assert(lower(n) =~= n);
    assert("bars"@[0] != "dots"@[0]);
    assert("bars"@[1] != "btop"@[1]);
    assert("bars"@.len() != "braille"@.len());
}

} // verus!
