//! The colour themes the UI can be drawn in, by name.
//!
//! The colours themselves belong to the renderer; this module decides
//! which theme a name selects, in what order the settings overlay cycles
//! them, and what the default is.

use vstd::prelude::*;
use crate::text::{chars_are, lower, lower_range, to_chars};

verus! {

#[derive(Debug, Clone, Copy, PartialEq, Eq, Structural)]
pub enum ThemeId {
    Dark,
    Light,
    Ocean,
    Solarized,
    Dracula,
    Nord,
    /// Pins no colour of its own: every slot resolves through the
    /// terminal's palette.
    Terminal,
}

/// The theme a fresh run starts in.
pub const DEFAULT_THEME: &'static str = "terminal";

/// The built-in themes in cycle order.
pub open spec fn theme_order() -> Seq<ThemeId> {
    seq![ThemeId::Dark, ThemeId::Light, ThemeId::Ocean, ThemeId::Solarized, ThemeId::Dracula,
        ThemeId::Nord, ThemeId::Terminal]
}

pub open spec fn theme_name(t: ThemeId) -> Seq<char> {
    match t {
        ThemeId::Dark => "dark"@,
        ThemeId::Light => "light"@,
        ThemeId::Ocean => "ocean"@,
        ThemeId::Solarized => "solarized"@,
        ThemeId::Dracula => "dracula"@,
        ThemeId::Nord => "nord"@,
        ThemeId::Terminal => "terminal"@,
    }
}

/// The theme a spelling names, compared without regard to ASCII case.
/// `system` and `ansi` select the terminal theme; anything unknown falls
/// back to dark.
pub open spec fn theme_named(s: Seq<char>) -> ThemeId {
    let l = lower(s);
    if l == "light"@ {
        ThemeId::Light
    } else if l == "ocean"@ {
        ThemeId::Ocean
    } else if l == "solarized"@ {
        ThemeId::Solarized
    } else if l == "dracula"@ {
        ThemeId::Dracula
    } else if l == "nord"@ {
        ThemeId::Nord
    } else if l == "terminal"@ || l == "system"@ || l == "ansi"@ {
        ThemeId::Terminal
    } else {
        ThemeId::Dark
    }
}

pub open spec fn theme_after(t: ThemeId) -> ThemeId {
    match t {
        ThemeId::Dark => ThemeId::Light,
        ThemeId::Light => ThemeId::Ocean,
        ThemeId::Ocean => ThemeId::Solarized,
        ThemeId::Solarized => ThemeId::Dracula,
        ThemeId::Dracula => ThemeId::Nord,
        ThemeId::Nord => ThemeId::Terminal,
        ThemeId::Terminal => ThemeId::Dark,
    }
}

/// The built-in theme names, in cycle order.
pub fn theme_names() -> (v: Vec<&'static str>)
    ensures
        v@.len() == 7,
        forall|i: int| 0 <= i < 7 ==> (#[trigger] v@[i])@ == theme_name(theme_order()[i]),
{
    let v = vec!["dark", "light", "ocean", "solarized", "dracula", "nord", "terminal"];
    proof {
        assert forall|i: int| 0 <= i < 7 implies (#[trigger] v@[i])@ == theme_name(theme_order()[i]) by {
            if i == 0 {} else if i == 1 {} else if i == 2 {} else if i == 3 {}
            else if i == 4 {} else if i == 5 {} else {}
        }
    }
    v
}

pub fn by_name(name: &str) -> (t: ThemeId)
    ensures
        t == theme_named(name@),
{
    let v = to_chars(name);
    let l = lower_range(&v, 0, v.len());
    proof {
        assert(v@.subrange(0, v@.len() as int) =~= v@);
    }
    if chars_are(&l, "light") {
        ThemeId::Light
    } else if chars_are(&l, "ocean") {
        ThemeId::Ocean
    } else if chars_are(&l, "solarized") {
        ThemeId::Solarized
    } else if chars_are(&l, "dracula") {
        ThemeId::Dracula
    } else if chars_are(&l, "nord") {
        ThemeId::Nord
    } else if chars_are(&l, "terminal") || chars_are(&l, "system") || chars_are(&l, "ansi") {
        ThemeId::Terminal
    } else {
        ThemeId::Dark
    }
}

impl ThemeId {
    pub fn name(self) -> (s: &'static str)
        ensures
            s@ == theme_name(self),
    {
        match self {
            ThemeId::Dark => "dark",
            ThemeId::Light => "light",
            ThemeId::Ocean => "ocean",
            ThemeId::Solarized => "solarized",
            ThemeId::Dracula => "dracula",
            ThemeId::Nord => "nord",
            ThemeId::Terminal => "terminal",
        }
    }
}

/// Select the theme `name` names.
pub fn set_by_name(active: &mut ThemeId, name: &str)
    ensures
        *final(active) == theme_named(name@),
{
    *active = by_name(name);
}

pub fn name(active: &ThemeId) -> (s: &'static str)
    ensures
        s@ == theme_name(*active),
{
    active.name()
}

/// Advance to the next theme, wrapping; returns its name.
pub fn cycle(active: &mut ThemeId) -> (s: &'static str)
    ensures
        *final(active) == theme_after(*old(active)),
        s@ == theme_name(*final(active)),
{
    *active = match *active {
        ThemeId::Dark => ThemeId::Light,
        ThemeId::Light => ThemeId::Ocean,
        ThemeId::Ocean => ThemeId::Solarized,
        ThemeId::Solarized => ThemeId::Dracula,
        ThemeId::Dracula => ThemeId::Nord,
        ThemeId::Nord => ThemeId::Terminal,
        ThemeId::Terminal => ThemeId::Dark,
    };
    active.name()
}

/// Seven steps of the cycle visit every theme once and return home.
pub proof fn law_theme_cycle_returns_home(t: ThemeId)
    ensures
        theme_after(theme_after(theme_after(theme_after(theme_after(theme_after(theme_after(t)))))))
            == t,
{
}

/// Every built-in theme's name selects that theme.
pub proof fn law_theme_names_round_trip(t: ThemeId)
    ensures
        theme_named(theme_name(t)) == t,
{
    reveal_strlit("dark");
    reveal_strlit("light");
    reveal_strlit("ocean");
    reveal_strlit("solarized");
    reveal_strlit("dracula");
    reveal_strlit("nord");
    reveal_strlit("terminal");
    reveal_strlit("system");
    reveal_strlit("ansi");
    let n = theme_name(t);
    assert(lower(n) =~= n);
    assert("dark"@[0] != "nord"@[0] && "dark"@[0] != "ansi"@[0] && "nord"@[0] != "ansi"@[0]);
    assert("light"@[0] != "ocean"@[0]);
}

} // verus!
