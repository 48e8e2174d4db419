//! The eight tabs of the full view and the names they go by.

use vstd::prelude::*;
use crate::text::{chars_are, lower, lower_range, to_chars};

verus! {

#[derive(Debug, Clone, Copy, PartialEq, Eq, Structural)]
pub enum TabId {
    Overview,
    Devices,
    Volumes,
    Fs,
    Io,
    Smart,
    Hot,
    Insights,
}

/// The tabs in display order.
pub open spec fn tab_order() -> Seq<TabId> {
    seq![TabId::Overview, TabId::Devices, TabId::Volumes, TabId::Fs, TabId::Io, TabId::Smart,
        TabId::Hot, TabId::Insights]
}

/// Position of a tab in [`tab_order`], from 0.
pub open spec fn tab_index(t: TabId) -> nat {
    match t {
        TabId::Overview => 0,
        TabId::Devices => 1,
        TabId::Volumes => 2,
        TabId::Fs => 3,
        TabId::Io => 4,
        TabId::Smart => 5,
        TabId::Hot => 6,
        TabId::Insights => 7,
    }
}

/// The tabs in display order.
pub fn all_tabs() -> (v: Vec<TabId>)
    ensures
        v@ == tab_order(),
{
    let v = vec![TabId::Overview, TabId::Devices, TabId::Volumes, TabId::Fs, TabId::Io,
        TabId::Smart, TabId::Hot, TabId::Insights];
    proof {
        assert(v@ =~= tab_order());
    }
    v
}

/// Canonical CLI / config spellings, in tab order.
pub fn tab_names() -> (v: Vec<&'static str>)
    ensures
        v@.len() == 8,
        forall|i: int| 0 <= i < 8 ==> (#[trigger] v@[i])@ == tab_canonical_name(tab_order()[i]),
{
    let v = vec!["overview", "devices", "volumes", "fs", "io", "smart", "hot", "insights"];
    proof {
        assert forall|i: int| 0 <= i < 8 implies (#[trigger] v@[i])@ == tab_canonical_name(tab_order()[i]) by {
            if i == 0 {} else if i == 1 {} else if i == 2 {} else if i == 3 {}
            else if i == 4 {} else if i == 5 {} else if i == 6 {} else {}
        }
    }
    v
}

/// The name `--tab` and the config's `tab` key offer for a tab.
pub open spec fn tab_canonical_name(t: TabId) -> Seq<char> {
    match t {
        TabId::Overview => "overview"@,
        TabId::Devices => "devices"@,
        TabId::Volumes => "volumes"@,
        TabId::Fs => "fs"@,
        TabId::Io => "io"@,
        TabId::Smart => "smart"@,
        TabId::Hot => "hot"@,
        TabId::Insights => "insights"@,
    }
}

/// The tab a spelling names, compared without regard to ASCII case.
/// `filesystems` and `hotfiles` are accepted as aliases.
pub open spec fn tab_named(s: Seq<char>) -> Option<TabId> {
    let l = lower(s);
    if l == "overview"@ {
        Some(TabId::Overview)
    } else if l == "devices"@ {
        Some(TabId::Devices)
    } else if l == "volumes"@ {
        Some(TabId::Volumes)
    } else if l == "fs"@ || l == "filesystems"@ {
        Some(TabId::Fs)
    } else if l == "io"@ {
        Some(TabId::Io)
    } else if l == "smart"@ {
        Some(TabId::Smart)
    } else if l == "hot"@ || l == "hotfiles"@ {
        Some(TabId::Hot)
    } else if l == "insights"@ {
        Some(TabId::Insights)
    } else {
        None
    }
}

/// The label in the tab bar.
pub open spec fn tab_label(t: TabId) -> Seq<char> {
    match t {
        TabId::Overview => "Overview"@,
        TabId::Devices => "Devices"@,
        TabId::Volumes => "Volumes"@,
        TabId::Fs => "FS"@,
        TabId::Io => "IO"@,
        TabId::Smart => "SMART"@,
        TabId::Hot => "Hot Files"@,
        TabId::Insights => "Insights"@,
    }
}

impl TabId {
    pub fn label(&self) -> (s: &'static str)
        ensures
            s@ == tab_label(*self),
    {
        match self {
            TabId::Overview => "Overview",
            TabId::Devices => "Devices",
            TabId::Volumes => "Volumes",
            TabId::Fs => "FS",
            TabId::Io => "IO",
            TabId::Smart => "SMART",
            TabId::Hot => "Hot Files",
            TabId::Insights => "Insights",
        }
    }

    /// The tab's 1-based position in the tab bar, the digit that jumps to it.
    pub fn number(&self) -> (n: usize)
        ensures
            n == tab_index(*self) + 1,
            tab_order()[n - 1] == *self,
    {
        match self {
            TabId::Overview => 1,
            TabId::Devices => 2,
            TabId::Volumes => 3,
            TabId::Fs => 4,
            TabId::Io => 5,
            TabId::Smart => 6,
            TabId::Hot => 7,
            TabId::Insights => 8,
        }
    }

    /// Resolve a CLI / config spelling; `None` for anything unknown.
    pub fn from_str(s: &str) -> (r: Option<TabId>)
        ensures
            r == tab_named(s@),
    {
        let v = to_chars(s);
        let l = lower_range(&v, 0, v.len());
        proof {
            assert(v@.subrange(0, v@.len() as int) =~= v@);
        }
        if chars_are(&l, "overview") {
            Some(TabId::Overview)
        } else if chars_are(&l, "devices") {
            Some(TabId::Devices)
        } else if chars_are(&l, "volumes") {
            Some(TabId::Volumes)
        } else if chars_are(&l, "fs") || chars_are(&l, "filesystems") {
            Some(TabId::Fs)
        } else if chars_are(&l, "io") {
            Some(TabId::Io)
        } else if chars_are(&l, "smart") {
            Some(TabId::Smart)
        } else if chars_are(&l, "hot") || chars_are(&l, "hotfiles") {
            Some(TabId::Hot)
        } else if chars_are(&l, "insights") {
            Some(TabId::Insights)
        } else {
            None
        }
    }
}

/// Every tab's canonical name resolves back to that tab, and its number
/// is its place in the tab bar.
pub proof fn law_tab_names_round_trip(t: TabId)
    ensures
        tab_named(tab_canonical_name(t)) == Some(t),
        tab_order()[tab_index(t) as int] == t,
{
    reveal_strlit("overview");
    reveal_strlit("devices");
    reveal_strlit("volumes");
    reveal_strlit("fs");
    reveal_strlit("filesystems");
    reveal_strlit("io");
    reveal_strlit("smart");
    reveal_strlit("hot");
    reveal_strlit("hotfiles");
    reveal_strlit("insights");
    let n = tab_canonical_name(t);
    assert(lower(n) =~= n);
    assert("overview"@[0] != "devices"@[0] && "overview"@[0] != "volumes"@[0]);
    assert("devices"@[0] != "volumes"@[0]);
    assert("smart"@[0] != "overview"@[0] && "smart"@[0] != "devices"@[0] && "smart"@[0] != "volumes"@[0]);
    assert("insights"@[0] != "overview"@[0] && "insights"@[0] != "devices"@[0] && "insights"@[0] != "volumes"@[0]);
    assert("insights"@[1] != "io"@[1]);
    assert("hot"@[0] != "fs"@[0] && "hot"@[0] != "io"@[0]);
    assert("io"@[0] != "fs"@[0]);
    assert("insights"@[0] != "smart"@[0]);
}

} // verus!

verus! {

// ── the hot-files tab ────────────────────────────────────────────────────

/// A path cut to `w` characters from the left, so the file name stays
/// visible: the lost head is shown as one `…`.
pub open spec fn display_path_text(s: Seq<char>, w: nat) -> Seq<char> {
    if s.len() <= w {
        s
    } else {
        seq!['\u{2026}'] + s.skip(s.len() - (w - 1))
    }
}

pub fn display_path(s: &str, w: usize) -> (r: String)
    requires
        s@.len() <= w || w >= 1,
    ensures
        r@ == display_path_text(s@, w as nat),
        r@.len() <= w || s@.len() <= w,
{
    let v = to_chars(s);
    let len = v.len();
    if len <= w {
        return crate::text::owned(s);
    }
    let tail = crate::text::string_of(&v, len - (w - 1), len);
    let mut out = String::new();
    crate::text::push_char(&mut out, '\u{2026}');
    let r = crate::text::cat(out, tail.as_str());
    proof {
        assert(r@ =~= display_path_text(s@, w as nat));
    }
    r
}

/// How long ago, in the largest whole unit: seconds under a minute,
/// minutes under an hour, else hours.
pub open spec fn age_label_text(secs: nat) -> Seq<char> {
    if secs < 60 {
        crate::text::decimal(secs) + "s"@
    } else if secs < 3600 {
        crate::text::decimal(secs / 60) + "m"@
    } else {
        crate::text::decimal(secs / 3600) + "h"@
    }
}

pub fn age_label(secs: u64) -> (r: String)
    ensures
        r@ == age_label_text(secs as nat),
{
    if secs < 60 {
        crate::text::cat(crate::text::format_u64(secs), "s")
    } else if secs < 3600 {
        crate::text::cat(crate::text::format_u64(secs / 60), "m")
    } else {
        crate::text::cat(crate::text::format_u64(secs / 3600), "h")
    }
}

} // verus!
