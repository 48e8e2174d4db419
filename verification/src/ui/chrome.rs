//! The frame around the full view: its header line.

use vstd::prelude::*;

verus! {

/// The host's uptime as the header shows it: `Dd HH:MM`, or `HH:MM`
/// under a day.
pub fn format_uptime(secs: u64) -> (s: String)
    ensures
        s@ == crate::ui::dense::uptime_text(secs as nat),
{
    crate::ui::dense::uptime(secs)
}

} // verus!
