//! Folding the command line, the environment and the config file into one
//! set of settings. A flag typed just now beats an environment variable,
//! which beats a file written months ago, which beats the built-in default.

use vstd::prelude::*;
use crate::app::{
    view_mode_named, TempUnit, ViewMode, VisibleColumns, DEFAULT_SMART_INTERVAL_SECS,
};
use crate::config::{expand_all, expand_each, home_view, opt_view, strings_view, Config, ConfigModel};
use crate::tabs::{tab_named, TabId};
use crate::text::{owned, ranges_in, ranges_view, split, split_ranges, to_chars, trim};

verus! {

/// What the command line said, as plain values.
#[derive(Debug, Clone)]
pub struct CliArgs {
    pub tab: Option<String>,
    pub theme: Option<String>,
    pub graph: Option<String>,
    pub graph_fade: bool,
    pub no_graph_fade: bool,
    pub lite: bool,
    pub dense: bool,
    pub view: Option<String>,
    /// Roots replacing the defaults; repeatable.
    pub watch: Vec<String>,
    /// Roots added to whatever the roots end up being; repeatable.
    pub watch_add: Vec<String>,
}

/// Every setting after the three sources have been folded together.
#[derive(Debug, Clone, PartialEq)]
pub struct Resolved {
    pub theme: String,
    pub graph: String,
    pub graph_fade: bool,
    pub view: ViewMode,
    pub tab: TabId,
    pub smart_interval_secs: u64,
    pub temp_unit: TempUnit,
    pub visible_columns: VisibleColumns,
    /// Roots replacing the defaults, or `None` to keep them.
    pub watch_replace: Option<Vec<String>>,
    pub watch_extra: Vec<String>,
}

/// What a [`Resolved`] holds, strings taken by their characters.
pub ghost struct ResolvedModel {
    pub theme: Seq<char>,
    pub graph: Seq<char>,
    pub graph_fade: bool,
    pub view: ViewMode,
    pub tab: TabId,
    pub smart_interval_secs: u64,
    pub temp_unit: TempUnit,
    pub visible_columns: u8,
    pub watch_replace: Option<Seq<Seq<char>>>,
    pub watch_extra: Seq<Seq<char>>,
}

pub open spec fn opt_strings_view(o: Option<Vec<String>>) -> Option<Seq<Seq<char>>> {
    match o {
        Some(v) => Some(strings_view(v@)),
        None => None,
    }
}

impl View for Resolved {
    type V = ResolvedModel;

    open spec fn view(&self) -> ResolvedModel {
        ResolvedModel {
            theme: self.theme@,
            graph: self.graph@,
            graph_fade: self.graph_fade,
            view: self.view,
            tab: self.tab,
            smart_interval_secs: self.smart_interval_secs,
            temp_unit: self.temp_unit,
            visible_columns: self.visible_columns.0,
            watch_replace: opt_strings_view(self.watch_replace),
            watch_extra: strings_view(self.watch_extra@),
        }
    }
}

/// The first of the options that holds a value, else `d`.
pub open spec fn first_of<T>(a: Option<T>, b: Option<T>, d: T) -> T {
    match a {
        Some(x) => x,
        None => match b {
            Some(x) => x,
            None => d,
        },
    }
}

/// `--view` if it names a view, then `--dense`, then `--lite`, then the
/// file, then full.
pub open spec fn resolved_view(cli_view: Option<Seq<char>>, dense: bool, lite: bool, file: Option<ViewMode>) -> ViewMode {
    let named = match cli_view {
        Some(s) => view_mode_named(s),
        None => None,
    };
    match named {
        Some(m) => m,
        None => if dense {
            ViewMode::Dense
        } else if lite {
            ViewMode::Lite
        } else {
            first_of(file, None, ViewMode::Full)
        },
    }
}

/// `--tab` if it names a tab, then the file, then the overview.
pub open spec fn resolved_tab(cli_tab: Option<Seq<char>>, file: Option<TabId>) -> TabId {
    let named = match cli_tab {
        Some(s) => tab_named(s),
        None => None,
    };
    first_of(named, file, TabId::Overview)
}

/// The replacement roots: `--watch`, then the environment, then the file.
pub open spec fn resolved_replace(
    watch: Seq<Seq<char>>,
    env: Option<Seq<Seq<char>>>,
    file: Option<Seq<Seq<char>>>,
    home: Option<Seq<char>>,
) -> Option<Seq<Seq<char>>> {
    if watch.len() > 0 {
        Some(expand_all(watch, home))
    } else {
        match env {
            Some(e) => Some(e),
            None => file,
        }
    }
}

/// The additional roots: `--watch-add` if given, else the file's.
pub open spec fn resolved_extra(watch_add: Seq<Seq<char>>, file: Seq<Seq<char>>, home: Option<Seq<char>>) -> Seq<Seq<char>> {
    if watch_add.len() > 0 {
        expand_all(watch_add, home)
    } else {
        file
    }
}

/// The gradient: on with `--graph-fade`, off with `--no-graph-fade`, else
/// what the file says, else off.
pub open spec fn resolved_fade(on: bool, off: bool, file: Option<bool>) -> bool {
    if on {
        true
    } else if off {
        false
    } else {
        first_of(file, None, false)
    }
}

/// The settings the three sources give together.
pub open spec fn resolution(cli: CliArgs, cfg: ConfigModel, env: Option<Seq<Seq<char>>>, home: Option<Seq<char>>) -> ResolvedModel {
    ResolvedModel {
        theme: first_of(opt_view(cli.theme), cfg.theme, "terminal"@),
        graph: first_of(opt_view(cli.graph), cfg.graph, "bars"@),
        graph_fade: resolved_fade(cli.graph_fade, cli.no_graph_fade, cfg.graph_fade),
        view: resolved_view(opt_view(cli.view), cli.dense, cli.lite, cfg.view),
        tab: resolved_tab(opt_view(cli.tab), cfg.tab),
        smart_interval_secs: first_of(cfg.smart_interval_secs, None, DEFAULT_SMART_INTERVAL_SECS),
        temp_unit: first_of(cfg.temp_unit, None, TempUnit::Celsius),
        visible_columns: first_of(cfg.columns, None, VisibleColumns::ALL),
        watch_replace: resolved_replace(strings_view(cli.watch@), env, cfg.watch_paths, home),
        watch_extra: resolved_extra(strings_view(cli.watch_add@), cfg.extra_watch_paths, home),
    }
}

/// A copy of a list of strings.
pub fn copy_strings(v: &Vec<String>) -> (out: Vec<String>)
    ensures
        strings_view(out@) == strings_view(v@),
{
    let mut out: Vec<String> = Vec::new();
    let mut k: usize = 0;
    while k < v.len()
        invariant
            0 <= k <= v@.len(),
            out@.len() == k,
            forall|i: int| 0 <= i < k ==> (#[trigger] out@[i])@ == v@[i]@,
        decreases v@.len() - k,
    {
        out.push(owned(v[k].as_str()));
        k += 1;
    }
    proof {
        assert(strings_view(out@) =~= strings_view(v@));
    }
    out
}

fn copy_opt(o: &Option<String>) -> (r: Option<String>)
    ensures
        opt_view(r) == opt_view(*o),
{
    match o {
        Some(s) => Some(owned(s.as_str())),
        None => None,
    }
}

/// Fold the command line, the environment's replacement roots and the
/// config file into one set of settings; `~` expands against `home`.
pub fn resolve(cli: &CliArgs, cfg: &Config, env_watch: Option<Vec<String>>, home: Option<&str>) -> (r: Resolved)
    ensures
        r@ == resolution(*cli, cfg@, opt_strings_view(env_watch), home_view(home)),
{
    let named_view = match &cli.view {
        Some(s) => ViewMode::from_name(s.as_str()),
        None => None,
    };
    let view = match named_view {
        Some(m) => m,
        None => if cli.dense {
            ViewMode::Dense
        } else if cli.lite {
            ViewMode::Lite
        } else {
            match cfg.view {
                Some(m) => m,
                None => ViewMode::Full,
            }
        },
    };
    let named_tab = match &cli.tab {
        Some(s) => TabId::from_str(s.as_str()),
        None => None,
    };
    let tab = match named_tab {
        Some(t) => t,
        None => match cfg.tab {
            Some(t) => t,
            None => TabId::Overview,
        },
    };
    let watch_replace = if cli.watch.len() > 0 {
        Some(expand_each(&cli.watch, home))
    } else {
        match env_watch {
            Some(e) => Some(e),
            None => match &cfg.watch_paths {
                Some(w) => Some(copy_strings(w)),
                None => None,
            },
        }
    };
    let watch_extra = if cli.watch_add.len() > 0 {
        expand_each(&cli.watch_add, home)
    } else {
        copy_strings(&cfg.extra_watch_paths)
    };
    let theme = match copy_opt(&cli.theme) {
        Some(t) => t,
        None => match copy_opt(&cfg.theme) {
            Some(t) => t,
            None => owned(crate::ui::theme::DEFAULT_THEME),
        },
    };
    let graph = match copy_opt(&cli.graph) {
        Some(g) => g,
        None => match copy_opt(&cfg.graph) {
            Some(g) => g,
            None => owned("bars"),
        },
    };
    let graph_fade = if cli.graph_fade {
        true
    } else if cli.no_graph_fade {
        false
    } else {
        match cfg.graph_fade {
            Some(b) => b,
            None => false,
        }
    };
    Resolved {
        theme,
        graph,
        graph_fade,
        view,
        tab,
        smart_interval_secs: match cfg.smart_interval_secs {
            Some(n) => n,
            None => DEFAULT_SMART_INTERVAL_SECS,
        },
        temp_unit: match cfg.temp_unit {
            Some(u) => u,
            None => TempUnit::Celsius,
        },
        visible_columns: match cfg.columns {
            Some(c) => c,
            None => VisibleColumns(VisibleColumns::ALL),
        },
        watch_replace,
        watch_extra,
    }
}

} // verus!

verus! {

/// The pieces of `ps` that hold more than whitespace, in order.
pub open spec fn nonblank(ps: Seq<Seq<char>>) -> Seq<Seq<char>>
    decreases ps.len(),
{
    if ps.len() == 0 {
        Seq::empty()
    } else {
        let r = nonblank(ps.drop_last());
        if trim(ps.last()).len() > 0 {
            r.push(ps.last())
        } else {
            r
        }
    }
}

/// Replacement roots from a colon-separated list, as `PATH` separates
/// them: blank entries are dropped, so a trailing colon is harmless, and a
/// list with nothing left in it says nothing.
pub open spec fn env_watch(raw: Option<Seq<char>>, home: Option<Seq<char>>) -> Option<Seq<Seq<char>>> {
    match raw {
        None => None,
        Some(r) => {
            let ps = expand_all(nonblank(split(r, ':')), home);
            if ps.len() == 0 {
                None
            } else {
                Some(ps)
            }
        },
    }
}

/// The roots a colon-separated environment value names, if any.
pub fn env_watch_paths(raw: Option<&str>, home: Option<&str>) -> (r: Option<Vec<String>>)
    ensures
        opt_strings_view(r) == env_watch(home_view(raw), home_view(home)),
{
    let raw = match raw {
        Some(s) => s,
        None => return None,
    };
    let v = to_chars(raw);
    let parts = split_ranges(&v, 0, v.len(), ':');
    let ghost ps = split(raw@, ':');
    proof {
        assert(v@.subrange(0, v@.len() as int) =~= v@);
    }
    let mut out: Vec<String> = Vec::new();
    let mut k: usize = 0;
    while k < parts.len()
        invariant
            v@ == raw@,
            ps == split(raw@, ':'),
            ranges_in(parts@, v@.len()),
            ranges_view(v@, parts@) == ps,
            0 <= k <= parts@.len(),
            out@.len() == nonblank(ps.take(k as int)).len(),
            strings_view(out@) == expand_all(nonblank(ps.take(k as int)), home_view(home)),
        decreases parts@.len() - k,
    {
        let (a, b) = parts[k];
        proof {
            assert(ps.take(k + 1).drop_last() =~= ps.take(k as int));
            assert(parts@[k as int].0 <= parts@[k as int].1);
            assert(ps[k as int] == v@.subrange(a as int, b as int));
        }
        let (ta, tb) = crate::text::trim_range(&v, a, b);
        if ta < tb {
            let piece = crate::text::string_of(&v, a, b);
            let e = crate::config::expand_path(piece.as_str(), home);
            proof {
                let prev = nonblank(ps.take(k as int));
                assert(nonblank(ps.take(k + 1)) == prev.push(ps[k as int]));
                let next = expand_all(prev.push(ps[k as int]), home_view(home));
                assert(out@.len() == prev.len());
                assert forall|i: int| 0 <= i < out@.len() + 1 implies #[trigger] strings_view(out@.push(e))[i] == next[i] by {
                    if i < out@.len() {
                        assert(strings_view(out@)[i] == expand_all(prev, home_view(home))[i]);
                    }
                }
                assert(strings_view(out@.push(e)) =~= next);
            }
            out.push(e);
        }
        k += 1;
    }
    proof {
        assert(ps.take(ps.len() as int) =~= ps);
    }
    if out.len() == 0 {
        None
    } else {
        Some(out)
    }
}

} // verus!

verus! {

/// A command line that says nothing.
pub open spec fn no_flags(cli: CliArgs) -> bool {
    &&& cli.tab is None
    &&& cli.theme is None
    &&& cli.graph is None
    &&& !cli.graph_fade
    &&& !cli.no_graph_fade
    &&& !cli.lite
    &&& !cli.dense
    &&& cli.view is None
    &&& cli.watch@.len() == 0
    &&& cli.watch_add@.len() == 0
}

/// A flag typed just now beats an environment variable, which beats the
/// config file, which beats the built-in default.
pub proof fn law_a_flag_beats_the_file(cli: CliArgs, cfg: ConfigModel, env: Option<Seq<Seq<char>>>, home: Option<Seq<char>>)
    ensures
        ({
            let r = resolution(cli, cfg, env, home);
            &&& cli.theme matches Some(t) ==> r.theme == t@
            &&& cli.theme is None ==> (cfg.theme matches Some(t) ==> r.theme == t)
            &&& cli.graph matches Some(g) ==> r.graph == g@
            &&& cli.graph is None ==> (cfg.graph matches Some(g) ==> r.graph == g)
            &&& cli.graph_fade ==> r.graph_fade
            &&& cli.no_graph_fade && !cli.graph_fade ==> !r.graph_fade
            &&& cli.dense && opt_view(cli.view) is None ==> r.view == ViewMode::Dense
            &&& cli.tab matches Some(t) ==> (tab_named(t@) matches Some(id) ==> r.tab == id)
            &&& cli.watch@.len() > 0 ==> r.watch_replace == Some(expand_all(strings_view(cli.watch@), home))
            &&& cli.watch@.len() == 0 && env is Some ==> r.watch_replace == env
            &&& cli.watch@.len() == 0 && env is None ==> r.watch_replace == cfg.watch_paths
            &&& cli.watch_add@.len() > 0 ==> r.watch_extra == expand_all(strings_view(cli.watch_add@), home)
        }),
{
}

/// With nothing on the command line, nothing in the environment and no
/// file, every setting is its built-in default.
pub proof fn law_nothing_said_means_the_defaults(cli: CliArgs, home: Option<Seq<char>>)
    requires
        no_flags(cli),
    ensures
        resolution(cli, crate::config::empty_model(), None, home) == (ResolvedModel {
            theme: "terminal"@,
            graph: "bars"@,
            graph_fade: false,
            view: ViewMode::Full,
            tab: TabId::Overview,
            smart_interval_secs: DEFAULT_SMART_INTERVAL_SECS,
            temp_unit: TempUnit::Celsius,
            visible_columns: VisibleColumns::ALL,
            watch_replace: None,
            watch_extra: Seq::empty(),
        }),
{
    assert(strings_view(cli.watch_add@) =~= Seq::<Seq<char>>::empty());
}

} // verus!
