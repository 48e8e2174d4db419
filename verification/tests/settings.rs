use diskwatch::app::{TempUnit, ViewMode, VisibleColumns, DEFAULT_SMART_INTERVAL_SECS};
use diskwatch::config::{default_file_contents, validate_tab, Config};
use diskwatch::settings::{env_watch_paths, resolve, CliArgs, Resolved};
use diskwatch::tabs::TabId;
use diskwatch::ui::theme::{by_name, DEFAULT_THEME};

/// The command line, read from the flags the binary takes.
fn cli(args: &[&str]) -> CliArgs {
    let mut c = CliArgs {
        tab: None,
        theme: None,
        graph: None,
        graph_fade: false,
        no_graph_fade: false,
        lite: false,
        dense: false,
        view: None,
        watch: Vec::new(),
        watch_add: Vec::new(),
    };
    let mut i = 0;
    while i < args.len() {
        let value = || args[i + 1].to_string();
        match args[i] {
            "--tab" => { c.tab = Some(value()); i += 1; }
            "--theme" => { c.theme = Some(value()); i += 1; }
            "--graph" => { c.graph = Some(value()); i += 1; }
            "--view" => { c.view = Some(value()); i += 1; }
            "--watch" => { c.watch.push(value()); i += 1; }
            "--watch-add" => { c.watch_add.push(value()); i += 1; }
            "--graph-fade" => c.graph_fade = true,
            "--no-graph-fade" => c.no_graph_fade = true,
            "--lite" => c.lite = true,
            "--dense" => c.dense = true,
            other => panic!("unknown flag {other}"),
        }
        i += 1;
    }
    c
}

fn defaults(args: &[&str]) -> Resolved {
    resolve(&cli(args), &Config::default(), None, None)
}

#[test]
fn default_theme_defers_to_the_terminal() {
    assert_eq!(defaults(&[]).theme, "terminal");
    assert_eq!(by_name(&defaults(&[]).theme).name(), "terminal");
}

#[test]
fn the_designed_palette_is_still_one_flag_away() {
    assert_eq!(defaults(&["--theme", "dark"]).theme, "dark");
    assert_eq!(by_name(&defaults(&["--theme", "dark"]).theme).name(), "dark");
}

#[test]
fn the_fallback_comes_from_the_shared_constant() {
    assert_eq!(defaults(&[]).theme, DEFAULT_THEME);
}

#[test]
fn a_flag_beats_the_config_file() {
    let cfg = Config {
        theme: Some("nord".into()),
        view: Some(ViewMode::Lite),
        tab: Some(TabId::Io),
        ..Config::default()
    };
    let r = resolve(&cli(&["--theme", "dark", "--dense", "--tab", "smart"]), &cfg, None, None);
    assert_eq!(r.theme, "dark");
    assert_eq!(r.view, ViewMode::Dense);
    assert_eq!(r.tab, TabId::Smart);
}

#[test]
fn the_config_file_applies_when_no_flag_contradicts_it() {
    let cfg = Config {
        theme: Some("nord".into()),
        graph: Some("dots".into()),
        graph_fade: Some(true),
        view: Some(ViewMode::Dense),
        tab: Some(TabId::Hot),
        smart_interval_secs: Some(30),
        temp_unit: Some(TempUnit::Fahrenheit),
        columns: Some(VisibleColumns(VisibleColumns::SIZE)),
        ..Config::default()
    };
    let r = resolve(&cli(&[]), &cfg, None, None);
    assert_eq!(r.theme, "nord");
    assert_eq!(r.graph, "dots");
    assert!(r.graph_fade);
    assert_eq!(r.view, ViewMode::Dense);
    assert_eq!(r.tab, TabId::Hot);
    assert_eq!(r.smart_interval_secs, 30);
    assert_eq!(r.temp_unit, TempUnit::Fahrenheit);
    assert_eq!(r.visible_columns, VisibleColumns(VisibleColumns::SIZE));
}

#[test]
fn the_gradient_can_be_turned_off_against_a_config_that_turns_it_on() {
    let cfg = Config {
        graph_fade: Some(true),
        ..Config::default()
    };
    assert!(resolve(&cli(&[]), &cfg, None, None).graph_fade);
    assert!(!resolve(&cli(&["--no-graph-fade"]), &cfg, None, None).graph_fade);
}

#[test]
fn watch_roots_come_from_flag_then_env_then_config() {
    let cfg = Config {
        watch_paths: Some(vec!["/from-config".to_string()]),
        ..Config::default()
    };
    let env = || Some(vec!["/from-env".to_string()]);
    assert_eq!(
        resolve(&cli(&[]), &cfg, None, None).watch_replace,
        Some(vec!["/from-config".to_string()])
    );
    assert_eq!(
        resolve(&cli(&[]), &cfg, env(), None).watch_replace,
        Some(vec!["/from-env".to_string()])
    );
    assert_eq!(
        resolve(&cli(&["--watch", "/from-flag"]), &cfg, env(), None).watch_replace,
        Some(vec!["/from-flag".to_string()])
    );
}

#[test]
fn watch_flags_are_repeatable_and_the_additive_form_keeps_the_defaults() {
    let r = defaults(&["--watch", "/a", "--watch", "/b"]);
    assert_eq!(r.watch_replace, Some(vec!["/a".to_string(), "/b".to_string()]));
    let r = defaults(&["--watch-add", "/c"]);
    assert_eq!(r.watch_replace, None, "the defaults are untouched");
    assert_eq!(r.watch_extra, vec!["/c".to_string()]);
}

#[test]
fn an_unknown_tab_is_rejected_rather_than_silently_ignored() {
    assert!(validate_tab("hto").is_err());
    assert_eq!(defaults(&["--tab", "hot"]).tab, TabId::Hot);
}

#[test]
fn the_generated_config_parses_without_warnings() {
    let cfg = Config::parse(&default_file_contents(), None);
    assert!(
        cfg.warnings.is_empty(),
        "the file we write should be a file we can read: {:?}",
        cfg.warnings
    );
    let r = resolve(&cli(&[]), &cfg, None, None);
    assert_eq!(r, defaults(&[]));
}

#[test]
fn nothing_said_means_every_default() {
    let r = defaults(&[]);
    assert_eq!(r.graph, "bars");
    assert!(!r.graph_fade);
    assert_eq!(r.view, ViewMode::Full);
    assert_eq!(r.tab, TabId::Overview);
    assert_eq!(r.smart_interval_secs, DEFAULT_SMART_INTERVAL_SECS);
    assert_eq!(r.temp_unit, TempUnit::Celsius);
    assert_eq!(r.visible_columns, VisibleColumns(VisibleColumns::ALL));
    assert_eq!(r.watch_replace, None);
    assert!(r.watch_extra.is_empty());
}

#[test]
fn a_view_flag_beats_the_view_shortcuts() {
    assert_eq!(defaults(&["--view", "lite", "--dense"]).view, ViewMode::Lite);
    assert_eq!(defaults(&["--lite", "--dense"]).view, ViewMode::Dense);
    assert_eq!(defaults(&["--lite"]).view, ViewMode::Lite);
}

#[test]
fn the_environment_list_drops_blank_entries() {
    assert_eq!(
        env_watch_paths(Some("/var/log::/srv: "), None),
        Some(vec!["/var/log".to_string(), "/srv".to_string()])
    );
    assert_eq!(env_watch_paths(Some(" : "), None), None);
    assert_eq!(env_watch_paths(None, None), None);
    assert_eq!(
        env_watch_paths(Some("~/data"), Some("/home/u")),
        Some(vec!["/home/u/data".to_string()])
    );
}
