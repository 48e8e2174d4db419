use diskwatch::app::{TempUnit, ViewMode, VisibleColumns};
use diskwatch::config::{
    default_file_contents, expand_path, parse_array, strip_comment, validate_graph, validate_tab,
    validate_theme, validate_view, Config,
};
use diskwatch::tabs::TabId;

#[test]
fn a_full_file_parses_into_every_setting() {
    let cfg = Config::parse(
        r#"
            # a comment
            theme = "nord"
            graph = "dots"
            graph_fade = true
            view = "dense"
            tab = "hot"
            smart_interval_secs = 30
            temp_unit = "fahrenheit"
            columns = ["size", "temp"]
            watch_paths = ["/var/log", "/srv"]
            extra_watch_paths = ["/opt"]
            "#,
        None,
    );
    assert!(cfg.warnings.is_empty(), "{:?}", cfg.warnings);
    assert_eq!(cfg.theme.as_deref(), Some("nord"));
    assert_eq!(cfg.graph.as_deref(), Some("dots"));
    assert_eq!(cfg.graph_fade, Some(true));
    assert_eq!(cfg.view, Some(ViewMode::Dense));
    assert_eq!(cfg.tab, Some(TabId::Hot));
    assert_eq!(cfg.smart_interval_secs, Some(30));
    assert_eq!(cfg.temp_unit, Some(TempUnit::Fahrenheit));
    assert_eq!(
        cfg.columns,
        Some(VisibleColumns(VisibleColumns::SIZE | VisibleColumns::TEMP))
    );
    assert_eq!(
        cfg.watch_paths,
        Some(vec!["/var/log".to_string(), "/srv".to_string()])
    );
    assert_eq!(cfg.extra_watch_paths, vec!["/opt".to_string()]);
}

#[test]
fn a_bad_line_is_reported_and_the_rest_of_the_file_still_applies() {
    let cfg = Config::parse(
        r#"
            theme = "not-a-theme"
            graph = "dots"
            nonsense = 1
            smart_interval_secs = 1
            "#,
        None,
    );
    assert_eq!(cfg.graph.as_deref(), Some("dots"), "good lines still apply");
    assert_eq!(cfg.theme, None, "the bad value is not smuggled through");
    assert_eq!(cfg.warnings.len(), 3, "{:?}", cfg.warnings);
    for w in &cfg.warnings {
        assert!(w.starts_with("line "), "unlocated warning: {w}");
    }
    assert!(
        cfg.warnings.iter().any(|w| w.contains("floor")),
        "{:?}",
        cfg.warnings
    );
    assert_eq!(cfg.smart_interval_secs, None);
}

#[test]
fn an_unknown_key_lists_the_known_ones() {
    let cfg = Config::parse("watchpaths = [\"/a\"]\n", None);
    assert_eq!(cfg.warnings.len(), 1);
    assert!(
        cfg.warnings[0].contains("watch_paths"),
        "the near-miss should be in the list: {}",
        cfg.warnings[0]
    );
}

#[test]
fn comments_and_strings_do_not_eat_each_other() {
    assert_eq!(strip_comment("a = 1 # trailing"), "a = 1 ");
    assert_eq!(
        strip_comment(r#"watch_paths = ["/tmp/#scratch"] # real"#),
        r#"watch_paths = ["/tmp/#scratch"] "#
    );
    let cfg = Config::parse(r#"watch_paths = ["/tmp/#scratch"] # real"#, None);
    assert!(cfg.warnings.is_empty(), "{:?}", cfg.warnings);
    assert_eq!(cfg.watch_paths, Some(vec!["/tmp/#scratch".to_string()]));
}

#[test]
fn arrays_split_on_commas_outside_strings_only() {
    assert_eq!(
        parse_array(r#"["a,b", "c"]"#),
        Some(vec!["a,b".to_string(), "c".to_string()])
    );
    assert_eq!(parse_array("[]"), Some(Vec::new()));
    assert_eq!(parse_array("[a]"), None, "unquoted elements are rejected");
    assert_eq!(parse_array(r#"["a",]"#), None, "trailing comma is rejected");
}

#[test]
fn an_empty_column_list_hides_every_column() {
    let cfg = Config::parse("columns = []\n", None);
    assert!(cfg.warnings.is_empty(), "{:?}", cfg.warnings);
    assert_eq!(cfg.columns, Some(VisibleColumns(0)));
    assert_eq!(Config::parse("", None).columns, None);
}

#[test]
fn tables_are_rejected_with_an_explanation_rather_than_ignored() {
    let cfg = Config::parse("[general]\ntheme = \"nord\"\n", None);
    assert_eq!(cfg.warnings.len(), 1);
    assert!(cfg.warnings[0].contains("top level"), "{:?}", cfg.warnings);
    assert_eq!(cfg.theme.as_deref(), Some("nord"));
}

#[test]
fn a_leading_tilde_expands_but_nothing_else_does() {
    let home = Some("/home/someone");
    assert_eq!(expand_path("~/src", home), "/home/someone/src");
    assert_eq!(expand_path("$HOME/src", home), "/home/someone/src");
    assert_eq!(expand_path("~", home), "/home/someone");
    assert_eq!(expand_path("/a/~/b", home), "/a/~/b");
    assert_eq!(expand_path("$(whoami)", home), "$(whoami)");
    assert_eq!(expand_path("~/src", None), "~/src");
}

#[test]
fn unquoted_strings_are_rejected_so_the_file_stays_valid_toml() {
    let cfg = Config::parse("theme = dark\n", None);
    assert_eq!(cfg.theme, None);
    assert_eq!(cfg.warnings.len(), 1);
    assert!(cfg.warnings[0].contains("quoted"), "{:?}", cfg.warnings);
}

#[test]
fn every_warning_names_its_line_number() {
    let cfg = Config::parse("\n\nbogus\nview = \"sideways\"\n", None);
    assert_eq!(
        cfg.warnings,
        vec![
            "line 3: expected `key = value`".to_string(),
            "line 4: unknown view \"sideways\" (available: full, lite, dense)".to_string(),
        ]
    );
}

#[test]
fn each_value_error_has_its_own_words() {
    let cfg = Config::parse(
        "graph_fade = maybe\nsmart_interval_secs = -3\ntemp_unit = \"Kelvin\"\ncolumns = [\"size\", \"speed\"]\ntheme =\n",
        None,
    );
    assert_eq!(
        cfg.warnings,
        vec![
            "line 1: `graph_fade` expects true or false".to_string(),
            "line 2: `smart_interval_secs` expects a positive integer".to_string(),
            "line 3: unknown temp_unit \"kelvin\" (expected celsius or fahrenheit)".to_string(),
            "line 4: unknown column \"speed\" (available: size, free, used_pct, temp, smart)".to_string(),
            "line 5: `theme` has no value".to_string(),
        ]
    );
    assert_eq!(cfg.columns, Some(VisibleColumns(VisibleColumns::SIZE)));
}

#[test]
fn the_floor_warning_states_the_floor() {
    let cfg = Config::parse("smart_interval_secs = 4\n", None);
    assert_eq!(
        cfg.warnings,
        vec!["line 1: `smart_interval_secs` = 4 is below the 5s floor; polling faster than that issues more than one smartctl per second per disk".to_string()]
    );
    assert_eq!(Config::parse("smart_interval_secs = 5\n", None).smart_interval_secs, Some(5));
}

#[test]
fn escapes_inside_strings_are_resolved() {
    let cfg = Config::parse("extra_watch_paths = [\"a\\\"b\", \"c\\\\d\"]\n", None);
    assert!(cfg.warnings.is_empty(), "{:?}", cfg.warnings);
    assert_eq!(cfg.extra_watch_paths, vec!["a\"b".to_string(), "c\\d".to_string()]);
}

#[test]
fn watch_paths_expand_against_the_given_home() {
    let cfg = Config::parse("watch_paths = [\"~/src\", \"/var\"]\n", Some("/home/u"));
    assert_eq!(
        cfg.watch_paths,
        Some(vec!["/home/u/src".to_string(), "/var".to_string()])
    );
}

#[test]
fn validators_accept_built_ins_and_name_the_alternatives() {
    assert_eq!(validate_theme("Nord"), Ok("Nord".to_string()));
    assert_eq!(validate_theme("dark"), Ok("dark".to_string()));
    assert_eq!(
        validate_theme("neon"),
        Err("unknown theme \"neon\" (available: dark, light, ocean, solarized, dracula, nord, terminal)".to_string())
    );
    assert_eq!(validate_graph("braille"), Ok("braille".to_string()));
    assert_eq!(
        validate_graph("lines"),
        Err("unknown graph style \"lines\" (available: bars, dots)".to_string())
    );
    assert_eq!(validate_view("lite"), Ok("lite".to_string()));
    assert!(validate_view("compact").is_err());
    assert_eq!(validate_tab("hot"), Ok("hot".to_string()));
    assert_eq!(
        validate_tab("hto"),
        Err("unknown tab \"hto\" (available: overview, devices, volumes, fs, io, smart, hot, insights)".to_string())
    );
}

#[test]
fn the_default_file_documents_the_defaults() {
    let text = default_file_contents();
    let cfg = Config::parse(&text, None);
    assert!(cfg.warnings.is_empty(), "{:?}", cfg.warnings);
    assert_eq!(cfg.theme.as_deref(), Some("terminal"));
    assert_eq!(cfg.graph.as_deref(), Some("bars"));
    assert_eq!(cfg.smart_interval_secs, Some(300));
    assert_eq!(cfg.columns, Some(VisibleColumns(VisibleColumns::ALL)));
    assert_eq!(cfg.watch_paths, None);
}

#[test]
fn a_bad_line_in_the_middle_costs_only_itself() {
    let with = Config::parse("theme = \"nord\"\nbogus = 1\ngraph = \"dots\"\ntab = \"io\"\n", None);
    let without = Config::parse("theme = \"nord\"\ngraph = \"dots\"\ntab = \"io\"\n", None);
    assert_eq!(with.theme, without.theme);
    assert_eq!(with.graph, without.graph);
    assert_eq!(with.tab, without.tab);
    assert_eq!(with.graph.as_deref(), Some("dots"));
    assert_eq!(with.warnings.len(), without.warnings.len() + 1);
    assert!(with.warnings[0].starts_with("line 2"));
}
