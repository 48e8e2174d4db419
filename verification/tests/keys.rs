use diskwatch::app::{
    border_hints, settings_value_w, TickClock, view_mode_names, Key, KeyContext, LiveState, TempUnit, UiState, ViewMode,
    SETTINGS_ROWS,
};
use diskwatch::tabs::TabId;
use diskwatch::ui::dense::FileSort;
use diskwatch::ui::graph;
use diskwatch::ui::rect::Rect;
use diskwatch::ui::theme::{self, theme_names};

fn ctx() -> KeyContext {
    KeyContext {
        device_count: 3,
        fs_count: 2,
        lite_matches: 5,
        dense_matches: 5,
        last_area: Rect::new(0, 0, 130, 44),
    }
}

fn press(app: &mut UiState, key: Key) {
    app.handle_key(key, &ctx());
}

#[test]
fn settings_rows_match_their_action_dispatch() {
    let mut app = UiState::new(TabId::Overview, ViewMode::Full);
    app.show_settings = true;
    app.settings_cursor = SETTINGS_ROWS - 1;
    let before = graph::fade_enabled(&app.graph);
    press(&mut app, Key::Char(' '));
    assert_ne!(
        graph::fade_enabled(&app.graph),
        before,
        "the last settings row is unreachable — SETTINGS_ROWS and the dispatch arms have drifted apart"
    );
}

#[test]
fn settings_values_fit_their_column() {
    let mut app = UiState::new(TabId::Overview, ViewMode::Full);
    let budget = settings_value_w() as usize;
    for name in theme_names() {
        theme::set_by_name(&mut app.theme, name);
        for unit in [TempUnit::Celsius, TempUnit::Fahrenheit] {
            app.temp_unit = unit;
            for fade in [true, false] {
                graph::set_fade(&mut app.graph, fade);
                for (label, value) in app.settings_rows() {
                    assert!(
                        value.chars().count() <= budget,
                        "settings value {value:?} for {label:?} is {} cols, but the column is {budget}",
                        value.chars().count()
                    );
                }
            }
        }
    }
}

#[test]
fn settings_row_count_matches_the_rendered_rows() {
    let app = UiState::new(TabId::Overview, ViewMode::Full);
    assert_eq!(app.settings_rows().len(), SETTINGS_ROWS);
}

#[test]
fn graph_style_survives_a_round_trip_through_the_settings_overlay() {
    let mut app = UiState::new(TabId::Overview, ViewMode::Full);
    app.show_settings = true;
    let start = graph::name(&app.graph);
    app.settings_cursor = SETTINGS_ROWS - 2;
    press(&mut app, Key::Char(' '));
    assert_ne!(graph::name(&app.graph), start);
    press(&mut app, Key::Char(' '));
    assert_eq!(graph::name(&app.graph), start);
}

#[test]
fn dense_key_surface_does_not_leak_into_the_full_tui() {
    let mut app = UiState::new(TabId::Overview, ViewMode::Dense);
    press(&mut app, Key::Char('3'));
    assert_eq!(app.active_tab, TabId::Overview);
    let before = app.dense.sort;
    press(&mut app, Key::Char('s'));
    assert_ne!(app.dense.sort, before);
}

#[test]
fn v_cycles_every_view_and_returns_to_where_it_started() {
    for start in [ViewMode::Full, ViewMode::Lite, ViewMode::Dense] {
        let mut app = UiState::new(TabId::Overview, start);
        let mut seen = vec![app.view];
        for _ in 0..view_mode_names().len() {
            press(&mut app, Key::Char('V'));
            seen.push(app.view);
        }
        assert_eq!(app.view, start, "V did not return to {start:?}");
        assert_eq!(seen.len() - 1, view_mode_names().len(), "the cycle skipped a view");
        for m in [ViewMode::Full, ViewMode::Lite, ViewMode::Dense] {
            assert!(seen.contains(&m), "{m:?} is unreachable from {start:?}");
        }
    }
    let mut app = UiState::new(TabId::Overview, ViewMode::Full);
    press(&mut app, Key::Char('v'));
    assert_eq!(app.view, ViewMode::Lite);
}

#[test]
fn the_settings_menu_reaches_the_views_and_names_them_as_the_cli_does() {
    let mut app = UiState::new(TabId::Overview, ViewMode::Dense);
    press(&mut app, Key::Char(','));
    assert!(app.show_settings, "`,` does not open settings from dense");
    let view_row = app
        .settings_rows()
        .into_iter()
        .position(|(label, _)| label == "View")
        .expect("a View row");
    app.settings_cursor = view_row;
    let before = app.view;
    press(&mut app, Key::Enter);
    assert_ne!(app.view, before, "the View row did not cycle");
    assert!(app.show_settings, "the overlay closed on a cycle");
    assert!(
        view_mode_names().contains(&app.view.name()),
        "{} is not a spelling the CLI accepts",
        app.view.name()
    );
    app.view = ViewMode::Dense;
    let sort = app.dense.sort;
    press(&mut app, Key::Char('s'));
    assert_eq!(app.dense.sort, sort, "a key leaked past the open dialog");
}

#[test]
fn every_key_the_2_0_view_advertises_actually_does_something() {
    let fresh = || UiState::new(TabId::Overview, ViewMode::Dense);

    let mut app = fresh();
    press(&mut app, Key::Char('q'));
    assert!(app.should_quit, "q");

    let mut app = fresh();
    press(&mut app, Key::Char('/'));
    assert!(app.dense.filter_input, "/");

    let mut app = fresh();
    let sort = app.dense.sort;
    press(&mut app, Key::Char('s'));
    assert_ne!(app.dense.sort, sort, "s");

    let mut app = fresh();
    press(&mut app, Key::Char('V'));
    assert_ne!(app.view, ViewMode::Dense, "V");

    let mut app = fresh();
    press(&mut app, Key::Char(','));
    assert!(app.show_settings, ",");

    let mut app = fresh();
    press(&mut app, Key::Char('?'));
    assert!(app.show_help, "?");

    let mut app = fresh();
    press(&mut app, Key::Down);
    press(&mut app, Key::End);
    let count = ctx().dense_matches;
    assert!(app.dense.selected < count.max(1), "↑↓ left the list");
    assert_eq!(app.dense.selected, count - 1);
}

#[test]
fn dense_filter_captures_printable_keys() {
    let mut app = UiState::new(TabId::Overview, ViewMode::Dense);
    press(&mut app, Key::Char('/'));
    let sort = app.dense.sort;
    for c in "syslog".chars() {
        press(&mut app, Key::Char(c));
    }
    assert_eq!(app.dense.filter_text, "syslog");
    assert_eq!(app.dense.sort, sort, "sort changed while typing a filter");
    press(&mut app, Key::Esc);
    assert!(app.dense.filter_text.is_empty());
}

#[test]
fn dense_esc_unwinds_the_filter_before_it_quits() {
    let mut app = UiState::new(TabId::Overview, ViewMode::Dense);
    app.dense.filter_text = "log".into();
    press(&mut app, Key::Esc);
    assert!(app.dense.filter_text.is_empty());
    assert!(!app.should_quit);
    press(&mut app, Key::Esc);
    assert!(app.should_quit);
}

#[test]
fn lite_key_surface_does_not_leak_into_the_full_tui() {
    let mut app = UiState::new(TabId::Overview, ViewMode::Lite);
    press(&mut app, Key::Char('3'));
    assert_eq!(app.active_tab, TabId::Overview);
    assert_eq!(app.view, ViewMode::Lite);
    press(&mut app, Key::Char('L'));
    assert_eq!(app.view, ViewMode::Full);
    press(&mut app, Key::Char('L'));
    assert_eq!(app.view, ViewMode::Lite);
}

#[test]
fn lite_filter_captures_printable_keys() {
    let mut app = UiState::new(TabId::Overview, ViewMode::Lite);
    press(&mut app, Key::Char('/'));
    press(&mut app, Key::Char('p'));
    press(&mut app, Key::Char('q'));
    assert_eq!(app.lite.filter_text, "pq");
    assert_eq!(app.live, LiveState::Live, "p must not have paused");
    assert!(!app.should_quit, "q must not have quit");
    press(&mut app, Key::Backspace);
    assert_eq!(app.lite.filter_text, "p");
}

#[test]
fn lite_esc_unwinds_one_layer_at_a_time() {
    let mut app = UiState::new(TabId::Overview, ViewMode::Lite);
    app.lite.filter_text = "log".into();
    app.lite.detail_open = true;
    press(&mut app, Key::Esc);
    assert!(!app.lite.detail_open, "first Esc closes detail");
    assert_eq!(app.lite.filter_text, "log", "and leaves the filter");
    press(&mut app, Key::Esc);
    assert!(app.lite.filter_text.is_empty(), "second Esc clears filter");
    assert!(!app.should_quit, "and still does not quit");
    press(&mut app, Key::Esc);
    assert!(app.should_quit, "third Esc, with nothing open, quits");
}

#[test]
fn number_keys_pick_tabs_in_the_full_view() {
    let mut app = UiState::new(TabId::Overview, ViewMode::Full);
    press(&mut app, Key::Char('3'));
    assert_eq!(app.active_tab, TabId::Volumes);
    press(&mut app, Key::Tab);
    assert_eq!(app.active_tab, TabId::Fs);
    press(&mut app, Key::Char('p'));
    assert_eq!(app.live, LiveState::Paused);
    press(&mut app, Key::Char('q'));
    assert!(app.should_quit);
}

#[test]
fn any_key_dismisses_help_without_acting() {
    let mut app = UiState::new(TabId::Overview, ViewMode::Full);
    press(&mut app, Key::Char('?'));
    assert!(app.show_help);
    press(&mut app, Key::Char('3'));
    assert!(!app.show_help);
    assert_eq!(app.active_tab, TabId::Overview, "the key only closed help");
    press(&mut app, Key::Char('?'));
    press(&mut app, Key::Esc);
    assert!(!app.show_help);
    assert!(!app.should_quit, "Esc closes help before it quits");
    press(&mut app, Key::Char('?'));
    press(&mut app, Key::Char('Q'));
    assert!(app.should_quit, "Q quits from behind help");
}

#[test]
fn sorting_walks_the_three_orders() {
    let mut app = UiState::new(TabId::Overview, ViewMode::Dense);
    assert_eq!(app.dense.sort, FileSort::Rate);
    press(&mut app, Key::Char('s'));
    assert_eq!(app.dense.sort, FileSort::Total);
    press(&mut app, Key::Char('s'));
    assert_eq!(app.dense.sort, FileSort::Name);
    press(&mut app, Key::Char('s'));
    assert_eq!(app.dense.sort, FileSort::Rate);
}

#[test]
fn the_tick_reads_usage_each_second_and_devices_every_thirty() {
    let mut c = TickClock::new(0);
    let p = c.plan(LiveState::Live, 200);
    assert!(p.sample_io && p.smart && !p.refresh_usage && !p.refresh_metadata);
    assert!(c.plan(LiveState::Live, 1_000).refresh_usage);
    assert!(!c.plan(LiveState::Live, 1_500).refresh_usage, "at most once a second");
    assert!(c.plan(LiveState::Live, 30_000).refresh_metadata);
    let paused = c.plan(LiveState::Paused, 90_000);
    assert!(!paused.sample_io && !paused.refresh_usage && !paused.refresh_metadata && !paused.smart);
    assert!(c.plan(LiveState::Live, 90_000).refresh_metadata, "a pause does not use up a refresh");
}

#[test]
fn the_io_counters_are_sampled_once_a_sample_interval() {
    let mut c = TickClock::new(0);
    assert!(c.plan(LiveState::Live, 0).sample_io, "the first live tick samples");
    assert!(!c.plan(LiveState::Live, 150).sample_io, "not again within 200 ms");
    assert!(c.plan(LiveState::Live, 200).sample_io);
    assert!(!c.plan(LiveState::Paused, 1_000).sample_io);
    assert!(c.plan(LiveState::Live, 1_000).sample_io);
}

#[test]
fn the_dense_borders_print_the_keys_it_binds() {
    let wide: Vec<String> = border_hints(true).iter().map(|(k, c)| format!("{k}{c}")).collect();
    assert_eq!(wide, vec!["quit", "\u{2191}\u{2193} select", "/ filter", "sort", "V view", "? help", ", settings"]);
    let narrow: Vec<&str> = border_hints(false).iter().map(|(k, _)| *k).collect();
    assert_eq!(narrow, vec!["q", "/", "s", "V", ","]);
}
