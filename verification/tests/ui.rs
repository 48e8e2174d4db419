use diskwatch::collect::io::{GRAPH_SAMPLE_MS, HISTORY_MS, HISTORY_SECS, LAT_BUCKETS};
use diskwatch::ui::braille::{mantissa_hundredths, Ramp, MANTISSA_HUNDREDTHS};
use diskwatch::tabs::{age_label, display_path};
use diskwatch::ui::chrome::format_uptime;
use diskwatch::ui::dense::{
    self, age, clamp, condense_ranges, secs_label, span_secs, tail_path, topology_note, uptime, FileSort, MIN_FULL_H,
    MIN_FULL_W,
};
use diskwatch::ui::graph::{self, graph_style_names, GraphSettings, GraphStyle};
use diskwatch::ui::lite::{
    self, fields, filter_matches, footer_keys, footer_keys_width, footer_version, spark_bucket, truncate_end,
    truncate_path, Align, CONTENT_W, CONTENT_X, CONTENT_X_END, DETAIL_ROWS, FIELD_GAP, FILE_ROWS,
    GRID_H, GRID_W, ROW_FILES, ROW_FOOTER, ROW_PROMPT, SPARK_W, W_COUNT, W_FILE, W_KIND,
};
use diskwatch::ui::rect::Rect;
use diskwatch::ui::theme::{self, theme_names, ThemeId, DEFAULT_THEME};
use unicode_width::UnicodeWidthStr;

// ── themes ───────────────────────────────────────────────────────────────

#[test]
fn all_builtin_themes_load() {
    for n in theme_names() {
        assert_eq!(theme::by_name(n).name(), n);
    }
}

#[test]
fn unknown_falls_back_to_dark() {
    assert_eq!(theme::by_name("nonsense").name(), "dark");
    assert_eq!(theme::by_name("").name(), "dark");
}

#[test]
fn terminal_theme_accepts_common_aliases() {
    for alias in ["terminal", "system", "ansi", "TERMINAL", "System"] {
        assert_eq!(theme::by_name(alias).name(), "terminal", "alias {alias} failed");
    }
}

#[test]
fn the_theme_cycle_visits_every_theme_and_comes_home() {
    let mut active = theme::by_name(DEFAULT_THEME);
    assert_eq!(active, ThemeId::Terminal);
    let mut seen = vec![theme::name(&active)];
    for _ in 0..theme_names().len() {
        seen.push(theme::cycle(&mut active));
    }
    assert_eq!(theme::name(&active), DEFAULT_THEME);
    for n in theme_names() {
        assert!(seen.contains(&n), "{n} is unreachable by cycling");
    }
    theme::set_by_name(&mut active, "Nord");
    assert_eq!(active, ThemeId::Nord);
}

// ── graph style ──────────────────────────────────────────────────────────

#[test]
fn by_name_falls_back_to_bars_and_accepts_aliases() {
    assert_eq!(graph::by_name("nonsense"), GraphStyle::Bars);
    assert_eq!(graph::by_name(""), GraphStyle::Bars);
    assert_eq!(graph::by_name("bars"), GraphStyle::Bars);
    assert_eq!(graph::by_name("DOTS"), GraphStyle::Dots);
    assert_eq!(graph::by_name("braille"), GraphStyle::Dots);
    assert_eq!(graph::by_name("btop"), GraphStyle::Dots);
}

#[test]
fn name_roundtrips_and_cycle_returns_home() {
    for n in graph_style_names() {
        assert_eq!(graph::by_name(n).name(), n);
    }
    let mut g = GraphSettings::new();
    let start = graph::name(&g);
    graph::cycle(&mut g);
    assert_ne!(graph::name(&g), start);
    graph::cycle(&mut g);
    assert_eq!(graph::name(&g), start, "cycling twice must return to the start");
}

#[test]
fn fade_toggles_without_touching_the_style() {
    let mut g = GraphSettings::new();
    assert!(!graph::fade_enabled(&g));
    graph::set_by_name(&mut g, "dots");
    assert!(graph::toggle_fade(&mut g));
    assert_eq!(graph::active(&g), GraphStyle::Dots);
    graph::set_fade(&mut g, false);
    assert!(!graph::fade_enabled(&g));
}

// ── braille ladder ───────────────────────────────────────────────────────

#[test]
fn ladder_rungs_are_at_most_25_percent_apart() {
    let ladder: Vec<f64> = MANTISSA_HUNDREDTHS.iter().map(|m| *m as f64 / 100.0).collect();
    let mut prev = ladder[0];
    for m in ladder.iter().skip(1) {
        assert!(m / prev <= 1.2501, "rung {prev} → {m} is {:.1}% apart", (m / prev - 1.0) * 100.0);
        prev = *m;
    }
    assert!(10.0 / ladder[ladder.len() - 1] <= 1.2501);
    assert_eq!(mantissa_hundredths(), MANTISSA_HUNDREDTHS.to_vec());
}

// ── dense view ───────────────────────────────────────────────────────────

#[test]
fn the_time_axis_states_the_span_it_actually_draws() {
    let ms = GRAPH_SAMPLE_MS;
    assert_eq!(span_secs(5), 5 * ms / 1000);
    let cols_for_window = HISTORY_SECS * 1000 / ms;
    assert_eq!(span_secs(cols_for_window), HISTORY_SECS);
    assert_eq!(span_secs(120) / 2, 30);
    assert_eq!(secs_label(span_secs(cols_for_window)), "60s");
    assert_eq!(secs_label(span_secs(480)), "4m");
    assert_eq!(GRAPH_SAMPLE_MS, HISTORY_MS);
}

#[test]
fn sparkline_headers_state_the_span_they_draw() {
    assert_eq!(secs_label(HISTORY_SECS), "60s");
    assert_eq!(secs_label(90), "90s");
    assert_eq!(secs_label(300), "5m");
}

#[test]
fn request_size_and_age_read_correctly() {
    assert_eq!(age(5), "5s");
    assert_eq!(age(300), "5m");
    assert_eq!(age(7200), "2h");
}

#[test]
fn uptime_reads_as_days_and_a_clock() {
    assert_eq!(uptime(59), "00:00");
    assert_eq!(uptime(3 * 3600 + 4 * 60), "03:04");
    assert_eq!(uptime(2 * 86400 + 5 * 3600 + 42 * 60), "2d 05:42");
}

#[test]
fn long_paths_lose_their_own_head_not_the_column_beside_them() {
    let s = tail_path("/very/long/path/to/somewhere", 10);
    assert_eq!(s.chars().count(), 10);
    assert!(s.starts_with('…'));
    assert_eq!(clamp("abcdef", 3), "abc");
    assert_eq!(tail_path("short", 10), "short");
}

#[test]
fn the_full_layout_tiles_the_area_exactly() {
    for h in [32u16, 40, 44, 60] {
        for w in [104u16, 130, 200] {
            let area = Rect::new(0, 0, w, h);
            let l = dense::Layout::new(area);
            assert_eq!(l.io.y, 0);
            assert_eq!(l.devices.y, l.io.bottom());
            assert_eq!(l.volumes.y, l.devices.bottom());
            assert_eq!(l.files.y, l.volumes.bottom());
            assert_eq!(l.files.bottom(), h, "{w}x{h} leaves a gap at the bottom");
            assert_eq!(l.devices.width + l.latency.width, w);
            assert_eq!(l.volumes.width + l.smart.width, w);
        }
    }
    assert!(dense::visible_files(Rect::new(0, 0, MIN_FULL_W, MIN_FULL_H)) >= 1);
}

#[test]
fn sort_label_and_sort_column_come_from_the_same_value() {
    for s in [FileSort::Rate, FileSort::Total, FileSort::Name] {
        assert!(!s.label().is_empty());
        assert!(!s.column().is_empty());
    }
    assert_eq!(FileSort::Rate.next().next().next(), FileSort::Rate);
    assert_eq!(FileSort::Rate.column(), "EVENTS/S");
}

// ── lite view ────────────────────────────────────────────────────────────

#[test]
fn fields_tile_to_the_content_edge() {
    let mut prev_end = CONTENT_X - 1;
    for f in fields() {
        assert!(
            f.x > prev_end,
            "field {} starts at col {} but the previous field ends at {}",
            f.header,
            f.x,
            prev_end
        );
        prev_end = f.x_end();
    }
    assert_eq!(prev_end, CONTENT_X_END, "the last field must end exactly on the content edge");
}

#[test]
fn headers_fit_their_columns() {
    for f in fields() {
        assert!(
            f.header.width() as u16 <= f.w,
            "header {} needs {} cols but has {}",
            f.header,
            f.header.width(),
            f.w
        );
    }
    assert_eq!(fields()[2].align, Align::Right);
}

#[test]
fn layout_at_reference_size_matches_spec() {
    let l = lite::Layout::new(Rect::new(0, 0, GRID_W, GRID_H));
    let f = fields();
    assert_eq!(l.content_x, CONTENT_X);
    assert_eq!(l.content_w, CONTENT_W);
    assert_eq!(l.content_x_end(), CONTENT_X_END);
    assert_eq!(l.x_file, f[0].x);
    assert_eq!(l.w_file, f[0].w);
    assert_eq!(l.x_path, f[1].x);
    assert_eq!(l.w_path, f[1].w);
    assert_eq!(l.x_rate, f[2].x);
    assert_eq!(l.x_total, f[3].x);
    assert_eq!(l.x_kind, f[4].x);
    assert_eq!(l.x_spark, f[5].x);
    assert_eq!(l.row_files, ROW_FILES);
    assert_eq!(l.file_rows, FILE_ROWS);
    assert_eq!(l.row_prompt, ROW_PROMPT);
    assert_eq!(l.row_footer, ROW_FOOTER);
}

#[test]
fn history_is_one_sample_per_chart_column() {
    for w in [GRID_W, 100, 160, 240] {
        let l = lite::Layout::new(Rect::new(0, 0, w, GRID_H));
        assert_eq!(l.history_samples(), l.content_w as usize);
    }
}

#[test]
fn layout_widens_the_path_column_only() {
    let l = lite::Layout::new(Rect::new(0, 0, 160, 50));
    assert_eq!(l.w_file, W_FILE);
    assert_eq!(l.x_spark + SPARK_W - 1, l.content_x_end());
    assert_eq!(l.x_spark - (l.x_kind + W_KIND), FIELD_GAP);
    assert_eq!(l.x_kind - (l.x_total + W_COUNT), FIELD_GAP);
    assert_eq!(l.x_total - (l.x_rate + W_COUNT), FIELD_GAP);
    assert!(l.w_path > fields()[1].w, "PATH should absorb the surplus, got {}", l.w_path);
    assert!(l.file_rows > FILE_ROWS);
}

#[test]
fn spark_buckets_tile_the_history() {
    for samples in [1usize, 8, 9, 10, 60, 78, 300] {
        let mut prev_end = 0;
        for i in 0..SPARK_W {
            let b = spark_bucket(i, samples);
            assert!(b.start <= b.end, "bucket {i} inverted for {samples}");
            if i > 0 {
                assert!(b.start <= prev_end, "gap before bucket {i} at {samples} samples");
            }
            prev_end = b.end;
        }
        assert_eq!(prev_end, samples, "the last bucket must reach the newest sample");
    }
}

#[test]
fn footer_fits_the_reference_grid() {
    let version = footer_version();
    let need = footer_keys_width() + 1 + version.width() as u16;
    assert!(need <= CONTENT_W, "footer needs {need} cols but the grid gives {CONTENT_W}");
    assert_eq!(version, "diskwatch 0.2.0");
    assert!(!footer_keys().is_empty());
}

#[test]
fn paths_truncate_from_the_left() {
    let out = truncate_path("/var/lib/docker/overlay2/abc", 12);
    assert_eq!(out.width(), 12);
    assert!(out.starts_with('…'));
    assert!(out.ends_with("abc"), "kept the wrong end: {out}");
}

#[test]
fn truncation_is_display_width_aware() {
    let out = truncate_end("日本語テキスト", 6);
    assert!(out.width() <= 6, "{out} is {} cols", out.width());
    assert_eq!(truncate_end("short", 10), "short");
}

#[test]
fn detail_block_fits_the_list() {
    let l = lite::Layout::new(Rect::new(0, 0, GRID_W, GRID_H));
    assert!(l.visible_files(true) >= 1);
    assert_eq!(l.visible_files(true), FILE_ROWS - DETAIL_ROWS);
    assert_eq!(l.visible_files(false), FILE_ROWS);
}

#[test]
fn the_totals_note_says_what_it_summed_and_what_it_left_out() {
    assert_eq!(topology_note(1, 0), "1 disk summed");
    assert_eq!(topology_note(3, 0), "3 disks summed");
    assert_eq!(topology_note(2, 1), "2 disks summed · 1 stacked, excluded");
}

#[test]
fn the_header_uptime_matches_the_dense_view() {
    assert_eq!(format_uptime(90_061), "1d 01:01");
    assert_eq!(format_uptime(3_599), "00:59");
}

#[test]
fn hot_file_paths_keep_their_file_name() {
    assert_eq!(display_path("/var/log/syslog", 40), "/var/log/syslog");
    let out = display_path("/home/user/projects/diskwatch/src/main.rs", 12);
    assert_eq!(out.chars().count(), 12);
    assert!(out.starts_with('…'));
    assert!(out.ends_with("main.rs"));
}

#[test]
fn ages_read_in_their_largest_whole_unit() {
    assert_eq!(age_label(0), "0s");
    assert_eq!(age_label(59), "59s");
    assert_eq!(age_label(60), "1m");
    assert_eq!(age_label(3_599), "59m");
    assert_eq!(age_label(7_200), "2h");
}

#[test]
fn each_ramp_has_five_stops_ending_where_its_hue_says() {
    for r in [Ramp::Read, Ramp::Write, Ramp::Load] {
        assert_eq!(r.stops().len(), 5);
    }
    assert_eq!(Ramp::Write.stops()[3], (0x5f, 0xdc, 0xff));
    assert_eq!(Ramp::Load.stops()[4], (0xff, 0x78, 0x78));
}

#[test]
fn the_file_filter_matches_paths_ignoring_case() {
    assert!(filter_matches("/var/log/Syslog", "SYS"));
    assert!(filter_matches("/anything", ""));
    assert!(!filter_matches("/tmp/a.txt", "log"));
    assert!(filter_matches("/home/ÄRGER/x", "ärger"));
}

#[test]
fn condensed_columns_group_samples_by_absolute_index() {
    // 60 s at one sample a second over 12 columns: five samples a column.
    let full = condense_ranges(60, 60, 12, 1000);
    assert_eq!(full.len(), 12);
    assert_eq!(full[0], Some((0, 5)));
    assert_eq!(full[11], Some((55, 60)));
    // Two more samples: the ring has dropped two, a new group has begun on
    // the right, and every complete group moved one column left intact.
    let later = condense_ranges(60, 62, 12, 1000);
    assert_eq!(later[11], Some((58, 60)), "the newest group holds its two samples");
    assert_eq!(later[10], Some((53, 58)), "absolute 55..60, the old last column");
    assert_eq!(later[0], Some((3, 8)), "absolute 5..10, the old second column");
    // A warming ring leaves the older columns empty rather than stretching.
    let warm = condense_ranges(3, 3, 4, 1000);
    assert_eq!(warm, vec![None, None, None, Some((0, 3))]);
    assert!(condense_ranges(10, 10, 0, 1000).is_empty());
    assert!(condense_ranges(10, 10, 4, 0).is_empty());
}

#[test]
fn bucket_labels_span_the_edges_without_a_gap() {
    assert_eq!(dense::bucket_label(0), "<0.1ms");
    assert_eq!(dense::bucket_label(LAT_BUCKETS - 1), ">50ms");
    for i in 1..LAT_BUCKETS - 1 {
        assert_eq!(dense::bucket_edges_us(i).0, dense::bucket_edges_us(i - 1).1);
    }
    assert_eq!(dense::bucket_label(1), "0.1-0.5");
    assert_eq!(dense::bucket_label(3), "1-5");
    assert_eq!(dense::bucket_edges_us(LAT_BUCKETS - 1), (50_000, 100_000));
}

#[test]
fn the_compact_io_box_takes_half_the_screen_between_8_and_11_rows() {
    assert_eq!(dense::compact_io_h(16), 8);
    assert_eq!(dense::compact_io_h(20), 10);
    assert_eq!(dense::compact_io_h(31), 11);
}
