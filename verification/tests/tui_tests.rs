use std::time::Duration;

use davbox::events::{Metrics, ServerEvent};
use davbox::server::ServerInfo;
use davbox::tui::{
    activity_row_count, block, color, compact_block, compact_logo_lines, dynamic_start_row,
    format_activity, format_activity_row, format_duration, kv, pad_left, pad_right,
    product_meta_line, rainbow_rule, render_metrics_block, render_static_header, DashboardFigures,
    static_header_rows, status_label, truncate, windows_dashboard_density, windows_header_style,
    windows_logo_color, windows_logo_shadow_color, ConsoleUi, DashboardDensity, HeaderStyle,
    Platform,
};

fn test_server_info() -> ServerInfo {
    ServerInfo {
        folder: "build\\".to_string(),
        bind_host: "0.0.0.0".to_string(),
        display_host: "10.18.222.214".to_string(),
        port: 8080,
        name: "Davbox".to_string(),
        read_only: false,
        auth_enabled: true,
        username: "davbox".to_string(),
        password: Some("1234-5678".to_string()),
        tui_enabled: true,
        tui_refresh_ms: 750,
    }
}

/// The formatted figures of metrics without traffic: every byte amount is `0 B`.
fn quiet_figures(sizes: Vec<String>) -> DashboardFigures {
    DashboardFigures {
        uptime_secs: 0,
        up_rate: "0 B".to_string(),
        down_rate: "0 B".to_string(),
        total_in: "0 B".to_string(),
        total_out: "0 B".to_string(),
        sizes,
    }
}

/// The body of a fresh dashboard.
fn fresh_dashboard(ui: &ConsoleUi, density: DashboardDensity) -> String {
    ui.render_dynamic_dashboard_content(&Metrics::new(), &quiet_figures(Vec::new()), density)
}

fn request(method: &str, path: &str, status: u16, millis: u64) -> ServerEvent {
    ServerEvent::RequestCompleted {
        method: method.to_string(),
        path: path.to_string(),
        status,
        bytes_in: 0,
        bytes_out: 1,
        duration: Duration::from_millis(millis),
    }
}

#[test]
fn static_header_row_count_matches_dynamic_start() {
    assert_eq!(
        render_static_header(HeaderStyle::Full, Platform::Other).lines().count(),
        static_header_rows()
    );
    assert_eq!(dynamic_start_row(), static_header_rows() + 1);
}

#[test]
fn full_header_keeps_original_row_budget() {
    let header = render_static_header(HeaderStyle::Full, Platform::Other);
    assert_eq!(header.lines().count(), 9);
    assert!(header.contains("local folder uplink // WebDAV over LAN"));
    assert!(header.contains("██████"));
}

#[test]
fn compact_header_keeps_logo_without_extra_blank_row() {
    let header = render_static_header(HeaderStyle::Compact, Platform::Other);
    let expected_logo_rows = compact_logo_lines().len();
    assert_eq!(header.lines().count(), expected_logo_rows + 2);
    assert!(header.contains("local folder uplink // WebDAV over LAN"));
    assert!(header.contains("████▄"));
}

#[test]
fn windows_compact_header_uses_the_pixel_logo() {
    let header = render_static_header(HeaderStyle::Compact, Platform::Windows);
    assert_eq!(header.lines().count(), 5 + 2);
    assert!(header.contains("\x1b[48;5;"));
    assert!(header.contains("local folder uplink // WebDAV over LAN"));
}

#[test]
fn full_header_is_the_same_on_every_platform() {
    assert_eq!(
        render_static_header(HeaderStyle::Full, Platform::Windows),
        render_static_header(HeaderStyle::Full, Platform::Other)
    );
}

#[test]
fn compact_dashboard_frame_fits_common_windows_terminal_height() {
    let ui = ConsoleUi::new(test_server_info());
    let frame = format!(
        "{}{}",
        render_static_header(HeaderStyle::Compact, Platform::Other),
        fresh_dashboard(&ui, DashboardDensity::Compact),
    );

    assert!(frame.contains("DAVBOX") || frame.contains("████▄"));
    assert!(frame.contains("UPLINK"));
    assert!(frame.contains("TELEMETRY"));
    assert!(frame.contains("RECENT ACTIVITY"));
    assert!(
        frame.lines().count() <= 24,
        "compact dashboard should not scroll a typical 24-row terminal, got {} rows",
        frame.lines().count()
    );
}

#[test]
fn windows_frame_fits_common_terminal_height() {
    let ui = ConsoleUi::new(test_server_info());
    let frame =
        ui.render_dashboard_frame(&Metrics::new(), &quiet_figures(Vec::new()), Platform::Windows);
    assert!(frame.contains("\x1b[48;5;"));
    assert!(frame.lines().count() <= 24);
}

#[test]
fn full_dashboard_keeps_eight_activity_rows() {
    let ui = ConsoleUi::new(test_server_info());
    let content = fresh_dashboard(&ui, DashboardDensity::Full);
    let placeholder_rows = content.matches("\x1b[90m·\x1b[0m").count();

    assert_eq!(placeholder_rows, 8);
    assert!(content.contains("Press Enter or Ctrl+C to stop."));
    assert!(content.contains("Davbox 0.1.3"));
    assert!(content.contains("MIT"));
    assert!(content.contains("stigachen"));
}

#[test]
fn product_meta_line_includes_build_and_owner_details() {
    assert_eq!(product_meta_line(), "Davbox 0.1.3 · MIT · © 2026 stigachen");
}

#[test]
fn windows_uses_compact_first_frame() {
    assert!(matches!(windows_header_style(Platform::Windows), HeaderStyle::Compact));
    assert!(matches!(
        windows_dashboard_density(windows_header_style(Platform::Windows), Platform::Windows),
        DashboardDensity::Compact
    ));
}

#[test]
fn non_windows_keeps_full_first_frame() {
    assert!(matches!(windows_header_style(Platform::Other), HeaderStyle::Full));
    assert!(matches!(
        windows_dashboard_density(windows_header_style(Platform::Other), Platform::Other),
        DashboardDensity::Full
    ));
}

#[test]
fn endpoint_panel_shows_url_and_credentials() {
    let ui = ConsoleUi::new(test_server_info());
    assert_eq!(ui.url(), "http://10.18.222.214:8080/");
    assert_eq!(ui.bind(), "0.0.0.0:8080");
    assert_eq!(ui.mode(), "read-write");
    assert_eq!(ui.auth_line(), "davbox / 1234-5678");
    let panel = ui.endpoint_block();
    assert_eq!(panel.lines().count(), 6);
    assert!(panel.contains("http://10.18.222.214:8080/"));
    let mut info = test_server_info();
    info.auth_enabled = false;
    assert_eq!(ConsoleUi::new(info).auth_line(), "disabled");
    let mut info = test_server_info();
    info.password = None;
    assert_eq!(ConsoleUi::new(info).auth_line(), "davbox / <hidden>");
}

#[test]
fn plain_output_names_the_url() {
    let ui = ConsoleUi::new(test_server_info());
    assert_eq!(
        ui.plain_text(),
        "davbox online: http://10.18.222.214:8080/\nDavbox 0.1.3 · MIT · © 2026 stigachen\nPress Enter or Ctrl+C to stop.\n"
    );
}

#[test]
fn durations_leave_out_leading_zero_units() {
    assert_eq!(format_duration(5), "5s");
    assert_eq!(format_duration(65), "1m 5s");
    assert_eq!(format_duration(3725), "1h 2m 5s");
    assert_eq!(format_duration(3600), "1h 0m 0s");
    assert_eq!(format_duration(0), "0s");
}

#[test]
fn truncation_ends_with_an_ellipsis() {
    assert_eq!(truncate("abcdef", 10), "abcdef");
    assert_eq!(truncate("abcdef", 4), "abc…");
    assert_eq!(truncate("abcdef", 0), "…");
    assert_eq!(truncate("", 0), "");
}

#[test]
fn padding_counts_characters() {
    assert_eq!(pad_right("ab", 4), "ab  ");
    assert_eq!(pad_right("abcde", 4), "abcde");
    assert_eq!(pad_left("é", 3), "  é");
}

#[test]
fn colours_wrap_text_in_escape_codes() {
    assert_eq!(color("x", 36), "\x1b[36mx\x1b[0m");
    assert_eq!(status_label(503), "\x1b[31m503\x1b[0m");
    assert_eq!(status_label(404), "\x1b[33m404\x1b[0m");
    assert_eq!(status_label(301), "\x1b[36m301\x1b[0m");
    assert_eq!(status_label(200), "\x1b[32m200\x1b[0m");
}

#[test]
fn blocks_turn_lines_into_dashboard_rows() {
    assert_eq!(compact_block("a\nb"), "a\x1b[K\nb\x1b[K\n");
    assert_eq!(block("a"), "a\x1b[K\n\x1b[K\n");
    assert_eq!(compact_block(""), "");
}

#[test]
fn labels_are_padded_to_ten_columns() {
    assert_eq!(kv("", "v"), "  \x1b[36m•\x1b[0m \x1b[90m\x1b[0m  v");
}

#[test]
fn rainbow_rule_runs_through_five_colours() {
    let rule = rainbow_rule(5);
    assert_eq!(
        rule,
        "\x1b[36m━\x1b[0m\x1b[32m━\x1b[0m\x1b[33m━\x1b[0m\x1b[35m━\x1b[0m\x1b[31m━\x1b[0m"
    );
    assert_eq!(rainbow_rule(96).matches('━').count(), 96);
}

#[test]
fn pixel_logo_palette_spans_the_logo() {
    assert_eq!(windows_logo_color(0), 39);
    assert_eq!(windows_logo_color(34), 196);
    assert_eq!(windows_logo_shadow_color(0), 24);
    assert_eq!(windows_logo_shadow_color(34), 52);
}

#[test]
fn activity_rows_are_aligned() {
    let row = format_activity_row("PROPFIND", 207, "/", "1.2 KB", 0);
    assert_eq!(
        row,
        format!(
            "  \x1b[90m›\x1b[0m  \x1b[35mPROPFIND\x1b[0m \x1b[32m207\x1b[0m  {:<34} {:>9} {:>6}ms",
            "/", "1.2 KB", 0
        )
    );
}

#[test]
fn activity_list_shows_the_newest_requests_first() {
    let mut metrics = Metrics::new();
    metrics.apply(request("GET", "/old", 200, 7));
    metrics.apply(request("DELETE", "/new", 404, 12));
    let sizes = vec!["1 B".to_string(), "1 B".to_string()];
    let list = format_activity(&metrics, 3, &sizes);
    let lines: Vec<&str> = list.lines().collect();
    assert_eq!(lines.len(), 3);
    assert_eq!(lines[0], format_activity_row("DELETE", 404, "/new", "1 B", 12));
    assert_eq!(lines[1], format_activity_row("GET", 200, "/old", "1 B", 7));
    assert_eq!(lines[2], "  \x1b[90m·\x1b[0m");
    assert_eq!(
        format_activity(&metrics, 1, &sizes),
        format_activity_row("DELETE", 404, "/new", "1 B", 12)
    );
}

#[test]
fn dashboard_body_lists_recent_requests() {
    let ui = ConsoleUi::new(test_server_info());
    let mut metrics = Metrics::new();
    metrics.apply(request("PUT", "/notes.txt", 201, 3));
    let figures = quiet_figures(vec!["1 B".to_string()]);
    let full = ui.render_dynamic_dashboard_content(&metrics, &figures, DashboardDensity::Full);
    assert!(full.contains(&format_activity_row("PUT", 201, "/notes.txt", "1 B", 3)));
    assert_eq!(full.matches("\x1b[90m·\x1b[0m").count(), 7);
    let compact = ui.render_dynamic_dashboard_content(&metrics, &figures, DashboardDensity::Compact);
    assert!(compact.contains(&format_activity_row("PUT", 201, "/notes.txt", "1 B", 3)));
    assert_eq!(compact.matches("\x1b[90m·\x1b[0m").count(), 0);
    assert!(full.contains("\x1b[90mRequests\x1b[0m 1"));
}

#[test]
fn activity_list_has_the_requested_number_of_lines() {
    let mut metrics = Metrics::new();
    metrics.apply(request("GET", "/a", 200, 1));
    metrics.apply(request("GET", "/b", 200, 1));
    let sizes = vec!["1 B".to_string(), "1 B".to_string()];
    for count in 1..10 {
        assert_eq!(format_activity(&metrics, count, &sizes).lines().count(), count);
    }
    assert_eq!(activity_row_count(DashboardDensity::Full), 8);
    assert_eq!(activity_row_count(DashboardDensity::Compact), 1);
}

#[test]
fn telemetry_panel_shows_counters_and_figures() {
    let metrics = Metrics::new();
    let block = render_metrics_block(&metrics, 3725, "1.0 KB", "0 B", "2 B", "3 B");
    let lines: Vec<&str> = block.lines().collect();
    assert_eq!(lines.len(), 6);
    assert!(lines[0].ends_with(" 1h 2m 5s"));
    assert!(lines[3].ends_with(" 0"));
    assert!(lines[4].ends_with(" up 1.0 KB/s   down 0 B/s"));
    assert!(lines[5].ends_with(" in 2 B   out 3 B"));
}

#[test]
fn activity_rows_show_whole_milliseconds() {
    let mut metrics = Metrics::new();
    metrics.apply(ServerEvent::RequestCompleted {
        method: "GET".to_string(),
        path: "/slow".to_string(),
        status: 200,
        bytes_in: 0,
        bytes_out: 1,
        duration: Duration::from_nanos(1_502_999_999),
    });
    let list = format_activity(&metrics, 1, &vec!["1 B".to_string()]);
    assert_eq!(list, format_activity_row("GET", 200, "/slow", "1 B", 1502));
    assert!(list.ends_with("  1502ms"));
}
