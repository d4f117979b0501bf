use phaneros::ui::{
    format_bytes, format_speed, render_key_values, render_section_header, render_table, render_view_header,
    timestamp_text, truncate_to_width, Alignment, Column, Table,
};

#[test]
fn truncation_keeps_short_text() {
    assert_eq!(truncate_to_width("hi", 5, "..."), "hi");
    assert_eq!(truncate_to_width("hello", 5, "..."), "hello");
}

#[test]
fn truncation_marks_the_cut() {
    assert_eq!(truncate_to_width("hello world", 8, "..."), "hello...");
    assert_eq!(truncate_to_width("héllo wörld", 6, "…"), "héllo…");
}

#[test]
fn truncation_without_room_for_the_ellipsis() {
    assert_eq!(truncate_to_width("hello", 2, "..."), "he");
    assert_eq!(truncate_to_width("hello", 0, "..."), "");
}

#[test]
fn bytes_below_a_kilobyte_are_whole() {
    assert_eq!(format_bytes(0), "0 B");
    assert_eq!(format_bytes(1023), "1023 B");
}

#[test]
fn bytes_in_larger_units_have_two_decimals() {
    assert_eq!(format_bytes(1024), "1.00 KB");
    assert_eq!(format_bytes(1536), "1.50 KB");
    assert_eq!(format_bytes(1024 * 1024), "1.00 MB");
    assert_eq!(format_bytes(5 * 1024 * 1024 * 1024), "5.00 GB");
    assert_eq!(format_bytes(3 * 1024 * 1024 * 1024 * 1024), "3.00 TB");
    assert_eq!(format_speed(1024), "1.00 KB/s");
    assert_eq!(format_speed(500), "500 B/s");
}

#[test]
fn bytes_match_float_formatting() {
    let units = [(1u64 << 40, "TB"), (1 << 30, "GB"), (1 << 20, "MB"), (1 << 10, "KB")];
    let mut samples: Vec<u64> = Vec::new();
    for k in 0..4000u64 {
        samples.push(k * 37 + 1000);
        samples.push(k * 7919 * 1024 + 13);
        samples.push(1152 + k * 256);
        samples.push((k + 1) * (1 << 30) / 8 + k);
    }
    for b in samples {
        let expected = match units.iter().find(|(u, _)| b >= *u) {
            Some((u, name)) => format!("{:.2} {}", b as f64 / *u as f64, name),
            None => format!("{} B", b),
        };
        assert_eq!(format_bytes(b), expected, "bytes {}", b);
    }
}

#[test]
fn a_tie_rounds_to_even() {
    assert_eq!(format_bytes(1152), format!("{:.2} KB", 1.125f64));
}

#[test]
fn table_pads_columns_to_their_widest_cell() {
    let mut table = Table::new(&["A", "LONG"]);
    table.add_row(vec!["x".to_string(), "1".to_string()]);
    table.add_row(vec!["yyyy".to_string(), "22".to_string()]);
    assert_eq!(table.render(), "A     LONG\n----  ----\nx     1   \nyyyy  22  \n");
}

#[test]
fn right_aligned_columns_pad_on_the_left() {
    let mut table = Table::with_columns(vec![Column::new("NAME"), Column::right_aligned("SIZE")]);
    table.add_row(vec!["a".to_string(), "10 B".to_string()]);
    table.add_row(vec!["b".to_string(), "1.00 KB".to_string()]);
    assert_eq!(
        table.render(),
        "NAME     SIZE\n----  -------\na        10 B\nb     1.00 KB\n"
    );
}

#[test]
fn a_table_without_columns_is_empty() {
    let table = Table::with_columns(vec![]);
    assert_eq!(table.render(), "");
}

#[test]
fn extra_cells_are_kept() {
    let mut table = Table::new(&["A"]);
    table.add_row(vec!["1".to_string(), "extra".to_string()]);
    assert_eq!(table.render(), "A\n-\n1  extra\n");
}

#[test]
fn render_table_builds_a_left_aligned_table() {
    let text = render_table(&["DRIVE", "STATUS"], &[vec!["notes".to_string(), "Idle".to_string()]]);
    assert_eq!(text, "DRIVE  STATUS\n-----  ------\nnotes  Idle  \n");
}

#[test]
fn columns_keep_their_alignment() {
    assert_eq!(Column::new("X").align, Alignment::Left);
    assert_eq!(Column::right_aligned("X").align, Alignment::Right);
}

#[test]
fn key_values_align_their_keys() {
    let text = render_key_values(&[("Drive", "a".to_string()), ("Store URL", "b".to_string())]);
    assert_eq!(text, "Drive:      a\nStore URL:  b\n");
}

#[test]
fn headers_frame_their_title() {
    assert_eq!(render_view_header("Status"), "\n\u{258c} Status\n\n");
    assert_eq!(render_section_header("Drives"), "\n--- Drives ---\n");
}

#[test]
fn timestamps_fall_back_to_seconds() {
    assert_eq!(timestamp_text(0, Some("x".to_string())), "-");
    assert_eq!(timestamp_text(42, None), "42");
    assert_eq!(timestamp_text(42, Some("1970-01-01 00:00:42".to_string())), "1970-01-01 00:00:42");
}
