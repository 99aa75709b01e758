use ocu::render::{
    limit_row, limit_title, output_height, remaining_color, remaining_percent, rounded_bar,
    section_areas, section_title, Area, BarShape, Color, BAR_WIDTH,
};
use ocu::snapshot::{UsageBucket, UsageSnapshot, WindowUsage};

fn window(label: &'static str, used_percent: u16) -> WindowUsage {
    WindowUsage { label, reset_at: None, used_percent }
}

fn snapshot_of(count: usize) -> UsageSnapshot {
    let bucket = UsageBucket { title: "Main Codex bucket", windows: [window("5h", 0), window("weekly", 0)] };
    UsageSnapshot { buckets: vec![bucket; count] }
}

#[test]
fn section_titles_name_the_buckets() {
    assert_eq!(section_title("Main Codex bucket"), "General usage limits");
    assert_eq!(section_title("Codex 5.3 Spark"), "GPT-5.3-Codex-Spark usage limits");
    assert_eq!(section_title("Something else"), "Something else");
}

#[test]
fn limit_titles_name_the_windows() {
    assert_eq!(limit_title("5h"), "5 hour usage limit");
    assert_eq!(limit_title("weekly"), "Weekly usage limit");
    assert_eq!(limit_title("monthly"), "monthly");
}

#[test]
fn remaining_percent_is_what_is_not_used() {
    assert_eq!(remaining_percent(0), 100);
    assert_eq!(remaining_percent(15), 85);
    assert_eq!(remaining_percent(100), 0);
    assert_eq!(remaining_percent(250), 0);
}

#[test]
fn remaining_color_follows_thresholds() {
    assert_eq!(remaining_color(0), Color::Rgb(243, 139, 168));
    assert_eq!(remaining_color(10), Color::Rgb(243, 139, 168));
    assert_eq!(remaining_color(11), Color::Rgb(249, 226, 175));
    assert_eq!(remaining_color(30), Color::Rgb(249, 226, 175));
    assert_eq!(remaining_color(31), Color::Rgb(166, 227, 161));
}

#[test]
fn output_height_counts_cards_and_gaps() {
    assert_eq!(output_height(&snapshot_of(0)), 1);
    assert_eq!(output_height(&snapshot_of(1)), 7);
    assert_eq!(output_height(&snapshot_of(2)), 16);
    assert_eq!(output_height(&snapshot_of(8000)), u16::MAX);
}

#[test]
fn sections_stack_nine_rows_apart() {
    let areas = section_areas(Area { x: 0, y: 0, width: 86, height: 16 }, 2);
    assert_eq!(areas, vec![
        Area { x: 0, y: 0, width: 86, height: 7 },
        Area { x: 0, y: 9, width: 86, height: 7 },
    ]);
    let narrow = section_areas(Area { x: 3, y: 65530, width: 40, height: 5 }, 2);
    assert_eq!(narrow, vec![
        Area { x: 3, y: 65530, width: 40, height: 5 },
        Area { x: 3, y: 65535, width: 40, height: 0 },
    ]);
    let wide = section_areas(Area { x: 0, y: 0, width: 200, height: 7 }, 1);
    assert_eq!(wide[0].width, 86);
}

#[test]
fn area_new_cuts_at_the_edge() {
    assert_eq!(Area::new(65530, 1, 10, 3), Area { x: 65530, y: 1, width: 5, height: 3 });
}

#[test]
fn bar_is_filled_to_the_percentage_rounded_up() {
    let fill = Color::Rgb(1, 2, 3);
    let empty = Color::Rgb(64, 64, 64);
    assert_eq!(rounded_bar(0, 18, fill), BarShape { left_cap: empty, filled: 0, empty: 16, right_cap: empty, fill });
    assert_eq!(rounded_bar(1, 18, fill), BarShape { left_cap: fill, filled: 1, empty: 15, right_cap: empty, fill });
    assert_eq!(rounded_bar(50, 18, fill), BarShape { left_cap: fill, filled: 8, empty: 8, right_cap: empty, fill });
    assert_eq!(rounded_bar(85, 18, fill), BarShape { left_cap: fill, filled: 14, empty: 2, right_cap: empty, fill });
    assert_eq!(rounded_bar(100, 18, fill), BarShape { left_cap: fill, filled: 16, empty: 0, right_cap: fill, fill });
    assert_eq!(rounded_bar(30, 1, fill).filled, 0);
}

#[test]
fn limit_row_shows_title_reset_and_value() {
    let window = WindowUsage { label: "5h", reset_at: Some(1781517330), used_percent: 15 };
    let row = limit_row(&window, "UTC");
    assert_eq!(row.title, "5 hour usage limit");
    assert_eq!(row.reset_text, "Resets Jun 15, 2026 09:55:30");
    assert_eq!(row.remaining, 85);
    assert_eq!(row.value_text, " 85% left");
    assert_eq!(row.fill_color, Color::Rgb(166, 227, 161));
    assert_eq!(row.bar, rounded_bar(85, BAR_WIDTH, Color::Rgb(166, 227, 161)));
}

#[test]
fn value_text_is_right_aligned_in_three_columns() {
    assert_eq!(limit_row(&window("weekly", 100), "UTC").value_text, "  0% left");
    assert_eq!(limit_row(&window("weekly", 95), "UTC").value_text, "  5% left");
    assert_eq!(limit_row(&window("weekly", 0), "UTC").value_text, "100% left");
    assert_eq!(limit_row(&window("weekly", 0), "UTC").reset_text, "Resets unknown");
    assert_eq!(format!("{:>3}% left", 7), limit_row(&window("weekly", 93), "UTC").value_text);
}

use ocu::render::{bar_segments, card_look, divider_block_height, limit_row_styles, TextStyle, MIDDLE_PERCENT, SIDE_MARGIN_PERCENT};

#[test]
fn card_look_is_rounded_with_bold_heading() {
    let look = card_look("Codex 5.3 Spark");
    assert!(look.rounded);
    assert_eq!(look.heading, "GPT-5.3-Codex-Spark usage limits");
    assert_eq!(look.border, TextStyle { fg: Some(Color::Rgb(137, 149, 184)), bg: None, bold: false });
    assert_eq!(look.heading_style, TextStyle { fg: None, bg: None, bold: true });
}

#[test]
fn limit_row_texts_have_their_styles() {
    let (title, reset, value) = limit_row_styles();
    assert_eq!(title, TextStyle { fg: None, bg: None, bold: true });
    assert_eq!(reset, TextStyle { fg: Some(Color::Rgb(175, 175, 180)), bg: None, bold: false });
    assert_eq!(value, TextStyle { fg: Some(Color::White), bg: None, bold: false });
    assert_eq!(SIDE_MARGIN_PERCENT * 2 + MIDDLE_PERCENT, 100);
}

#[test]
fn bar_segments_draw_caps_and_cells() {
    let fill = Color::Rgb(166, 227, 161);
    let segments = bar_segments(&rounded_bar(85, 18, fill));
    assert_eq!(segments.len(), 4);
    assert_eq!(segments[0].text, "\u{e0b6}");
    assert_eq!(segments[0].style, TextStyle { fg: Some(fill), bg: None, bold: false });
    assert_eq!(segments[1].text, " ".repeat(14));
    assert_eq!(segments[1].style, TextStyle { fg: Some(fill), bg: Some(fill), bold: false });
    assert_eq!(segments[2].text, "  ");
    let empty = Color::Rgb(64, 64, 64);
    assert_eq!(segments[2].style, TextStyle { fg: Some(empty), bg: Some(empty), bold: false });
    assert_eq!(segments[3].text, "\u{e0b4}");
    assert_eq!(segments[3].style, TextStyle { fg: Some(empty), bg: None, bold: false });
}

#[test]
fn divider_block_reaches_the_divider_row() {
    assert_eq!(divider_block_height(4, 7), 4);
    assert_eq!(divider_block_height(7, 4), 1);
    assert_eq!(divider_block_height(0, u16::MAX), u16::MAX);
}
