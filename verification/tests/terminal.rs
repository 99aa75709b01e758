use ocu::render::{Area, Color};
use ocu::terminal::{cell_is_blank_default, frame_text, line_end, CellStyle, Frame, FrameCell};

fn cell(symbol: &str, style: CellStyle) -> FrameCell {
    FrameCell { symbol: symbol.to_string(), style }
}

fn plain(symbol: &str) -> FrameCell {
    cell(symbol, CellStyle::default())
}

fn frame(width: u16, rows: Vec<Vec<FrameCell>>) -> Frame {
    let height = rows.len() as u16;
    Frame { area: Area { x: 0, y: 0, width, height }, cells: rows.into_iter().flatten().collect() }
}

#[test]
fn blank_cells_are_default_spaces() {
    assert!(cell_is_blank_default(&plain(" ")));
    assert!(!cell_is_blank_default(&plain("x")));
    let bold = CellStyle { fg: Color::Reset, bg: Color::Reset, modifier: 1 };
    assert!(!cell_is_blank_default(&cell(" ", bold)));
}

#[test]
fn unstyled_rows_print_their_symbols_without_trailing_blanks() {
    let f = frame(4, vec![
        vec![plain("a"), plain("b"), plain(" "), plain(" ")],
        vec![plain(" "), plain(" "), plain(" "), plain(" ")],
        vec![plain(" "), plain("c"), plain(" "), plain("d")],
    ]);
    assert_eq!(line_end(&f, 0), 2);
    assert_eq!(line_end(&f, 1), 0);
    assert_eq!(line_end(&f, 2), 4);
    assert_eq!(frame_text(&f), "ab\n\n c d\n");
}

#[test]
fn style_changes_emit_escapes_and_rows_end_reset() {
    let red = CellStyle { fg: Color::Red, bg: Color::Reset, modifier: 0 };
    let bold_rgb = CellStyle { fg: Color::Rgb(1, 22, 255), bg: Color::Indexed(200), modifier: 1 };
    let f = frame(3, vec![vec![cell("x", red), cell("y", red), plain("z")], vec![plain("a"), cell("b", bold_rgb), plain(" ")]]);
    assert_eq!(
        frame_text(&f),
        "\x1b[0m\x1b[38;5;1mxy\x1b[0mz\n\
         a\x1b[0m\x1b[1m\x1b[38;2;1;22;255m\x1b[48;5;200mb\x1b[0m\n"
    );
}

#[test]
fn every_named_color_has_its_palette_entry() {
    let named = [
        (Color::Black, 0),
        (Color::Red, 1),
        (Color::Green, 2),
        (Color::Yellow, 3),
        (Color::Blue, 4),
        (Color::Magenta, 5),
        (Color::Cyan, 6),
        (Color::Gray, 7),
        (Color::DarkGray, 8),
        (Color::LightRed, 9),
        (Color::LightGreen, 10),
        (Color::LightYellow, 11),
        (Color::LightBlue, 12),
        (Color::LightMagenta, 13),
        (Color::LightCyan, 14),
        (Color::White, 15),
    ];
    for (color, index) in named {
        let style = CellStyle { fg: Color::Reset, bg: color, modifier: 0 };
        let f = frame(1, vec![vec![cell("#", style)]]);
        assert_eq!(frame_text(&f), format!("\x1b[0m\x1b[48;5;{index}m#\x1b[0m\n"));
    }
}

#[test]
fn styled_blank_cells_are_printed() {
    let bar = CellStyle { fg: Color::Rgb(64, 64, 64), bg: Color::Rgb(64, 64, 64), modifier: 0 };
    let f = frame(2, vec![vec![cell(" ", bar), plain(" ")]]);
    assert_eq!(frame_text(&f), "\x1b[0m\x1b[38;2;64;64;64m\x1b[48;2;64;64;64m \x1b[0m\n");
}

use ocu::terminal::frame_covers_area;

fn strip_escapes(text: &str) -> String {
    let mut out = String::new();
    let mut inside = false;
    for c in text.chars() {
        if inside {
            inside = c != 'm';
        } else if c == '\x1b' {
            inside = true;
        } else {
            out.push(c);
        }
    }
    out
}

#[test]
fn escapes_carry_styles_only_and_rows_are_lines() {
    let red = CellStyle { fg: Color::Red, bg: Color::Rgb(9, 99, 199), modifier: 1 };
    let f = frame(3, vec![
        vec![cell("a", red), plain("b"), cell(" ", red)],
        vec![plain(" "), plain(" "), plain(" ")],
        vec![plain("c"), cell("d", red), plain(" ")],
    ]);
    let text = frame_text(&f);
    assert_eq!(strip_escapes(&text), "ab \n\ncd\n");
    assert_eq!(text.matches('\n').count(), 3);
    assert!(text.ends_with("d\x1b[0m\n"));
}

#[test]
fn frame_cover_check() {
    assert!(frame_covers_area(&frame(2, vec![vec![plain("a"), plain("b")]])));
    let short = Frame { area: Area { x: 0, y: 0, width: 2, height: 2 }, cells: vec![plain("a")] };
    assert!(!frame_covers_area(&short));
}
