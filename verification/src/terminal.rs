//! Encoding a drawn frame as terminal text: one line per row, trailing
//! blank cells left out, ANSI escapes wherever the style changes.

use vstd::prelude::*;

use crate::render::{Area, Color};
use crate::text::{push_decimal, spec_decimal};

verus! {

/// The look of a cell: colors and `ratatui` modifier bits.
#[derive(Debug, Clone, Copy, PartialEq, Eq, Structural)]
pub struct CellStyle {
    pub fg: Color,
    pub bg: Color,
    /// `ratatui::style::Modifier` bits; bit 0 is bold.
    pub modifier: u16,
}

/// The style of an untouched cell.
pub open spec fn default_style() -> CellStyle {
    CellStyle { fg: Color::Reset, bg: Color::Reset, modifier: 0 }
}

impl Default for CellStyle {
    fn default() -> (r: Self)
        ensures
            r == default_style(),
    {
        CellStyle { fg: Color::Reset, bg: Color::Reset, modifier: 0 }
    }
}

/// One cell of a frame.
#[derive(Debug, Clone, PartialEq, Eq)]
pub struct FrameCell {
    pub symbol: String,
    pub style: CellStyle,
}

/// A drawn frame: its area and its cells, row by row.
#[derive(Debug, Clone, PartialEq, Eq)]
pub struct Frame {
    pub area: Area,
    pub cells: Vec<FrameCell>,
}

/// Escape that resets all attributes.
pub open spec fn ansi_reset() -> Seq<char> {
    "\x1b[0m"@
}

/// Escape that turns bold on.
pub open spec fn ansi_bold() -> Seq<char> {
    "\x1b[1m"@
}

/// The 256-color palette entry of a named color.
pub open spec fn palette_index(color: Color) -> Option<u8> {
    match color {
        Color::Black => Some(0u8),
        Color::Red => Some(1u8),
        Color::Green => Some(2u8),
        Color::Yellow => Some(3u8),
        Color::Blue => Some(4u8),
        Color::Magenta => Some(5u8),
        Color::Cyan => Some(6u8),
        Color::Gray => Some(7u8),
        Color::DarkGray => Some(8u8),
        Color::LightRed => Some(9u8),
        Color::LightGreen => Some(10u8),
        Color::LightYellow => Some(11u8),
        Color::LightBlue => Some(12u8),
        Color::LightMagenta => Some(13u8),
        Color::LightCyan => Some(14u8),
        Color::White => Some(15u8),
        Color::Indexed(i) => Some(i),
        _ => None,
    }
}

/// The SGR escape that selects `color` after `prefix` (38 for the
/// foreground, 48 for the background); nothing for `Reset`.
pub open spec fn spec_ansi_color(prefix: u8, color: Color) -> Seq<char> {
    match color {
        Color::Reset => Seq::empty(),
        Color::Rgb(r, g, b) => "\x1b["@ + spec_decimal(prefix as nat) + ";2;"@ + spec_decimal(r as nat) + ";"@
            + spec_decimal(g as nat) + ";"@ + spec_decimal(b as nat) + "m"@,
        _ => "\x1b["@ + spec_decimal(prefix as nat) + ";5;"@ + spec_decimal(palette_index(color)->Some_0 as nat)
            + "m"@,
    }
}

fn palette_entry(color: Color) -> (r: u8)
    requires
        palette_index(color) is Some,
    ensures
        r == palette_index(color)->Some_0,
{
    match color {
        Color::Black => 0,
        Color::Red => 1,
        Color::Green => 2,
        Color::Yellow => 3,
        Color::Blue => 4,
        Color::Magenta => 5,
        Color::Cyan => 6,
        Color::Gray => 7,
        Color::DarkGray => 8,
        Color::LightRed => 9,
        Color::LightGreen => 10,
        Color::LightYellow => 11,
        Color::LightBlue => 12,
        Color::LightMagenta => 13,
        Color::LightCyan => 14,
        Color::White => 15,
        Color::Indexed(i) => i,
        _ => 0,
    }
}

/// Appends the escape that selects `color` after `prefix`.
pub fn push_ansi_color(out: &mut String, prefix: u8, color: Color)
    ensures
        final(out)@ == old(out)@ + spec_ansi_color(prefix, color),
{
    match color {
        Color::Reset => {
            assert(out@ =~= out@ + Seq::<char>::empty());
        },
        Color::Rgb(r, g, b) => {
            out.append("\x1b[");
            push_decimal(out, prefix as u64);
            out.append(";2;");
            push_decimal(out, r as u64);
            out.append(";");
            push_decimal(out, g as u64);
            out.append(";");
            push_decimal(out, b as u64);
            out.append("m");
            assert(out@ =~= old(out)@ + spec_ansi_color(prefix, color));
        },
        _ => {
            let index = palette_entry(color);
            out.append("\x1b[");
            push_decimal(out, prefix as u64);
            out.append(";5;");
            push_decimal(out, index as u64);
            out.append("m");
            assert(out@ =~= old(out)@ + spec_ansi_color(prefix, color));
        },
    }
}

/// Whether bit 0 (bold) of the modifier bits is set.
pub open spec fn is_bold(modifier: u16) -> bool {
    modifier % 2 == 1
}

/// The escapes that switch the terminal to `style`: a reset, bold where
/// set, then the foreground and background colors.
pub open spec fn spec_ansi_style(style: CellStyle) -> Seq<char> {
    ansi_reset() + (if is_bold(style.modifier) { ansi_bold() } else { Seq::empty() })
        + spec_ansi_color(38, style.fg) + spec_ansi_color(48, style.bg)
}

/// Appends the escapes that switch the terminal to `style`.
pub fn push_ansi_style(out: &mut String, style: CellStyle)
    ensures
        final(out)@ == old(out)@ + spec_ansi_style(style),
{
    out.append("\x1b[0m");
    if style.modifier % 2 == 1 {
        out.append("\x1b[1m");
    }
    push_ansi_color(out, 38, style.fg);
    push_ansi_color(out, 48, style.bg);
    assert(out@ =~= old(out)@ + spec_ansi_style(style));
}

/// A frame whose cell list covers its area.
pub open spec fn frame_wf(frame: &Frame) -> bool {
    frame.cells@.len() == frame.area.width * frame.area.height
}

/// Whether the cells of `frame` cover its area, as a drawn buffer's do.
pub fn frame_covers_area(frame: &Frame) -> (r: bool)
    ensures
        r == frame_wf(frame),
{
    let width = frame.area.width as u64;
    let height = frame.area.height as u64;
    assert(width * height <= 0xffff * 0xffff) by (nonlinear_arith)
        requires width <= 0xffff, height <= 0xffff;
    frame.cells.len() as u64 == width * height
}

/// Number of rows printed: down to the bottom edge, within `u16`.
pub open spec fn printed_rows(area: Area) -> nat {
    (if area.y + area.height > u16::MAX { u16::MAX - area.y } else { area.height as int }) as nat
}

/// Number of columns up to the right edge, within `u16`.
pub open spec fn printed_columns(area: Area) -> nat {
    (if area.x + area.width > u16::MAX { u16::MAX - area.x } else { area.width as int }) as nat
}

/// The cell in column `col` and row `row`, counted from the area's corner.
pub open spec fn cell_at(frame: &Frame, col: int, row: int) -> FrameCell {
    frame.cells@[row * frame.area.width + col]
}

/// A cell that prints nothing visible: a space in the default style.
pub open spec fn spec_is_blank_cell(cell: FrameCell) -> bool {
    cell.symbol@ == " "@ && cell.style == default_style()
}

/// The columns of row `row` up to and including its last visible cell.
pub open spec fn visible_columns(frame: &Frame, row: int, upto: nat) -> nat
    decreases upto,
{
    if upto == 0 {
        0
    } else if !spec_is_blank_cell(cell_at(frame, upto - 1, row)) {
        upto
    } else {
        visible_columns(frame, row, (upto - 1) as nat)
    }
}

proof fn lemma_visible_columns_bound(frame: &Frame, row: int, upto: nat)
    ensures
        visible_columns(frame, row, upto) <= upto,
    decreases upto,
{
    if upto > 0 {
        lemma_visible_columns_bound(frame, row, (upto - 1) as nat);
    }
}

/// The cells of row `row` that are printed.
pub open spec fn printed_cells(frame: &Frame, row: int) -> Seq<FrameCell> {
    Seq::new(visible_columns(frame, row, printed_columns(frame.area)), |c: int| cell_at(frame, c, row))
}

/// The text of a run of cells printed from the default style, and the
/// style the terminal is left in.
pub open spec fn styled_run(cells: Seq<FrameCell>) -> (Seq<char>, CellStyle)
    decreases cells.len(),
{
    if cells.len() == 0 {
        (Seq::empty(), default_style())
    } else {
        let (text, current) = styled_run(cells.drop_last());
        let cell = cells.last();
        let switch = if cell.style != current { spec_ansi_style(cell.style) } else { Seq::empty() };
        (text + switch + cell.symbol@, cell.style)
    }
}

/// One printed line: the run of cells, a reset if a style is still on,
/// and a newline.
pub open spec fn spec_row_line(cells: Seq<FrameCell>) -> Seq<char> {
    let (text, current) = styled_run(cells);
    text + (if current != default_style() { ansi_reset() } else { Seq::empty() }) + "\n"@
}

/// The text of the first `rows` rows of a frame.
pub open spec fn spec_frame_text(frame: &Frame, rows: nat) -> Seq<char>
    decreases rows,
{
    if rows == 0 {
        Seq::empty()
    } else {
        spec_frame_text(frame, (rows - 1) as nat) + spec_row_line(printed_cells(frame, rows - 1))
    }
}

/// Whether `cell` prints nothing visible.
pub fn cell_is_blank_default(cell: &FrameCell) -> (r: bool)
    ensures
        r == spec_is_blank_cell(*cell),
{
    crate::text::text_equals(cell.symbol.as_str(), " ") && cell.style == CellStyle::default()
}

/// The column just after the last visible cell of row `row` (counted from
/// the area's top), or the left edge when the row is blank.
pub fn line_end(frame: &Frame, row: u16) -> (r: u16)
    requires
        frame_wf(frame),
        row < printed_rows(frame.area),
    ensures
        r == frame.area.x + visible_columns(frame, row as int, printed_columns(frame.area)),
{
    let area = frame.area;
    let columns: u16 = if area.x as u32 + area.width as u32 > 0xffff { 0xffff - area.x } else { area.width };
    let mut col = columns;
    while col > 0
        invariant
            frame_wf(frame),
            area == frame.area,
            row < printed_rows(area),
            columns == printed_columns(area),
            col <= columns,
            visible_columns(frame, row as int, columns as nat) == visible_columns(frame, row as int, col as nat),
        decreases col,
    {
        proof {
            assert(row as int * area.width + (col - 1) < area.width * area.height) by (nonlinear_arith)
                requires row < area.height, col - 1 < area.width, 0 <= row, 0 <= col - 1;
        }
        let total = frame.cells.len();
        assert(row as int * area.width + (col - 1) < total);
        let index = row as usize * area.width as usize + (col - 1) as usize;
        if !cell_is_blank_default(&frame.cells[index]) {
            return area.x + col;
        }
        col = col - 1;
    }
    area.x
}

/// The terminal text of a frame: each row up to its last visible cell,
/// with style escapes where the style changes, reset at the end of a
/// styled row, and a newline.
pub fn frame_text(frame: &Frame) -> (r: String)
    requires
        frame_wf(frame),
    ensures
        r@ == spec_frame_text(frame, printed_rows(frame.area)),
{
    let area = frame.area;
    let rows: u16 = if area.y as u32 + area.height as u32 > 0xffff { 0xffff - area.y } else { area.height };
    let mut out = String::new();
    let mut row: u16 = 0;
    while row < rows
        invariant
            frame_wf(frame),
            area == frame.area,
            rows == printed_rows(area),
            row <= rows,
            out@ == spec_frame_text(frame, row as nat),
        decreases rows - row,
    {
        let end = line_end(frame, row);
        proof { lemma_visible_columns_bound(frame, row as int, printed_columns(area)); }
        let visible = end - area.x;
        let ghost cells = printed_cells(frame, row as int);
        let ghost before = out@;
        let mut current = CellStyle::default();
        let mut col: u16 = 0;
        while col < visible
            invariant
                frame_wf(frame),
                area == frame.area,
                rows == printed_rows(area),
                row < rows,
                visible == cells.len(),
                visible <= printed_columns(area),
                cells == printed_cells(frame, row as int),
                col <= visible,
                out@ == before + styled_run(cells.take(col as int)).0,
                current == styled_run(cells.take(col as int)).1,
            decreases visible - col,
        {
            proof {
                assert(row as int * area.width + col < area.width * area.height) by (nonlinear_arith)
                    requires row < area.height, col < area.width, 0 <= row, 0 <= col;
                assert(cells.take(col + 1).drop_last() =~= cells.take(col as int));
            }
            let total = frame.cells.len();
            assert(row as int * area.width + col < total);
            let index = row as usize * area.width as usize + col as usize;
            let cell = &frame.cells[index];
            if cell.style != current {
                push_ansi_style(&mut out, cell.style);
                current = cell.style;
            }
            out.append(cell.symbol.as_str());
            col = col + 1;
            proof {
                assert(out@ =~= before + styled_run(cells.take(col as int)).0);
            }
        }
        assert(cells.take(visible as int) =~= cells);
        if current != CellStyle::default() {
            out.append("\x1b[0m");
        }
        out.append("\n");
        assert(out@ =~= before + spec_row_line(cells));
        row = row + 1;
    }
    out
}


/// The symbols of a run of cells, one after the other.
pub open spec fn symbols(cells: Seq<FrameCell>) -> Seq<char>
    decreases cells.len(),
{
    if cells.len() == 0 {
        Seq::empty()
    } else {
        symbols(cells.drop_last()) + cells.last().symbol@
    }
}

proof fn lemma_visible_columns_shape(frame: &Frame, row: int, upto: nat)
    ensures
        visible_columns(frame, row, upto) > 0 ==> !spec_is_blank_cell(
            cell_at(frame, visible_columns(frame, row, upto) - 1, row),
        ),
        forall|c: int|
            visible_columns(frame, row, upto) <= c < upto ==> spec_is_blank_cell(#[trigger] cell_at(frame, c, row)),
    decreases upto,
{
    if upto > 0 {
        lemma_visible_columns_shape(frame, row, (upto - 1) as nat);
    }
}

/// Trailing blank cells are not printed: a row is printed up to its last
/// visible cell, and every cell after that is a blank one.
pub proof fn law_trailing_blanks_dropped(frame: &Frame, row: int)
    ensures
        printed_cells(frame, row).len() > 0 ==> !spec_is_blank_cell(printed_cells(frame, row).last()),
        forall|c: int|
            printed_cells(frame, row).len() <= c < printed_columns(frame.area) ==> spec_is_blank_cell(
                #[trigger] cell_at(frame, c, row),
            ),
        printed_cells(frame, row).len() <= printed_columns(frame.area),
{
    lemma_visible_columns_shape(frame, row, printed_columns(frame.area));
    lemma_visible_columns_bound(frame, row, printed_columns(frame.area));
}

/// A row of blank cells prints as an empty line.
pub proof fn law_blank_row_is_empty_line(frame: &Frame, row: int)
    requires
        forall|c: int| 0 <= c < printed_columns(frame.area) ==> spec_is_blank_cell(#[trigger] cell_at(frame, c, row)),
    ensures
        spec_row_line(printed_cells(frame, row)) == "\n"@,
{
    lemma_visible_columns_shape(frame, row, printed_columns(frame.area));
    lemma_visible_columns_bound(frame, row, printed_columns(frame.area));
    let cells = printed_cells(frame, row);
    if cells.len() > 0 {
        assert(spec_is_blank_cell(cell_at(frame, cells.len() - 1, row)));
    }
    assert(cells.len() == 0);
    assert(spec_row_line(cells) =~= "\n"@);
}

proof fn lemma_unstyled_run(cells: Seq<FrameCell>)
    requires
        forall|i: int| 0 <= i < cells.len() ==> (#[trigger] cells[i]).style == default_style(),
    ensures
        styled_run(cells) == (symbols(cells), default_style()),
    decreases cells.len(),
{
    if cells.len() > 0 {
        let rest = cells.drop_last();
        assert forall|i: int| 0 <= i < rest.len() implies (#[trigger] rest[i]).style == default_style() by {
            assert(rest[i] == cells[i]);
        }
        lemma_unstyled_run(rest);
        assert(cells.last() == cells[cells.len() - 1]);
        assert(styled_run(rest).0 + Seq::<char>::empty() + cells.last().symbol@ =~= symbols(cells));
    }
}

/// A row drawn only in the default style prints its symbols and nothing
/// else: no escape at all.
pub proof fn law_unstyled_row_has_no_escapes(cells: Seq<FrameCell>)
    requires
        forall|i: int| 0 <= i < cells.len() ==> (#[trigger] cells[i]).style == default_style(),
    ensures
        spec_row_line(cells) == symbols(cells) + "\n"@,
{
    lemma_unstyled_run(cells);
    assert(spec_row_line(cells) =~= symbols(cells) + "\n"@);
}

proof fn lemma_styled_run_ends_in_last_style(cells: Seq<FrameCell>)
    requires
        cells.len() > 0,
    ensures
        styled_run(cells).1 == cells.last().style,
{
}

/// A row leaves no style switched on, and resets only where it must: the
/// line ends with a reset exactly when its last printed cell is styled.
pub proof fn law_row_reset_iff_styled(cells: Seq<FrameCell>)
    ensures
        cells.len() > 0 && cells.last().style != default_style() ==> spec_row_line(cells)
            == styled_run(cells).0 + ansi_reset() + "\n"@,
        cells.len() == 0 || cells.last().style == default_style() ==> spec_row_line(cells)
            == styled_run(cells).0 + "\n"@,
{
    if cells.len() > 0 {
        lemma_styled_run_ends_in_last_style(cells);
    }
    assert(styled_run(cells).0 + Seq::<char>::empty() + "\n"@ =~= styled_run(cells).0 + "\n"@);
}

/// Whether reading `s` from inside (`true`) or outside an escape ends
/// inside one. An escape starts at ESC and ends at the next `m`.
pub open spec fn ends_in_escape(s: Seq<char>, inside: bool) -> bool
    decreases s.len(),
{
    if s.len() == 0 {
        inside
    } else if inside {
        ends_in_escape(s.drop_first(), s[0] != 'm')
    } else {
        ends_in_escape(s.drop_first(), s[0] == '\x1b')
    }
}

/// `s` without its escape sequences, read from inside or outside one.
pub open spec fn strip_escapes_from(s: Seq<char>, inside: bool) -> Seq<char>
    decreases s.len(),
{
    if s.len() == 0 {
        Seq::empty()
    } else if inside {
        strip_escapes_from(s.drop_first(), s[0] != 'm')
    } else if s[0] == '\x1b' {
        strip_escapes_from(s.drop_first(), true)
    } else {
        seq![s[0]] + strip_escapes_from(s.drop_first(), false)
    }
}

/// The visible text of `s`: everything but its `ESC ... m` escapes.
pub open spec fn strip_escapes(s: Seq<char>) -> Seq<char> {
    strip_escapes_from(s, false)
}

/// Number of newlines in `s`.
pub open spec fn count_newlines(s: Seq<char>) -> nat
    decreases s.len(),
{
    if s.len() == 0 {
        0
    } else {
        (if s[0] == '\n' { 1nat } else { 0nat }) + count_newlines(s.drop_first())
    }
}

proof fn lemma_strip_concat(a: Seq<char>, b: Seq<char>, inside: bool)
    ensures
        strip_escapes_from(a + b, inside) == strip_escapes_from(a, inside) + strip_escapes_from(
            b,
            ends_in_escape(a, inside),
        ),
        ends_in_escape(a + b, inside) == ends_in_escape(b, ends_in_escape(a, inside)),
        count_newlines(a + b) == count_newlines(a) + count_newlines(b),
    decreases a.len(),
{
    if a.len() == 0 {
        assert(a + b =~= b);
    } else {
        assert((a + b).drop_first() =~= a.drop_first() + b);
        assert((a + b)[0] == a[0]);
        let next = if inside { a[0] != 'm' } else { a[0] == '\x1b' };
        lemma_strip_concat(a.drop_first(), b, next);
        lemma_strip_concat(a.drop_first(), b, true);
        lemma_strip_concat(a.drop_first(), b, false);
        assert(seq![a[0]] + strip_escapes_from(a.drop_first(), false) + strip_escapes_from(
            b,
            ends_in_escape(a.drop_first(), false),
        ) =~= seq![a[0]] + (strip_escapes_from(a.drop_first(), false) + strip_escapes_from(
            b,
            ends_in_escape(a.drop_first(), false),
        )));
    }
}

/// Characters that escape bodies are made of: no `m`, no ESC, no newline.
pub open spec fn is_escape_body_char(c: char) -> bool {
    c != 'm' && c != '\x1b' && c != '\n'
}

proof fn lemma_escape_body(s: Seq<char>)
    requires
        forall|i: int| 0 <= i < s.len() ==> is_escape_body_char(#[trigger] s[i]),
    ensures
        strip_escapes_from(s, true) == Seq::<char>::empty(),
        ends_in_escape(s, true),
        count_newlines(s) == 0,
    decreases s.len(),
{
    if s.len() > 0 {
        assert forall|i: int| 0 <= i < s.drop_first().len() implies is_escape_body_char(
            #[trigger] s.drop_first()[i],
        ) by {
            assert(s.drop_first()[i] == s[i + 1]);
        }
        assert(is_escape_body_char(s[0]));
        lemma_escape_body(s.drop_first());
    }
}

proof fn lemma_plain_text(s: Seq<char>)
    requires
        forall|i: int| 0 <= i < s.len() ==> #[trigger] s[i] != '\x1b',
    ensures
        strip_escapes_from(s, false) == s,
        !ends_in_escape(s, false),
    decreases s.len(),
{
    if s.len() > 0 {
        assert forall|i: int| 0 <= i < s.drop_first().len() implies #[trigger] s.drop_first()[i] != '\x1b' by {
            assert(s.drop_first()[i] == s[i + 1]);
        }
        assert(s[0] != '\x1b');
        lemma_plain_text(s.drop_first());
        assert(s =~= seq![s[0]] + s.drop_first());
    }
}

proof fn lemma_decimal_digits(n: nat)
    ensures
        forall|i: int| 0 <= i < spec_decimal(n).len() ==> is_escape_body_char(#[trigger] spec_decimal(n)[i]),
    decreases n,
{
    if n >= 10 {
        lemma_decimal_digits(n / 10);
        let d = spec_decimal(n);
        let head = spec_decimal(n / 10);
        assert forall|i: int| 0 <= i < d.len() implies is_escape_body_char(#[trigger] d[i]) by {
            if i < head.len() {
                assert(d[i] == head[i]);
            } else {
                assert(d[i] == crate::text::digit_char(n % 10));
            }
        }
    }
}

proof fn lemma_escape_body_concat(a: Seq<char>, b: Seq<char>)
    requires
        forall|i: int| 0 <= i < a.len() ==> is_escape_body_char(#[trigger] a[i]),
        forall|i: int| 0 <= i < b.len() ==> is_escape_body_char(#[trigger] b[i]),
    ensures
        forall|i: int| 0 <= i < (a + b).len() ==> is_escape_body_char(#[trigger] (a + b)[i]),
{
    assert forall|i: int| 0 <= i < (a + b).len() implies is_escape_body_char(#[trigger] (a + b)[i]) by {
        if i < a.len() {
            assert((a + b)[i] == a[i]);
        } else {
            assert((a + b)[i] == b[i - a.len()]);
        }
    }
}

/// A complete escape `ESC [ body m` prints nothing and holds no newline.
proof fn lemma_sgr(body: Seq<char>)
    requires
        forall|i: int| 0 <= i < body.len() ==> is_escape_body_char(#[trigger] body[i]),
    ensures
        strip_escapes_from("\x1b["@ + body + "m"@, false) == Seq::<char>::empty(),
        !ends_in_escape("\x1b["@ + body + "m"@, false),
        count_newlines("\x1b["@ + body + "m"@) == 0,
{
    reveal_strlit("\x1b[");
    reveal_strlit("m");
    let open = "\x1b["@;
    lemma_strip_concat(open, body, false);
    lemma_strip_concat(open + body, "m"@, false);
    assert(open.drop_first().drop_first() =~= Seq::<char>::empty());
    assert(open[0] == '\x1b' && open[1] == '[');
    reveal_with_fuel(ends_in_escape, 3);
    reveal_with_fuel(strip_escapes_from, 3);
    reveal_with_fuel(count_newlines, 3);
    assert(ends_in_escape(open, false));
    assert(strip_escapes_from(open, false) =~= Seq::<char>::empty());
    assert(count_newlines(open) == 0) by {
        assert(count_newlines(open.drop_first()) == 0);
    }
    lemma_escape_body(body);
    assert("m"@.drop_first() =~= Seq::<char>::empty());
    assert(strip_escapes_from("m"@, true) =~= Seq::<char>::empty());
}

proof fn lemma_color_invisible(prefix: u8, color: Color)
    ensures
        strip_escapes_from(spec_ansi_color(prefix, color), false) == Seq::<char>::empty(),
        !ends_in_escape(spec_ansi_color(prefix, color), false),
        count_newlines(spec_ansi_color(prefix, color)) == 0,
{
    reveal_strlit(";2;");
    reveal_strlit(";5;");
    reveal_strlit(";");
    lemma_decimal_digits(prefix as nat);
    match color {
        Color::Reset => {
            assert(strip_escapes_from(Seq::<char>::empty(), false) =~= Seq::<char>::empty());
        },
        Color::Rgb(r, g, b) => {
            lemma_decimal_digits(r as nat);
            lemma_decimal_digits(g as nat);
            lemma_decimal_digits(b as nat);
            let p = spec_decimal(prefix as nat);
            let body = p + ";2;"@ + spec_decimal(r as nat) + ";"@ + spec_decimal(g as nat) + ";"@
                + spec_decimal(b as nat);
            lemma_escape_body_concat(p, ";2;"@);
            lemma_escape_body_concat(p + ";2;"@, spec_decimal(r as nat));
            lemma_escape_body_concat(p + ";2;"@ + spec_decimal(r as nat), ";"@);
            lemma_escape_body_concat(p + ";2;"@ + spec_decimal(r as nat) + ";"@, spec_decimal(g as nat));
            lemma_escape_body_concat(
                p + ";2;"@ + spec_decimal(r as nat) + ";"@ + spec_decimal(g as nat),
                ";"@,
            );
            lemma_escape_body_concat(
                p + ";2;"@ + spec_decimal(r as nat) + ";"@ + spec_decimal(g as nat) + ";"@,
                spec_decimal(b as nat),
            );
            lemma_sgr(body);
            assert(spec_ansi_color(prefix, color) =~= "\x1b["@ + body + "m"@);
        },
        _ => {
            let index = palette_index(color)->Some_0;
            lemma_decimal_digits(index as nat);
            let p = spec_decimal(prefix as nat);
            let body = p + ";5;"@ + spec_decimal(index as nat);
            lemma_escape_body_concat(p, ";5;"@);
            lemma_escape_body_concat(p + ";5;"@, spec_decimal(index as nat));
            lemma_sgr(body);
            assert(spec_ansi_color(prefix, color) =~= "\x1b["@ + body + "m"@);
        },
    }
}

proof fn lemma_style_invisible(style: CellStyle)
    ensures
        strip_escapes_from(spec_ansi_style(style), false) == Seq::<char>::empty(),
        !ends_in_escape(spec_ansi_style(style), false),
        count_newlines(spec_ansi_style(style)) == 0,
{
    reveal_strlit("1");
    lemma_sgr("1"@);
    lemma_reset_invisible();
    assert(ansi_bold() =~= "\x1b["@ + "1"@ + "m"@) by {
        reveal_strlit("\x1b[1m");
        reveal_strlit("\x1b[");
        reveal_strlit("m");
    }
    let bold = if is_bold(style.modifier) { ansi_bold() } else { Seq::<char>::empty() };
    assert(strip_escapes_from(Seq::<char>::empty(), false) =~= Seq::<char>::empty());
    lemma_color_invisible(38, style.fg);
    lemma_color_invisible(48, style.bg);
    let fg = spec_ansi_color(38, style.fg);
    let bg = spec_ansi_color(48, style.bg);
    lemma_strip_concat(ansi_reset(), bold, false);
    lemma_strip_concat(ansi_reset() + bold, fg, false);
    lemma_strip_concat(ansi_reset() + bold + fg, bg, false);
    assert(Seq::<char>::empty() + Seq::<char>::empty() =~= Seq::<char>::empty());
}

/// The reset escape prints nothing, closes itself and holds no newline.
proof fn lemma_reset_invisible()
    ensures
        strip_escapes_from(ansi_reset(), false) == Seq::<char>::empty(),
        !ends_in_escape(ansi_reset(), false),
        count_newlines(ansi_reset()) == 0,
{
    reveal_strlit("0");
    lemma_sgr("0"@);
    assert(ansi_reset() =~= "\x1b["@ + "0"@ + "m"@) by {
        reveal_strlit("\x1b[0m");
        reveal_strlit("\x1b[");
        reveal_strlit("m");
        reveal_strlit("0");
    }
}

/// A newline prints as itself and counts as one.
proof fn lemma_newline_visible()
    ensures
        strip_escapes_from("\n"@, false) == "\n"@,
        !ends_in_escape("\n"@, false),
        count_newlines("\n"@) == 1,
{
    reveal_strlit("\n");
    assert("\n"@.drop_first() =~= Seq::<char>::empty());
    assert("\n"@[0] == '\n');
    reveal_with_fuel(ends_in_escape, 2);
    reveal_with_fuel(count_newlines, 2);
    reveal_with_fuel(strip_escapes_from, 2);
    assert(strip_escapes_from("\n"@, false) =~= seq!['\n'] + Seq::<char>::empty());
}

/// No printed symbol of `cells` holds an escape character.
pub open spec fn symbols_plain(cells: Seq<FrameCell>) -> bool {
    forall|i: int, j: int|
        0 <= i < cells.len() && 0 <= j < cells[i].symbol@.len() ==> #[trigger] cells[i].symbol@[j] != '\x1b'
}

/// No printed symbol of `cells` holds a newline.
pub open spec fn symbols_single_line(cells: Seq<FrameCell>) -> bool {
    forall|i: int, j: int|
        0 <= i < cells.len() && 0 <= j < cells[i].symbol@.len() ==> #[trigger] cells[i].symbol@[j] != '\n'
}

proof fn lemma_no_newline(s: Seq<char>)
    requires
        forall|j: int| 0 <= j < s.len() ==> #[trigger] s[j] != '\n',
    ensures
        count_newlines(s) == 0,
    decreases s.len(),
{
    if s.len() > 0 {
        assert forall|j: int| 0 <= j < s.drop_first().len() implies #[trigger] s.drop_first()[j] != '\n' by {
            assert(s.drop_first()[j] == s[j + 1]);
        }
        assert(s[0] != '\n');
        lemma_no_newline(s.drop_first());
    }
}

proof fn lemma_run_visible(cells: Seq<FrameCell>)
    ensures
        symbols_plain(cells) ==> strip_escapes_from(styled_run(cells).0, false) == symbols(cells),
        symbols_plain(cells) ==> !ends_in_escape(styled_run(cells).0, false),
        symbols_single_line(cells) ==> count_newlines(styled_run(cells).0) == 0,
    decreases cells.len(),
{
    if cells.len() == 0 {
        assert(strip_escapes_from(Seq::<char>::empty(), false) =~= Seq::<char>::empty());
    } else {
        let rest = cells.drop_last();
        let cell = cells.last();
        assert(cell == cells[cells.len() - 1]);
        if symbols_plain(cells) {
            assert forall|i: int, j: int|
                0 <= i < rest.len() && 0 <= j < rest[i].symbol@.len() implies #[trigger] rest[i].symbol@[j]
                != '\x1b' by {
                assert(rest[i] == cells[i]);
            }
            assert forall|j: int| 0 <= j < cell.symbol@.len() implies #[trigger] cell.symbol@[j] != '\x1b' by {
                assert(cells[cells.len() - 1].symbol@[j] != '\x1b');
            }
            lemma_plain_text(cell.symbol@);
        }
        if symbols_single_line(cells) {
            assert forall|i: int, j: int|
                0 <= i < rest.len() && 0 <= j < rest[i].symbol@.len() implies #[trigger] rest[i].symbol@[j]
                != '\n' by {
                assert(rest[i] == cells[i]);
            }
            assert forall|j: int| 0 <= j < cell.symbol@.len() implies #[trigger] cell.symbol@[j] != '\n' by {
                assert(cells[cells.len() - 1].symbol@[j] != '\n');
            }
            lemma_no_newline(cell.symbol@);
        }
        lemma_run_visible(rest);
        let text = styled_run(rest).0;
        let current = styled_run(rest).1;
        let switch = if cell.style != current { spec_ansi_style(cell.style) } else { Seq::<char>::empty() };
        lemma_style_invisible(cell.style);
        assert(strip_escapes_from(Seq::<char>::empty(), false) =~= Seq::<char>::empty());
        lemma_strip_concat(text, switch, false);
        lemma_strip_concat(text + switch, cell.symbol@, false);
        assert(text + Seq::<char>::empty() =~= text);
    }
}

/// The visible text of a row is its printed symbols and a newline: the
/// escapes carry the styles and nothing else.
pub proof fn law_row_visible_text(cells: Seq<FrameCell>)
    requires
        symbols_plain(cells),
    ensures
        strip_escapes(spec_row_line(cells)) == symbols(cells) + "\n"@,
{
    reveal_strlit("\n");
    lemma_run_visible(cells);
    lemma_style_invisible(default_style());
    let text = styled_run(cells).0;
    let tail = if styled_run(cells).1 != default_style() { ansi_reset() } else { Seq::<char>::empty() };
    lemma_reset_invisible();
    lemma_newline_visible();
    assert(strip_escapes_from(Seq::<char>::empty(), false) =~= Seq::<char>::empty());
    lemma_strip_concat(text, tail, false);
    lemma_strip_concat(text + tail, "\n"@, false);
    assert(symbols(cells) + Seq::<char>::empty() =~= symbols(cells));
}

/// Each row of a frame prints as one line: where no printed symbol holds a
/// newline, the text of a frame has one newline per row and ends with one.
pub proof fn law_one_line_per_row(frame: &Frame, rows: nat)
    requires
        forall|r: int| 0 <= r < rows ==> symbols_single_line(#[trigger] printed_cells(frame, r)),
    ensures
        count_newlines(spec_frame_text(frame, rows)) == rows,
        rows > 0 ==> spec_frame_text(frame, rows).last() == '\n',
    decreases rows,
{
    if rows > 0 {
        reveal_strlit("\n");
        let cells = printed_cells(frame, rows - 1);
        assert(symbols_single_line(cells));
        law_one_line_per_row(frame, (rows - 1) as nat);
        lemma_run_visible(cells);
        let text = styled_run(cells).0;
        let tail = if styled_run(cells).1 != default_style() { ansi_reset() } else { Seq::<char>::empty() };
        lemma_reset_invisible();
        lemma_newline_visible();
        assert(count_newlines(Seq::<char>::empty()) == 0);
        lemma_strip_concat(text, tail, false);
        lemma_strip_concat(text + tail, "\n"@, false);
        lemma_strip_concat(spec_frame_text(frame, (rows - 1) as nat), spec_row_line(cells), false);
    }
}

/// A frame whose area fits in `u16` prints one line per row of its area.
pub proof fn law_frame_line_count(frame: &Frame)
    requires
        frame.area.y + frame.area.height <= u16::MAX,
        forall|r: int| 0 <= r < frame.area.height ==> symbols_single_line(#[trigger] printed_cells(frame, r)),
    ensures
        count_newlines(spec_frame_text(frame, printed_rows(frame.area))) == frame.area.height,
{
    law_one_line_per_row(frame, printed_rows(frame.area));
}

/// The visible text of a whole frame: each row's printed symbols and a
/// newline.
pub open spec fn visible_frame_text(frame: &Frame, rows: nat) -> Seq<char>
    decreases rows,
{
    if rows == 0 {
        Seq::empty()
    } else {
        visible_frame_text(frame, (rows - 1) as nat) + symbols(printed_cells(frame, rows - 1)) + "\n"@
    }
}

/// With escapes removed, a frame's text is each row's printed symbols and a
/// newline: escapes change styles and nothing else.
pub proof fn law_frame_visible_text(frame: &Frame, rows: nat)
    requires
        forall|r: int| 0 <= r < rows ==> symbols_plain(#[trigger] printed_cells(frame, r)),
    ensures
        strip_escapes(spec_frame_text(frame, rows)) == visible_frame_text(frame, rows),
        !ends_in_escape(spec_frame_text(frame, rows), false),
    decreases rows,
{
    if rows == 0 {
        assert(strip_escapes_from(Seq::<char>::empty(), false) =~= Seq::<char>::empty());
    } else {
        let cells = printed_cells(frame, rows - 1);
        assert(symbols_plain(cells));
        law_frame_visible_text(frame, (rows - 1) as nat);
        law_row_visible_text(cells);
        lemma_row_line_closes(cells);
        lemma_strip_concat(spec_frame_text(frame, (rows - 1) as nat), spec_row_line(cells), false);
        assert(visible_frame_text(frame, (rows - 1) as nat) + (symbols(cells) + "\n"@)
            =~= visible_frame_text(frame, rows));
    }
}

proof fn lemma_row_line_closes(cells: Seq<FrameCell>)
    requires
        symbols_plain(cells),
    ensures
        !ends_in_escape(spec_row_line(cells), false),
{
    reveal_strlit("\n");
    lemma_run_visible(cells);
    let text = styled_run(cells).0;
    let tail = if styled_run(cells).1 != default_style() { ansi_reset() } else { Seq::<char>::empty() };
    lemma_reset_invisible();
    lemma_newline_visible();
    lemma_strip_concat(text, tail, false);
    lemma_strip_concat(text + tail, "\n"@, false);
}


/// The SGR escape that sets the colour `layer` ("38" foreground, "48"
/// background) to `Rgb(r, g, b)`: red, green and blue in that order.
pub open spec fn rgb_escape(layer: Seq<char>, r: u8, g: u8, b: u8) -> Seq<char> {
    "\x1b["@ + layer + ";2;"@ + spec_decimal(r as nat) + ";"@ + spec_decimal(g as nat) + ";"@ + spec_decimal(
        b as nat,
    ) + "m"@
}

/// The SGR escape that sets the colour `layer` to palette entry `index`.
pub open spec fn palette_escape(layer: Seq<char>, index: u8) -> Seq<char> {
    "\x1b["@ + layer + ";5;"@ + spec_decimal(index as nat) + "m"@
}

proof fn lemma_layer_digits()
    ensures
        spec_decimal(38) == "38"@,
        spec_decimal(48) == "48"@,
{
    reveal_strlit("38");
    reveal_strlit("48");
    reveal_with_fuel(spec_decimal, 2);
    assert(crate::text::digit_char(3) == '3');
    assert(crate::text::digit_char(8) == '8');
    assert(crate::text::digit_char(4) == '4');
    assert(spec_decimal(38) =~= "38"@);
    assert(spec_decimal(48) =~= "48"@);
}

proof fn lemma_color_escape_shape(prefix: u8, color: Color)
    requires
        prefix == 38 || prefix == 48,
    ensures
        color matches Color::Rgb(r, g, b) ==> spec_ansi_color(prefix, color) == rgb_escape(
            spec_decimal(prefix as nat),
            r,
            g,
            b,
        ),
        palette_index(color) is Some ==> spec_ansi_color(prefix, color) == palette_escape(
            spec_decimal(prefix as nat),
            palette_index(color)->Some_0,
        ),
        color == Color::Reset ==> spec_ansi_color(prefix, color) == Seq::<char>::empty(),
{
    match color {
        Color::Rgb(r, g, b) => {
            assert(spec_ansi_color(prefix, color) =~= rgb_escape(spec_decimal(prefix as nat), r, g, b));
        },
        Color::Reset => {},
        _ => {
            assert(spec_ansi_color(prefix, color) =~= palette_escape(
                spec_decimal(prefix as nat),
                palette_index(color)->Some_0,
            ));
        },
    }
}

/// Switching to a style always starts with a full reset, then bold where
/// the style is bold.
pub proof fn law_style_escape_starts_with_reset(style: CellStyle)
    ensures
        "\x1b[0m"@.is_prefix_of(spec_ansi_style(style)),
        is_bold(style.modifier) ==> ("\x1b[0m"@ + "\x1b[1m"@).is_prefix_of(spec_ansi_style(style)),
        !is_bold(style.modifier) && style.fg == Color::Reset && style.bg == Color::Reset ==> spec_ansi_style(style)
            == "\x1b[0m"@,
{
    lemma_color_escape_shape(38, style.fg);
    lemma_color_escape_shape(48, style.bg);
    let rest = spec_ansi_color(38, style.fg) + spec_ansi_color(48, style.bg);
    let bold = if is_bold(style.modifier) { ansi_bold() } else { Seq::<char>::empty() };
    assert(spec_ansi_style(style) =~= "\x1b[0m"@ + (bold + rest));
    assert(spec_ansi_style(style) =~= "\x1b[0m"@ + bold + rest);
    assert(("\x1b[0m"@ + (bold + rest)).subrange(0, "\x1b[0m"@.len() as int) =~= "\x1b[0m"@);
    if is_bold(style.modifier) {
        assert(spec_ansi_style(style).subrange(0, ("\x1b[0m"@ + "\x1b[1m"@).len() as int) =~= "\x1b[0m"@
            + "\x1b[1m"@);
    }
}

/// A background `Rgb(r, g, b)` is encoded last, as `ESC[48;2;r;g;bm`, red,
/// green and blue in that order; a foreground `Rgb` the same way with 38,
/// just before it.
pub proof fn law_style_escape_rgb(style: CellStyle, r: u8, g: u8, b: u8)
    ensures
        style.bg == Color::Rgb(r, g, b) ==> rgb_escape("48"@, r, g, b).is_suffix_of(spec_ansi_style(style)),
        style.fg == Color::Rgb(r, g, b) && style.bg == Color::Reset ==> rgb_escape(
            "38"@,
            r,
            g,
            b,
        ).is_suffix_of(spec_ansi_style(style)),
        forall|r2: u8, g2: u8, b2: u8|
            style.fg == Color::Rgb(r, g, b) && style.bg == Color::Rgb(r2, g2, b2) ==> (rgb_escape("38"@, r, g, b)
                + #[trigger] rgb_escape("48"@, r2, g2, b2)).is_suffix_of(spec_ansi_style(style)),
{
    lemma_layer_digits();
    lemma_color_escape_shape(38, style.fg);
    lemma_color_escape_shape(48, style.bg);
    let head = "\x1b[0m"@ + (if is_bold(style.modifier) { ansi_bold() } else { Seq::<char>::empty() });
    let fg = spec_ansi_color(38, style.fg);
    let bg = spec_ansi_color(48, style.bg);
    assert(spec_ansi_style(style) =~= head + fg + bg);
    let whole = head + fg + bg;
    assert(whole.subrange(whole.len() - bg.len(), whole.len() as int) =~= bg);
    assert(whole.subrange(whole.len() - (fg + bg).len(), whole.len() as int) =~= fg + bg);
    assert(bg.len() == 0 ==> whole.subrange(whole.len() - fg.len(), whole.len() as int) =~= fg);
}

/// A named or indexed background colour is encoded last, as
/// `ESC[48;5;<index>m` with its palette index.
pub proof fn law_style_escape_palette(style: CellStyle)
    ensures
        palette_index(style.bg) is Some ==> palette_escape("48"@, palette_index(style.bg)->Some_0).is_suffix_of(
            spec_ansi_style(style),
        ),
{
    lemma_layer_digits();
    lemma_color_escape_shape(38, style.fg);
    lemma_color_escape_shape(48, style.bg);
    let head = "\x1b[0m"@ + (if is_bold(style.modifier) { ansi_bold() } else { Seq::<char>::empty() })
        + spec_ansi_color(38, style.fg);
    let bg = spec_ansi_color(48, style.bg);
    assert(spec_ansi_style(style) =~= head + bg);
    assert((head + bg).subrange((head + bg).len() - bg.len(), (head + bg).len() as int) =~= bg);
}

/// The palette indices of the named colours are those of the terminal's
/// 16-colour palette, and an indexed colour keeps its own index.
pub proof fn law_palette_indices(i: u8)
    ensures
        palette_index(Color::Black) == Some(0u8),
        palette_index(Color::Red) == Some(1u8),
        palette_index(Color::Green) == Some(2u8),
        palette_index(Color::Yellow) == Some(3u8),
        palette_index(Color::Blue) == Some(4u8),
        palette_index(Color::Magenta) == Some(5u8),
        palette_index(Color::Cyan) == Some(6u8),
        palette_index(Color::Gray) == Some(7u8),
        palette_index(Color::DarkGray) == Some(8u8),
        palette_index(Color::LightRed) == Some(9u8),
        palette_index(Color::LightGreen) == Some(10u8),
        palette_index(Color::LightYellow) == Some(11u8),
        palette_index(Color::LightBlue) == Some(12u8),
        palette_index(Color::LightMagenta) == Some(13u8),
        palette_index(Color::LightCyan) == Some(14u8),
        palette_index(Color::White) == Some(15u8),
        palette_index(Color::Indexed(i)) == Some(i),
        palette_index(Color::Reset) is None,
        forall|r: u8, g: u8, b: u8| #[trigger] palette_index(Color::Rgb(r, g, b)) is None,
{
}

} // verus!
