//! What the terminal cards show and where: titles, remaining percentages,
//! bar shapes, card placement and the frame height.

use vstd::prelude::*;

use crate::clock::zoned_time_text;
use crate::snapshot::{
    spec_reset_at_text, RESET_TIME_FORMAT, UNKNOWN_RESET_TIME, UsageSnapshot, WindowUsage, MAIN_BUCKET_TITLE, PRIMARY_WINDOW_LABEL,
    SECONDARY_WINDOW_LABEL, SPARK_BUCKET_TITLE,
};
use crate::text::{push_decimal, spec_decimal};

verus! {

/// Width of the drawn frame, in columns.
pub const VIEW_WIDTH: u16 = 86;
/// Height of a card.
pub const CARD_HEIGHT: u16 = 7;
/// Height of the section that holds one card.
pub const SECTION_HEIGHT: u16 = 7;
/// Blank rows between two sections.
pub const SECTION_GAP: u16 = 2;
/// Rows of one limit inside a card (title and reset line).
pub const LIMIT_ROW_HEIGHT: u16 = 2;
/// Width of the column with the limit title and reset time.
pub const LEFT_CELL_WIDTH: u16 = 30;
/// Width of the column with the bar.
pub const BAR_CELL_WIDTH: u16 = 36;
/// Width of the bar, caps included.
pub const BAR_WIDTH: u16 = 18;
/// Width of the "NNN% left" text.
pub const VALUE_WIDTH: u16 = 9;

/// A terminal color, as `ratatui` names them.
#[derive(Debug, Clone, Copy, PartialEq, Eq, Structural)]
pub enum Color {
    Reset,
    Black,
    Red,
    Green,
    Yellow,
    Blue,
    Magenta,
    Cyan,
    Gray,
    DarkGray,
    LightRed,
    LightGreen,
    LightYellow,
    LightBlue,
    LightMagenta,
    LightCyan,
    White,
    Rgb(u8, u8, u8),
    Indexed(u8),
}

/// Foreground of the reset-time line.
pub open spec fn muted_fg() -> Color {
    Color::Rgb(175, 175, 180)
}

/// Color of card borders.
pub open spec fn border_color() -> Color {
    Color::Rgb(137, 149, 184)
}

/// Color of the empty part of a bar.
pub open spec fn bar_empty_color() -> Color {
    Color::Rgb(64, 64, 64)
}

/// Foreground of the reset-time line.
pub fn muted_foreground() -> (r: Color)
    ensures
        r == muted_fg(),
{
    Color::Rgb(175, 175, 180)
}

/// Color of card borders.
pub fn border() -> (r: Color)
    ensures
        r == border_color(),
{
    Color::Rgb(137, 149, 184)
}

/// Color of the empty part of a bar.
pub fn bar_empty() -> (r: Color)
    ensures
        r == bar_empty_color(),
{
    Color::Rgb(64, 64, 64)
}

/// A rectangle of terminal cells.
#[derive(Debug, Clone, Copy, PartialEq, Eq, Structural)]
pub struct Area {
    pub x: u16,
    pub y: u16,
    pub width: u16,
    pub height: u16,
}

/// `a + b`, saturated at `u16::MAX`.
pub open spec fn sat_add(a: int, b: int) -> u16 {
    if a + b > u16::MAX { u16::MAX } else { (a + b) as u16 }
}

/// `a - b`, saturated at 0.
pub open spec fn sat_sub(a: int, b: int) -> u16 {
    if a - b < 0 { 0 } else { (a - b) as u16 }
}

/// `a * b`, saturated at `u16::MAX`.
pub open spec fn sat_mul(a: int, b: int) -> u16 {
    if a * b > u16::MAX { u16::MAX } else { (a * b) as u16 }
}

fn saturating_mul(a: u16, b: u16) -> (r: u16)
    ensures
        r == sat_mul(a as int, b as int),
{
    assert(a as int * b as int <= 0xffff * 0xffff) by (nonlinear_arith)
        requires a <= 0xffff, b <= 0xffff;
    let p = a as u32 * b as u32;
    if p > 0xffff { 0xffff } else { p as u16 }
}

/// The rectangle that `ratatui::layout::Rect::new` makes: width and height
/// are cut so that the right and bottom edges stay within `u16`.
pub open spec fn spec_area(x: u16, y: u16, width: u16, height: u16) -> Area {
    Area { x, y, width: (sat_add(x as int, width as int) - x) as u16, height: (sat_add(y as int, height as int) - y) as u16 }
}

impl Area {
    /// A rectangle at `(x, y)`, cut to stay within `u16` as `Rect::new` does.
    pub fn new(x: u16, y: u16, width: u16, height: u16) -> (r: Area)
        ensures
            r == spec_area(x, y, width, height),
    {
        Area { x, y, width: x.saturating_add(width) - x, height: y.saturating_add(height) - y }
    }
}

/// The heading of a card for the bucket titled `title`.
pub open spec fn spec_section_title(title: Seq<char>) -> Seq<char> {
    if title == MAIN_BUCKET_TITLE@ {
        "General usage limits"@
    } else if title == SPARK_BUCKET_TITLE@ {
        "GPT-5.3-Codex-Spark usage limits"@
    } else {
        title
    }
}

/// The heading of a card for the bucket titled `title`.
pub fn section_title(title: &'static str) -> (r: &'static str)
    ensures
        r@ == spec_section_title(title@),
{
    if crate::text::text_equals(title, MAIN_BUCKET_TITLE) {
        "General usage limits"
    } else if crate::text::text_equals(title, SPARK_BUCKET_TITLE) {
        "GPT-5.3-Codex-Spark usage limits"
    } else {
        title
    }
}

/// The heading of a limit row for the window labelled `label`.
pub open spec fn spec_limit_title(label: Seq<char>) -> Seq<char> {
    if label == PRIMARY_WINDOW_LABEL@ {
        "5 hour usage limit"@
    } else if label == SECONDARY_WINDOW_LABEL@ {
        "Weekly usage limit"@
    } else {
        label
    }
}

/// The heading of a limit row for the window labelled `label`.
pub fn limit_title(label: &'static str) -> (r: &'static str)
    ensures
        r@ == spec_limit_title(label@),
{
    if crate::text::text_equals(label, PRIMARY_WINDOW_LABEL) {
        "5 hour usage limit"
    } else if crate::text::text_equals(label, SECONDARY_WINDOW_LABEL) {
        "Weekly usage limit"
    } else {
        label
    }
}

/// The percentage left of a window: what is not used, counting at most
/// 100 as used.
pub open spec fn spec_remaining_percent(used_percent: u16) -> u16 {
    if used_percent >= 100 { 0 } else { (100 - used_percent) as u16 }
}

/// The percentage left of a window whose used percentage is `used_percent`.
pub fn remaining_percent(used_percent: u16) -> (r: u16)
    ensures
        r == spec_remaining_percent(used_percent),
        r <= 100,
        used_percent <= 100 ==> r + used_percent == 100,
{
    let used = if used_percent < 100 { used_percent } else { 100 };
    100u16.saturating_sub(used)
}

/// The color of a bar: red up to 10% left, yellow up to 30%, green above.
pub open spec fn spec_remaining_color(remaining_percent: u16) -> Color {
    if remaining_percent <= 10 {
        Color::Rgb(243, 139, 168)
    } else if remaining_percent <= 30 {
        Color::Rgb(249, 226, 175)
    } else {
        Color::Rgb(166, 227, 161)
    }
}

/// The color of a bar with `remaining_percent` left.
pub fn remaining_color(remaining_percent: u16) -> (r: Color)
    ensures
        r == spec_remaining_color(remaining_percent),
        (r == Color::Rgb(243, 139, 168)) == (remaining_percent <= 10),
        (r == Color::Rgb(249, 226, 175)) == (11 <= remaining_percent <= 30),
        (r == Color::Rgb(166, 227, 161)) == (remaining_percent > 30),
{
    if remaining_percent <= 10 {
        Color::Rgb(243, 139, 168)
    } else if remaining_percent <= 30 {
        Color::Rgb(249, 226, 175)
    } else {
        Color::Rgb(166, 227, 161)
    }
}

/// Height of the frame for `sections` cards: seven rows each and two
/// between neighbours, at least one row, at most `u16::MAX`.
pub open spec fn spec_output_height(sections: nat) -> u16 {
    if sections == 0 {
        1
    } else if 9 * sections - 2 > u16::MAX {
        u16::MAX
    } else {
        (9 * sections - 2) as u16
    }
}

/// Height of the frame that shows `snapshot`.
pub fn output_height(snapshot: &UsageSnapshot) -> (r: u16)
    ensures
        r == spec_output_height(snapshot.buckets@.len()),
        r >= 1,
{
    let n = snapshot.buckets.len();
    let section_count: u16 = if n > 0xffff { 0xffff } else { n as u16 };
    let gap_count = section_count.saturating_sub(1);
    let height = saturating_mul(section_count, SECTION_HEIGHT).saturating_add(
        saturating_mul(gap_count, SECTION_GAP),
    );
    if height > 1 { height } else { 1 }
}

/// Where the card of section `index` starts: the top of the frame, then
/// nine rows further for each section before it, within `u16`.
pub open spec fn section_top(area: Area, index: int) -> u16 {
    sat_add(area.y as int, 9 * index)
}

/// The rectangle of section `index` in `area`.
pub open spec fn spec_section_area(area: Area, index: int) -> Area {
    spec_area(area.x, section_top(area, index), if area.width < VIEW_WIDTH { area.width } else { VIEW_WIDTH }, SECTION_HEIGHT)
}

/// The rectangles of the cards of a frame `area` with `sections` cards,
/// one under the other.
pub fn section_areas(area: Area, sections: usize) -> (r: Vec<Area>)
    ensures
        r@.len() == sections,
        forall|i: int| 0 <= i < sections ==> #[trigger] r@[i] == spec_section_area(area, i),
{
    let width = if VIEW_WIDTH < area.width { VIEW_WIDTH } else { area.width };
    let mut y = area.y;
    let mut areas: Vec<Area> = Vec::new();
    let mut index: usize = 0;
    while index < sections
        invariant
            index <= sections,
            areas@.len() == index,
            index < sections ==> y == section_top(area, index as int),
            width == (if area.width < VIEW_WIDTH { area.width } else { VIEW_WIDTH }),
            forall|i: int| 0 <= i < index ==> #[trigger] areas@[i] == spec_section_area(area, i),
        decreases sections - index,
    {
        areas.push(Area::new(area.x, y, width, SECTION_HEIGHT));
        y = y.saturating_add(SECTION_HEIGHT);
        if index + 1 < sections {
            y = y.saturating_add(SECTION_GAP);
        }
        index = index + 1;
    }
    areas
}

/// The parts of a bar: the colors of its two caps and how many cells of
/// its inside are filled and empty.
#[derive(Debug, Clone, Copy, PartialEq, Eq, Structural)]
pub struct BarShape {
    pub left_cap: Color,
    pub filled: u16,
    pub empty: u16,
    pub right_cap: Color,
    pub fill: Color,
}

/// The bar for `percent` of `width` cells, the two caps included: the
/// inside is filled to `percent`, rounded up.
pub open spec fn spec_rounded_bar(percent: u16, width: u16, fill: Color) -> BarShape {
    let inner = sat_sub(width as int, 2);
    let filled = (sat_add(sat_mul(inner as int, percent as int) as int, 99) / 100) as u16;
    BarShape {
        left_cap: if percent == 0 { bar_empty_color() } else { fill },
        filled,
        empty: sat_sub(inner as int, filled as int),
        right_cap: if percent == 100 { fill } else { bar_empty_color() },
        fill,
    }
}

/// The bar for `percent` of `width` cells in the color `fill`.
pub fn rounded_bar(percent: u16, width: u16, fill: Color) -> (r: BarShape)
    ensures
        r == spec_rounded_bar(percent, width, fill),
        r.fill == fill,
        r.right_cap == (if percent == 100 { fill } else { Color::Rgb(64, 64, 64) }),
        r.left_cap == (if percent == 0 { Color::Rgb(64, 64, 64) } else { fill }),
        width >= 2 && percent <= 100 ==> r.filled + r.empty == width - 2,
        width >= 2 && (width - 2) * percent + 99 <= u16::MAX ==> r.filled as int == ((width - 2) * percent + 99) / 100,
{
    let inner_width = width.saturating_sub(2);
    let filled_width = saturating_mul(inner_width, percent).saturating_add(99) / 100;
    let empty_width = inner_width.saturating_sub(filled_width);
    let left_cap = if percent == 0 { bar_empty() } else { fill };
    let right_cap = if percent == 100 { fill } else { bar_empty() };
    proof {
        if width >= 2 && percent <= 100 {
            let inner = (width - 2) as int;
            assert(inner * percent <= inner * 100) by (nonlinear_arith)
                requires 0 <= inner, percent <= 100;
            assert(filled_width <= inner) by (nonlinear_arith)
                requires
                    filled_width as int == sat_add(sat_mul(inner, percent as int) as int, 99) / 100,
                    sat_mul(inner, percent as int) <= inner * percent,
                    inner * percent <= inner * 100,
                    0 <= inner;
        }
    }
    BarShape { left_cap, filled: filled_width, empty: empty_width, right_cap, fill }
}

/// What one limit row of a card shows.
#[derive(Debug, Clone, PartialEq, Eq)]
pub struct LimitRow {
    /// Heading of the row.
    pub title: &'static str,
    /// "Resets " and the reset time.
    pub reset_text: String,
    /// Percentage left.
    pub remaining: u16,
    /// The percentage left, right-aligned in three columns, and "% left".
    pub value_text: String,
    /// Color of the bar.
    pub fill_color: Color,
    /// The bar.
    pub bar: BarShape,
}

/// `text` right-aligned in `width` columns, as `format!("{:>width$}")` does.
pub open spec fn spec_pad_left(text: Seq<char>, width: nat) -> Seq<char> {
    if text.len() >= width {
        text
    } else {
        Seq::new((width - text.len()) as nat, |_i: int| ' ') + text
    }
}

/// The value column of a limit row, as `format!("{remaining:>3}% left")`.
pub open spec fn spec_value_text(remaining: u16) -> Seq<char> {
    spec_pad_left(spec_decimal(remaining as nat), 3) + "% left"@
}

fn value_text(remaining: u16) -> (r: String)
    requires
        remaining <= 100,
    ensures
        r@ == spec_value_text(remaining),
{
    proof {
        reveal_strlit("  ");
        reveal_strlit(" ");
        reveal_strlit("");
        let d = spec_decimal(remaining as nat);
        if remaining >= 10 {
            assert(spec_decimal((remaining / 10) as nat).len() >= 1) by {
                reveal_with_fuel(spec_decimal, 2);
            }
        }
        if remaining < 10 {
            assert(d.len() == 1);
        } else if remaining < 100 {
            assert(spec_decimal((remaining / 10) as nat).len() == 1);
            assert(d.len() == 2);
        } else {
            assert(spec_decimal(10).len() == 2) by {
                assert(spec_decimal(1).len() == 1);
            }
            assert(d.len() == 3);
        }
    }
    let mut text = if remaining < 10 {
        "  ".to_owned()
    } else if remaining < 100 {
        " ".to_owned()
    } else {
        "".to_owned()
    };
    let ghost pad = text@;
    push_decimal(&mut text, remaining as u64);
    proof {
        let d = spec_decimal(remaining as nat);
        if d.len() < 3 {
            assert(pad =~= Seq::new((3 - d.len()) as nat, |_i: int| ' '));
        } else {
            assert(pad =~= Seq::<char>::empty());
        }
        assert(text@ =~= spec_pad_left(d, 3));
    }
    text.append("% left");
    text
}

/// The row shown for `window`, with reset times in the zone named `zone`.
pub open spec fn spec_limit_row_matches(row: LimitRow, window: WindowUsage, zone: Seq<char>) -> bool {
    let remaining = spec_remaining_percent(window.used_percent);
    &&& row.title@ == spec_limit_title(window.label@)
    &&& row.reset_text@ == "Resets "@ + spec_reset_at_text(window.reset_at, zone)
    &&& row.remaining == remaining
    &&& row.value_text@ == spec_value_text(remaining)
    &&& row.fill_color == spec_remaining_color(remaining)
    &&& row.bar == spec_rounded_bar(remaining, BAR_WIDTH, spec_remaining_color(remaining))
}

/// What the limit row of `window` shows, with reset times in the zone
/// named `zone`.
pub fn limit_row(window: &WindowUsage, zone: &str) -> (r: LimitRow)
    ensures
        spec_limit_row_matches(r, *window, zone@),
        forall|t: i64|
            window.reset_at == Some(t) && #[trigger] zoned_time_text(t, zone@, RESET_TIME_FORMAT@) is Some
                ==> r.reset_text@ == "Resets "@ + zoned_time_text(t, zone@, RESET_TIME_FORMAT@)->Some_0,
        forall|t: i64|
            window.reset_at == Some(t) && #[trigger] zoned_time_text(t, zone@, RESET_TIME_FORMAT@) is None
                ==> r.reset_text@ == "Resets "@ + UNKNOWN_RESET_TIME@,
        window.reset_at is None ==> r.reset_text@ == "Resets "@ + UNKNOWN_RESET_TIME@,
        r.remaining + (if window.used_percent > 100 { 100 } else { window.used_percent as int }) == 100,
{
    let remaining = remaining_percent(window.used_percent);
    let fill_color = remaining_color(remaining);
    let mut reset_text = "Resets ".to_owned();
    let when = window.reset_at_text(zone);
    reset_text.append(when.as_str());
    LimitRow {
        title: limit_title(window.label),
        reset_text,
        remaining,
        value_text: value_text(remaining),
        fill_color,
        bar: rounded_bar(remaining, BAR_WIDTH, fill_color),
    }
}


/// Cards stand one under the other: while the frame fits in `u16`, each
/// card starts nine rows (its seven rows and a two-row gap) below the one
/// before, and no two cards overlap.
pub proof fn law_sections_stack(area: Area, i: int)
    requires
        0 <= i,
        area.y + 9 * (i + 1) + SECTION_HEIGHT <= u16::MAX,
    ensures
        spec_section_area(area, i + 1).y == spec_section_area(area, i).y + SECTION_HEIGHT + SECTION_GAP,
        spec_section_area(area, i).y + spec_section_area(area, i).height < spec_section_area(area, i + 1).y,
        spec_section_area(area, i).height == SECTION_HEIGHT,
{
}

/// The ends of a bar: nothing left gives an empty bar with an empty left
/// cap; all left gives a full bar with a filled right cap.
pub proof fn law_bar_extremes(width: u16, fill: Color)
    requires
        2 <= width <= 657,
    ensures
        spec_rounded_bar(0, width, fill).filled == 0,
        spec_rounded_bar(0, width, fill).empty == width - 2,
        spec_rounded_bar(0, width, fill).left_cap == bar_empty_color(),
        spec_rounded_bar(100, width, fill).filled == width - 2,
        spec_rounded_bar(100, width, fill).empty == 0,
        spec_rounded_bar(100, width, fill).left_cap == fill,
        spec_rounded_bar(100, width, fill).right_cap == fill,
{
    let inner = width - 2;
    assert(inner * 100 <= u16::MAX) by (nonlinear_arith)
        requires inner <= 655;
    assert((inner * 100 + 99) / 100 == inner) by (nonlinear_arith)
        requires inner >= 0;
}

/// Any bar with at least one percent left shows at least one filled cell,
/// and the bar keeps its width.
pub proof fn law_bar_fills_partial_use(percent: u16, width: u16, fill: Color)
    requires
        1 <= percent <= 100,
        3 <= width <= 657,
    ensures
        spec_rounded_bar(percent, width, fill).filled >= 1,
        spec_rounded_bar(percent, width, fill).filled + spec_rounded_bar(percent, width, fill).empty == width - 2,
{
    let inner = width - 2;
    assert(inner * percent <= inner * 100 && inner * 100 <= u16::MAX && inner * percent >= 1)
        by (nonlinear_arith)
        requires 1 <= inner <= 655, 1 <= percent <= 100;
    assert((inner * percent + 99) / 100 <= inner) by (nonlinear_arith)
        requires 1 <= inner, inner * percent <= inner * 100;
}


/// Share of a row's bar and value columns given to each side margin, in
/// percent; the middle takes the rest.
pub const SIDE_MARGIN_PERCENT: u16 = 25;
/// Share of a row's bar and value columns given to the middle, in percent.
pub const MIDDLE_PERCENT: u16 = 50;

/// How a piece of text is drawn: its colors (`None` keeps what is under
/// it) and whether it is bold.
#[derive(Debug, Clone, Copy, PartialEq, Eq)]
pub struct TextStyle {
    pub fg: Option<Color>,
    pub bg: Option<Color>,
    pub bold: bool,
}

/// The look of a card: a rounded border in the border color, and a bold
/// heading.
#[derive(Debug, Clone, Copy, PartialEq, Eq)]
pub struct CardLook {
    pub rounded: bool,
    pub border: TextStyle,
    pub heading: &'static str,
    pub heading_style: TextStyle,
}

/// The look of the card of the bucket titled `title`.
pub open spec fn spec_card_look(title: Seq<char>) -> (bool, TextStyle, Seq<char>, TextStyle) {
    (
        true,
        TextStyle { fg: Some(border_color()), bg: None, bold: false },
        spec_section_title(title),
        TextStyle { fg: None, bg: None, bold: true },
    )
}

/// The look of the card of the bucket titled `title`.
pub fn card_look(title: &'static str) -> (r: CardLook)
    ensures
        (r.rounded, r.border, r.heading@, r.heading_style) == spec_card_look(title@),
{
    CardLook {
        rounded: true,
        border: TextStyle { fg: Some(border()), bg: None, bold: false },
        heading: section_title(title),
        heading_style: TextStyle { fg: None, bg: None, bold: true },
    }
}

/// Height of the block drawn above the divider line of a card: from the
/// card's top down to and including the divider row, within `u16`.
pub fn divider_block_height(card_y: u16, divider_y: u16) -> (r: u16)
    ensures
        r == sat_add(sat_sub(divider_y as int, card_y as int) as int, 1),
{
    divider_y.saturating_sub(card_y).saturating_add(1)
}

/// The styles of the three texts of a limit row: the heading, the reset
/// line and the value.
pub open spec fn spec_limit_row_styles() -> (TextStyle, TextStyle, TextStyle) {
    (
        TextStyle { fg: None, bg: None, bold: true },
        TextStyle { fg: Some(muted_fg()), bg: None, bold: false },
        TextStyle { fg: Some(Color::White), bg: None, bold: false },
    )
}

/// The styles of the heading, reset line and value of a limit row.
pub fn limit_row_styles() -> (r: (TextStyle, TextStyle, TextStyle))
    ensures
        r == spec_limit_row_styles(),
{
    (
        TextStyle { fg: None, bg: None, bold: true },
        TextStyle { fg: Some(muted_foreground()), bg: None, bold: false },
        TextStyle { fg: Some(Color::White), bg: None, bold: false },
    )
}

/// A piece of a drawn bar.
#[derive(Debug, Clone, PartialEq, Eq)]
pub struct BarSegment {
    pub text: String,
    pub style: TextStyle,
}

/// The left cap glyph of a bar.
pub const BAR_LEFT_CAP: &'static str = "\u{e0b6}";
/// The right cap glyph of a bar.
pub const BAR_RIGHT_CAP: &'static str = "\u{e0b4}";

/// `n` spaces.
pub open spec fn spaces(n: nat) -> Seq<char> {
    Seq::new(n, |_i: int| ' ')
}

/// The pieces of a bar, left to right: the left cap in its color, the
/// filled cells and the empty cells as spaces in their colors, and the
/// right cap.
pub open spec fn spec_bar_segments(bar: BarShape) -> Seq<(Seq<char>, TextStyle)> {
    seq![
        (BAR_LEFT_CAP@, TextStyle { fg: Some(bar.left_cap), bg: None, bold: false }),
        (spaces(bar.filled as nat), TextStyle { fg: Some(bar.fill), bg: Some(bar.fill), bold: false }),
        (spaces(bar.empty as nat), TextStyle { fg: Some(bar_empty_color()), bg: Some(bar_empty_color()), bold: false }),
        (BAR_RIGHT_CAP@, TextStyle { fg: Some(bar.right_cap), bg: None, bold: false }),
    ]
}

fn repeat_space(n: u16) -> (r: String)
    ensures
        r@ == spaces(n as nat),
{
    let mut text = String::new();
    let mut i: u16 = 0;
    while i < n
        invariant
            i <= n,
            text@ == spaces(i as nat),
        decreases n - i,
    {
        text.append(" ");
        proof {
            reveal_strlit(" ");
        }
        i = i + 1;
        assert(text@ =~= spaces(i as nat));
    }
    text
}

/// The pieces of the drawn bar `bar`.
pub fn bar_segments(bar: &BarShape) -> (r: Vec<BarSegment>)
    ensures
        r@.len() == 4,
        forall|i: int| 0 <= i < 4 ==> (#[trigger] r@[i]).text@ == spec_bar_segments(*bar)[i].0 && r@[i].style
            == spec_bar_segments(*bar)[i].1,
{
    let empty = bar_empty();
    let segments = vec![
        BarSegment { text: BAR_LEFT_CAP.to_owned(), style: TextStyle { fg: Some(bar.left_cap), bg: None, bold: false } },
        BarSegment { text: repeat_space(bar.filled), style: TextStyle { fg: Some(bar.fill), bg: Some(bar.fill), bold: false } },
        BarSegment { text: repeat_space(bar.empty), style: TextStyle { fg: Some(empty), bg: Some(empty), bold: false } },
        BarSegment { text: BAR_RIGHT_CAP.to_owned(), style: TextStyle { fg: Some(bar.right_cap), bg: None, bold: false } },
    ];
    segments
}

/// The bar keeps its width: its pieces hold the two caps and exactly the
/// inside's cells.
pub proof fn law_bar_segments_fill_inside(bar: BarShape)
    ensures
        spec_bar_segments(bar)[1].0.len() + spec_bar_segments(bar)[2].0.len() == bar.filled + bar.empty,
        BAR_LEFT_CAP@.len() == 1,
        BAR_RIGHT_CAP@.len() == 1,
{
    reveal_strlit("\u{e0b6}");
    reveal_strlit("\u{e0b4}");
}


/// The bar is red exactly when at most 10% is left, yellow exactly when
/// 11% to 30% is left, and green whenever more than 30% is left.
pub proof fn law_bar_color_bands(remaining: u16)
    ensures
        (spec_remaining_color(remaining) == Color::Rgb(243, 139, 168)) == (remaining <= 10),
        (spec_remaining_color(remaining) == Color::Rgb(249, 226, 175)) == (11 <= remaining <= 30),
        (spec_remaining_color(remaining) == Color::Rgb(166, 227, 161)) == (remaining > 30),
{
}

/// The caps of a bar: the right cap takes the fill colour only when all is
/// left, the left cap only when something is left; otherwise they are grey.
pub proof fn law_bar_caps(percent: u16, width: u16, fill: Color)
    ensures
        spec_rounded_bar(percent, width, fill).right_cap == (if percent == 100 { fill } else { Color::Rgb(64, 64, 64) }),
        spec_rounded_bar(percent, width, fill).left_cap == (if percent == 0 { Color::Rgb(64, 64, 64) } else { fill }),
        spec_rounded_bar(percent, width, fill).fill == fill,
{
}

/// The reset line of a limit row is "Resets " and the window's reset time
/// in the zone the row is given: rows for one window in two zones whose
/// texts for that instant differ are different.
pub proof fn law_reset_line_follows_zone(
    row1: LimitRow,
    row2: LimitRow,
    window: WindowUsage,
    zone1: Seq<char>,
    zone2: Seq<char>,
    t: i64,
    text1: Seq<char>,
    text2: Seq<char>,
)
    requires
        spec_limit_row_matches(row1, window, zone1),
        spec_limit_row_matches(row2, window, zone2),
        window.reset_at == Some(t),
        zoned_time_text(t, zone1, RESET_TIME_FORMAT@) == Some(text1),
        zoned_time_text(t, zone2, RESET_TIME_FORMAT@) == Some(text2),
    ensures
        row1.reset_text@ == "Resets "@ + text1,
        row2.reset_text@ == "Resets "@ + text2,
        text1 != text2 ==> row1.reset_text@ != row2.reset_text@,
{
    if text1 != text2 {
        let p = "Resets "@;
        if row1.reset_text@ == row2.reset_text@ {
            assert((p + text1).subrange(p.len() as int, (p + text1).len() as int) =~= text1);
            assert((p + text2).subrange(p.len() as int, (p + text2).len() as int) =~= text2);
        }
    }
}

/// A row shows what is left: used and left add up to 100, counting at most
/// 100 as used.
pub proof fn law_remaining_complements_used(used: u16)
    ensures
        spec_remaining_percent(used) + (if used > 100 { 100 } else { used as int }) == 100,
{
}


/// The value text is nine columns wide: the percentage left in decimal,
/// right-aligned in three columns behind spaces, then "% left".
pub proof fn law_value_text_layout(remaining: u16)
    requires
        remaining <= 100,
    ensures
        spec_value_text(remaining).len() == 9,
        "% left"@.is_suffix_of(spec_value_text(remaining)),
        spec_decimal(remaining as nat).is_suffix_of(spec_value_text(remaining).subrange(0, 3)),
        forall|i: int| 0 <= i < 3 - spec_decimal(remaining as nat).len() ==> #[trigger] spec_value_text(remaining)[i] == ' ',
{
    reveal_strlit("% left");
    crate::text::law_decimal_denotes_value(remaining as nat);
    let d = spec_decimal(remaining as nat);
    assert(d.len() <= 3) by {
        lemma_decimal_short(remaining as nat);
    }
    let padded = spec_pad_left(d, 3);
    assert(padded.len() == 3);
    let v = spec_value_text(remaining);
    assert(v =~= padded + "% left"@);
    assert(v.subrange(0, 3) =~= padded);
    assert(v.subrange(3, 9) =~= "% left"@);
    assert(padded.subrange(3 - d.len(), 3) =~= d);
}

proof fn lemma_decimal_short(n: nat)
    requires
        n <= 100,
    ensures
        spec_decimal(n).len() <= 3,
        n < 10 ==> spec_decimal(n).len() == 1,
{
    if n >= 10 {
        assert(spec_decimal(n / 10).len() <= 2) by {
            if n / 10 >= 10 {
                assert(spec_decimal(n / 10 / 10).len() == 1);
            }
        }
    }
}

/// The frame is exactly tall enough for its cards: in a frame whose top is
/// row 0, the last of `n` cards ends on the frame's last row.
pub proof fn law_height_fits_cards(area: Area, n: nat)
    requires
        area.y == 0,
        1 <= n,
        9 * n - 2 <= u16::MAX,
    ensures
        spec_section_area(area, n - 1).y + spec_section_area(area, n - 1).height == spec_output_height(n),
{
}

} // verus!
