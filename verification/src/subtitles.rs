//! Subtitle events as rectangles: the text of an event, wrapped to the width
//! that its margins leave and placed as its style says.

use vstd::prelude::*;
use vstd::utf8::encode_utf8;

use crate::sub_rect::{sub_rect_views, SubRect, SubRectView};
use crate::text::same_text;

verus! {

/// Where a line stands between the left and the right margin.
#[derive(Clone, Copy, Debug, PartialEq, Eq, Structural)]
pub enum AlignX {
    Left,
    Centre,
    Right,
}

/// Where the lines stand between top and bottom.
#[derive(Clone, Copy, Debug, PartialEq, Eq, Structural)]
pub enum AlignY {
    Bottom,
    Middle,
    Top,
}

/// What a style says about the place and the colours of its events. Margins
/// are in cells, colours are palette indices.
#[derive(Clone, Copy, Debug, PartialEq, Eq, Structural)]
pub struct StyleInfo {
    pub margin_left: i64,
    pub margin_right: i64,
    pub margin_vert: i64,
    pub align_x: AlignX,
    pub align_y: AlignY,
    pub fg: u8,
    pub bg: u8,
}

/// The alignment that the number `alignment` of a style stands for: 1 to 3
/// at the bottom, 4 to 6 in the middle, 7 to 9 at the top, and in each group
/// left, centre, right.
pub open spec fn alignment_for(alignment: i64) -> Option<(AlignX, AlignY)> {
    if 1 <= alignment <= 9 {
        Some(
            (
                if (alignment - 1) % 3 == 0 {
                    AlignX::Left
                } else if (alignment - 1) % 3 == 1 {
                    AlignX::Centre
                } else {
                    AlignX::Right
                },
                if alignment <= 3 {
                    AlignY::Bottom
                } else if alignment <= 6 {
                    AlignY::Middle
                } else {
                    AlignY::Top
                },
            ),
        )
    } else {
        None
    }
}

/// The alignment that the number `alignment` stands for, or `None` for a
/// number that stands for none.
pub fn alignment_of(alignment: i64) -> (r: Option<(AlignX, AlignY)>)
    ensures
        r == alignment_for(alignment),
{
    if alignment < 1 || alignment > 9 {
        return None;
    }
    let x: AlignX = match (alignment - 1) % 3 {
        0 => AlignX::Left,
        1 => AlignX::Centre,
        _ => AlignX::Right,
    };
    let y: AlignY = if alignment <= 3 {
        AlignY::Bottom
    } else if alignment <= 6 {
        AlignY::Middle
    } else {
        AlignY::Top
    };
    Some((x, y))
}

/// The lines that `textwrap::wrap` makes of `text` for lines of `width`
/// columns, when it fills each line with as many words as fit.
pub uninterp spec fn greedy_wrapped(text: Seq<char>, width: nat) -> Seq<Seq<char>>;

/// Whether `c` is white space: a character with the Unicode property
/// `White_Space`.
pub open spec fn is_white_space(c: char) -> bool {
    ||| '\u{9}' <= c <= '\u{d}'
    ||| c == ' '
    ||| c == '\u{85}'
    ||| c == '\u{a0}'
    ||| c == '\u{1680}'
    ||| '\u{2000}' <= c <= '\u{200a}'
    ||| c == '\u{2028}'
    ||| c == '\u{2029}'
    ||| c == '\u{202f}'
    ||| c == '\u{205f}'
    ||| c == '\u{3000}'
}

/// `text` without the white space at its start.
pub open spec fn trimmed_start(text: Seq<char>) -> Seq<char>
    decreases text.len(),
{
    if text.len() > 0 && is_white_space(text[0]) {
        trimmed_start(text.skip(1))
    } else {
        text
    }
}

/// `text` without the white space at its end.
pub open spec fn trimmed_end(text: Seq<char>) -> Seq<char>
    decreases text.len(),
{
    if text.len() > 0 && is_white_space(text.last()) {
        trimmed_end(text.drop_last())
    } else {
        text
    }
}

/// `text` without the white space at its start and at its end.
pub open spec fn trimmed(text: Seq<char>) -> Seq<char> {
    trimmed_end(trimmed_start(text))
}

/// `text` with `with` in the place of `pattern` wherever it stands, taken from
/// the left, no character twice.
pub open spec fn replaced(text: Seq<char>, pattern: Seq<char>, with: Seq<char>) -> Seq<char>
    decreases text.len(),
{
    if pattern.len() == 0 || text.len() < pattern.len() {
        text
    } else if text.take(pattern.len() as int) == pattern {
        with + replaced(text.skip(pattern.len() as int), pattern, with)
    } else {
        seq![text[0]] + replaced(text.skip(1), pattern, with)
    }
}

/// The mark of a break in the text of an event: a backslash and `N`.
pub open spec fn break_mark() -> Seq<char> {
    seq!['\\', 'N']
}

/// `text` without the marks of breaks.
pub open spec fn without_breaks(text: Seq<char>) -> Seq<char> {
    replaced(text, break_mark(), Seq::empty())
}

/// The texts of the strings.
pub open spec fn texts_of(lines: Seq<String>) -> Seq<Seq<char>> {
    Seq::new(lines.len(), |i: int| lines[i]@)
}

/// Wraps `text` to lines of `width` columns.
/// Trusted: `textwrap::wrap` with the first-fit algorithm returns lines that
/// depend on the text and the width alone.
#[verifier::external_body]
pub(crate) fn wrap_greedy(text: &str, width: usize) -> (lines: Vec<String>)
    ensures
        texts_of(lines@) == greedy_wrapped(text@, width as nat),
{
    let options = textwrap::Options::new(width).wrap_algorithm(textwrap::WrapAlgorithm::FirstFit);
    textwrap::wrap(text, options).into_iter().map(|line| line.into_owned()).collect()
}

/// Trusted: `str::trim` returns the text without the white space at its start
/// and at its end, where white space is what has the Unicode property
/// `White_Space`.
#[verifier::external_body]
pub(crate) fn trim_text(text: &str) -> (r: String)
    ensures
        r@ == trimmed(text@),
{
    text.trim().to_owned()
}

/// Trusted: `str::replace` returns the text with the second string in the
/// place of every match of the first, a pattern that is not empty; the
/// matches are taken from the left and do not overlap.
#[verifier::external_body]
pub(crate) fn replace_text(text: &str, pattern: &str, with: &str) -> (r: String)
    requires
        pattern@.len() > 0,
    ensures
        r@ == replaced(text@, pattern@, with@),
{
    text.replace(pattern, with)
}

/// `text` without the marks of breaks.
pub fn remove_breaks(text: &str) -> (r: String)
    ensures
        r@ == without_breaks(text@),
{
    proof {
        reveal_strlit("\\N");
        reveal_strlit("");
        assert("\\N"@ =~= break_mark());
        assert(""@ =~= Seq::<char>::empty());
    }
    replace_text(text, "\\N", "")
}

/// A style with its name.
pub struct NamedStyle {
    pub name: String,
    pub style: StyleInfo,
}

/// The index of the last style of `styles` with the name `name`.
pub open spec fn style_of(styles: Seq<NamedStyle>, name: Seq<char>) -> Option<int>
    decreases styles.len(),
{
    if styles.len() == 0 {
        None
    } else if styles.last().name@ == name {
        Some(styles.len() - 1)
    } else {
        style_of(styles.drop_last(), name)
    }
}

/// The margin of an event: its own where it has one, else that of its style.
pub open spec fn margin_or(event_margin: i64, style_margin: i64) -> i64 {
    if event_margin == 0 {
        style_margin
    } else {
        event_margin
    }
}

/// Half of `v`, rounded towards zero.
pub open spec fn half(v: i64) -> i64 {
    if v >= 0 {
        (v / 2) as i64
    } else {
        (-((-v) / 2)) as i64
    }
}

/// Half of `v`, rounded towards zero.
pub fn halved(v: i64) -> (r: i64)
    ensures
        r == half(v),
{
    if v >= 0 {
        v / 2
    } else {
        let m: i128 = -(v as i128);
        (-(m / 2)) as i64
    }
}

/// The row of the first line of an event, for a target of `target_y` rows
/// of pixels: two rows of pixels make one row of cells.
pub open spec fn first_row(align: AlignY, target_y: i64, margin_vert: i64) -> i64 {
    match align {
        AlignY::Bottom => half(target_y).wrapping_sub(margin_vert),
        AlignY::Middle => half(half(target_y)).wrapping_add(1),
        AlignY::Top => margin_vert,
    }
}

/// The column of a line that leaves `padding` columns free.
pub open spec fn first_column(align: AlignX, margin_left: i64, padding: i64) -> i64 {
    match align {
        AlignX::Right => margin_left.wrapping_add(padding),
        AlignX::Centre => margin_left.wrapping_add(half(padding)),
        AlignX::Left => margin_left,
    }
}

/// The row `i` rows below `row`; past the last row the count starts again at
/// the first.
pub open spec fn row_below(row: i64, i: int) -> i64
    decreases i,
{
    if i <= 0 {
        row
    } else {
        row_below(row, i - 1).wrapping_add(1)
    }
}

/// The rectangle for a line with the text `text` in the row `row`, between
/// margins that leave `max_space` columns.
pub open spec fn placed_line(
    style: StyleInfo,
    margin_left: i64,
    max_space: i64,
    row: i64,
    text: Seq<char>,
) -> SubRectView {
    let padding = max_space.wrapping_sub(encode_utf8(text).len() as i64);
    SubRectView {
        fg: style.fg,
        bg: style.bg,
        x: first_column(style.align_x, margin_left, padding) as i16,
        y: row as i16,
        text,
    }
}

/// The rectangle for the `i`-th line `line` of an event: the line without the
/// white space round it and without break marks, `i` rows below `row`.
pub open spec fn line_rect(
    style: StyleInfo,
    margin_left: i64,
    max_space: i64,
    row: i64,
    i: int,
    line: Seq<char>,
) -> SubRectView {
    placed_line(style, margin_left, max_space, row_below(row, i), without_breaks(trimmed(line)))
}

/// The rectangle for a line with the text `text` in the row `row`, between
/// margins that leave `max_space` columns: at the left margin, against the
/// right margin, or half-way, as the style says.
pub fn place_line(style: &StyleInfo, margin_left: i64, max_space: i64, row: i64, text: String) -> (r:
    SubRect)
    ensures
        r@ == placed_line(*style, margin_left, max_space, row, text@),
{
    let used: usize = text.as_str().as_bytes().len();
    let padding_needed: i64 = max_space.wrapping_sub(
        #[verifier::truncate]
        (used as i64),
    );
    let x: i64 = match style.align_x {
        AlignX::Right => margin_left.wrapping_add(padding_needed),
        AlignX::Centre => margin_left.wrapping_add(halved(padding_needed)),
        AlignX::Left => margin_left,
    };
    SubRect {
        fg: style.fg,
        bg: style.bg,
        x: #[verifier::truncate]
        (x as i16),
        y: #[verifier::truncate]
        (row as i16),
        text,
    }
}

/// Turns subtitle events into rectangles for a target of `target_res_x` by
/// `target_res_y` pixels.
pub struct ASSDecoder {
    pub target_res_x: i64,
    pub target_res_y: i64,
    pub styles: Vec<NamedStyle>,
}

impl ASSDecoder {
    /// The index of the style with the name `name`.
    pub fn find_style(&self, name: &str) -> (r: Option<usize>)
        ensures
            match r {
                Some(i) => style_of(self.styles@, name@) == Some(i as int) && i
                    < self.styles@.len(),
                None => style_of(self.styles@, name@) is None,
            },
    {
        let mut i: usize = self.styles.len();
        proof {
            assert(self.styles@.take(i as int) =~= self.styles@);
        }
        while i > 0
            invariant
                i <= self.styles@.len(),
                style_of(self.styles@, name@) == style_of(self.styles@.take(i as int), name@),
            decreases i,
        {
            proof {
                let front = self.styles@.take(i as int);
                assert(front.last() == self.styles@[i - 1]);
                assert(front.drop_last() =~= self.styles@.take(i - 1));
            }
            if same_text(self.styles[i - 1].name.as_str(), name) {
                return Some(i - 1);
            }
            i = i - 1;
        }
        None
    }
}

/// The space between the margins of a line in a target of `target_x`
/// columns.
pub open spec fn space_between(target_x: i64, margin_left: i64, margin_right: i64) -> i64 {
    target_x.wrapping_sub(margin_left.wrapping_add(margin_right))
}

/// The rectangles of an event with the text `text` in the style `style`,
/// with the margins `margin_left`, `margin_right` and `margin_vert`, on a
/// target of `target_x` by `target_y`: one for each line that the text wraps
/// to, the lines in rows one below the other.
pub open spec fn event_rects(
    style: StyleInfo,
    target_x: i64,
    target_y: i64,
    margin_left: i64,
    margin_right: i64,
    margin_vert: i64,
    text: Seq<char>,
) -> Seq<SubRectView> {
    let max_space = space_between(target_x, margin_left, margin_right);
    let lines = greedy_wrapped(text, (max_space as usize) as nat);
    let row = first_row(style.align_y, target_y, margin_vert);
    Seq::new(lines.len(), |i: int| line_rect(style, margin_left, max_space, row, i, lines[i]))
}

impl ASSDecoder {
    /// The rectangles for an event of the style `style_name` with the text
    /// `text`. A margin of zero stands for the margin of the style. `None`
    /// where there is no style of that name.
    pub fn render_event(
        &self,
        style_name: &str,
        margin_left: i64,
        margin_right: i64,
        margin_vertical: i64,
        text: &str,
    ) -> (r: Option<Vec<SubRect>>)
        ensures
            match style_of(self.styles@, style_name@) {
                None => r is None,
                Some(k) => r matches Some(rects) && sub_rect_views(rects@) == event_rects(
                    self.styles@[k].style,
                    self.target_res_x,
                    self.target_res_y,
                    margin_or(margin_left, self.styles@[k].style.margin_left),
                    margin_or(margin_right, self.styles@[k].style.margin_right),
                    margin_or(margin_vertical, self.styles@[k].style.margin_vert),
                    text@,
                ),
            },
    {
        let style: StyleInfo = match self.find_style(style_name) {
            Some(k) => self.styles[k].style,
            None => {
                return None;
            },
        };
        let margin_left: i64 = if margin_left == 0 {
            style.margin_left
        } else {
            margin_left
        };
        let margin_right: i64 = if margin_right == 0 {
            style.margin_right
        } else {
            margin_right
        };
        let margin_vert: i64 = if margin_vertical == 0 {
            style.margin_vert
        } else {
            margin_vertical
        };
        let row: i64 = match style.align_y {
            AlignY::Bottom => halved(self.target_res_y).wrapping_sub(margin_vert),
            AlignY::Middle => halved(halved(self.target_res_y)).wrapping_add(1),
            AlignY::Top => margin_vert,
        };
        let max_space: i64 = self.target_res_x.wrapping_sub(margin_left.wrapping_add(margin_right));
        let width: usize = #[verifier::truncate]
        (max_space as usize);
        let lines: Vec<String> = wrap_greedy(text, width);
        let ghost wanted = event_rects(
            style,
            self.target_res_x,
            self.target_res_y,
            margin_left,
            margin_right,
            margin_vert,
            text@,
        );
        let mut lines_out: Vec<SubRect> = Vec::new();
        let mut i: usize = 0;
        let mut y: i64 = row;
        proof {
            assert(texts_of(lines@).len() == lines@.len());
        }
        while i < lines.len()
            invariant
                i <= lines@.len(),
                lines_out@.len() == i,
                y == row_below(row, i as int),
                wanted.len() == lines@.len(),
                forall|j: int|
                    0 <= j < lines@.len() ==> #[trigger] wanted[j] == line_rect(
                        style,
                        margin_left,
                        max_space,
                        row,
                        j,
                        texts_of(lines@)[j],
                    ),
                forall|j: int| 0 <= j < i ==> (#[trigger] lines_out@[j])@ == wanted[j],
            decreases lines@.len() - i,
        {
            let trimmed_line: String = trim_text(lines[i].as_str());
            let line: String = remove_breaks(trimmed_line.as_str());
            let rect: SubRect = place_line(&style, margin_left, max_space, y, line);
            proof {
                assert(texts_of(lines@)[i as int] == lines@[i as int]@);
                assert(rect@ == wanted[i as int]);
            }
            lines_out.push(rect);
            y = y.wrapping_add(1);
            i = i + 1;
        }
        proof {
            assert(sub_rect_views(lines_out@) =~= wanted);
        }
        Some(lines_out)
    }
}

} // verus!
