//! What is drawn: texts, colours and places, for a terminal to paint.
use crate::ui::layout::{cursor_place, input_cursor_position, wrap_graphemes, wrapped};
use crate::ui::tui::{is_title_row, row_is_title, row_views, Color, Rect, RenderedChatRow, RowView};
use crate::util::codec::{join_strings, join_texts};
use crate::util::text::{starts_with, views};
use vstd::prelude::*;

verus! {

/// How much is left free around the panels.
pub const SCREEN_MARGIN: u16 = 1;

/// How high the panel of the members is.
pub const MEMBERS_HEIGHT: u16 = 3;

/// How high the panel of the transfers is.
pub const TRANSFERS_HEIGHT: u16 = 4;

/// How high the panel of the input is.
pub const INPUT_HEIGHT: u16 = 5;

/// Where the panels are.
#[derive(Debug, Clone, Copy)]
pub struct ScreenAreas {
    pub chat: Rect,
    pub members: Rect,
    pub transfers: Rect,
    pub input: Rect,
}

/// A row of the conversation as it is painted.
#[derive(Debug)]
pub struct ScreenRow {
    pub text: String,
    pub color: Color,
    pub bold: bool,
}

/// A row of the conversation as it is painted.
#[verifier::ext_equal]
pub ghost struct ScreenRowView {
    pub text: Seq<char>,
    pub color: Color,
    pub bold: bool,
}

impl View for ScreenRow {
    type V = ScreenRowView;

    open spec fn view(&self) -> ScreenRowView {
        ScreenRowView { text: self.text@, color: self.color, bold: self.bold }
    }
}

/// A framed text.
#[derive(Debug)]
pub struct Panel {
    pub title: String,
    pub text: String,
}

/// A framed text.
#[verifier::ext_equal]
pub ghost struct PanelView {
    pub title: Seq<char>,
    pub text: Seq<char>,
}

impl View for Panel {
    type V = PanelView;

    open spec fn view(&self) -> PanelView {
        PanelView { title: self.title@, text: self.text@ }
    }
}

/// All that is painted.
#[derive(Debug)]
pub struct ChatScreen {
    pub title: String,
    pub rows: Vec<ScreenRow>,
    pub notice: Option<(Rect, String)>,
    pub members: Panel,
    pub transfers: Panel,
    pub input: Panel,
    pub cursor: (u16, u16),
}

/// All that is painted.
#[verifier::ext_equal]
pub ghost struct ScreenView {
    pub title: Seq<char>,
    pub rows: Seq<ScreenRowView>,
    pub notice: Option<(Rect, Seq<char>)>,
    pub members: PanelView,
    pub transfers: PanelView,
    pub input: PanelView,
    pub cursor: (u16, u16),
}

pub open spec fn screen_row_views(rows: Seq<ScreenRow>) -> Seq<ScreenRowView> {
    rows.map_values(|r: ScreenRow| r@)
}

impl View for ChatScreen {
    type V = ScreenView;

    open spec fn view(&self) -> ScreenView {
        ScreenView {
            title: self.title@,
            rows: screen_row_views(self.rows@),
            notice: match self.notice {
                Some((area, text)) => Some((area, text@)),
                None => None,
            },
            members: self.members@,
            transfers: self.transfers@,
            input: self.input@,
            cursor: self.cursor,
        }
    }
}

/// Whether a row is the first of a message, in the plain form or in the framed one.
pub open spec fn is_heading(text: Seq<char>, plain: bool) -> bool {
    if plain {
        "┌-"@.is_prefix_of(text)
    } else {
        is_title_row(text)
    }
}

/// The rows as they are painted: the first of each message is bold.
pub open spec fn painted_rows(rows: Seq<RowView>, plain: bool) -> Seq<ScreenRowView> {
    rows.map_values(
        |r: RowView|
            ScreenRowView { text: r.text, color: r.color, bold: is_heading(r.text, plain) },
    )
}

pub(crate) fn paint_rows(rows: &[RenderedChatRow], plain: bool) -> (out: Vec<ScreenRow>)
    ensures
        screen_row_views(out@) == painted_rows(row_views(rows@), plain),
{
    let mut out: Vec<ScreenRow> = Vec::new();
    let mut i: usize = 0;
    while i < rows.len()
        invariant
            i <= rows@.len(),
            out@.len() == i,
            forall|k: int|
                0 <= k < i ==> (#[trigger] out@[k])@ == (ScreenRowView {
                    text: rows@[k].text@,
                    color: rows@[k].color,
                    bold: is_heading(rows@[k].text@, plain),
                }),
        decreases rows.len() - i,
    {
        let text = rows[i].text.clone();
        let bold = if plain {
            starts_with(text.as_str(), "┌-")
        } else {
            row_is_title(text.as_str())
        };
        out.push(ScreenRow { text, color: rows[i].color, bold });
        i += 1;
    }
    assert(screen_row_views(out@) =~= painted_rows(row_views(rows@), plain));
    out
}

/// How wide the input may be in its panel.
pub open spec fn input_width(area: Rect) -> u16 {
    if area.width >= 3 {
        (area.width - 2) as u16
    } else {
        1
    }
}

/// A place, but not beyond the last that a screen can have.
pub open spec fn on_screen(n: int) -> u16 {
    if n > u16::MAX {
        u16::MAX
    } else {
        n as u16
    }
}

/// The input, cut into lines that fit.
pub open spec fn input_text(input: Seq<char>, area: Rect) -> Seq<char> {
    join_texts(wrapped(input, input_width(area)), "\n"@)
}

/// Where the cursor is: inside the frame of the input.
pub open spec fn cursor_on_screen(input: Seq<char>, cursor: usize, area: Rect) -> (u16, u16) {
    let place = cursor_place(input, cursor, input_width(area));
    (on_screen(area.x + 1 + place.0), on_screen(area.y + 1 + place.1))
}

fn shifted(start: u16, by: u16) -> (n: u16)
    ensures
        n == on_screen(start + 1 + by),
{
    let n: u32 = start as u32 + 1 + by as u32;
    if n > 0xffff {
        0xffff
    } else {
        n as u16
    }
}

/// The text of the input and the place of the cursor.
pub(crate) fn paint_input(input: &str, cursor: usize, area: Rect) -> (out: (String, (u16, u16)))
    ensures
        out.0@ == input_text(input@, area),
        out.1 == cursor_on_screen(input@, cursor, area),
{
    let inner: u16 = if area.width >= 3 {
        area.width - 2
    } else {
        1
    };
    let lines = wrap_graphemes(input, inner);
    let text = join_strings(&lines, "\n");
    let (x, y) = input_cursor_position(input, cursor, inner);
    (text, (shifted(area.x, x), shifted(area.y, y)))
}

/// The lines of the transfers, or a stand-in.
pub open spec fn transfers_or(lines: Seq<Seq<char>>, stand_in: Seq<char>) -> Seq<char> {
    if lines.len() == 0 {
        stand_in
    } else {
        join_texts(lines, "\n"@)
    }
}

pub(crate) fn transfers_text_or(lines: &Vec<String>, stand_in: &str) -> (text: String)
    ensures
        text@ == transfers_or(views(lines@), stand_in@),
{
    if lines.len() == 0 {
        stand_in.to_owned()
    } else {
        join_strings(lines, "\n")
    }
}

} // verus!
