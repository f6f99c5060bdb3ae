//! The rows of the conversation, and the places on the screen.
pub use crate::client::utils::parse_name_body;
pub use crate::ui::layout::input_cursor_position;
use crate::client::receiver::{message_views, ChatMessage, ChatMessageView};
use crate::client::utils::message_parts;
use crate::outside::unicode::{columns, width};
use crate::protocol::member::{identity_views, IdentityView, MemberIdentity};
use crate::ui::layout::{align_right, right_aligned, wrap_graphemes, wrapped};
use crate::ui::screen::{
    cursor_on_screen, input_text, paint_input, paint_rows, painted_rows, transfers_or,
    transfers_text_or, ChatScreen, Panel, PanelView, ScreenAreas, ScreenView,
};
use crate::util::codec::{join_strings, join_texts};
use crate::util::text::{
    chars_of, joined, opt_str, same_text, starts_with, trim, trim_start, trimmed, trimmed_start,
    views,
};
use vstd::prelude::*;

verus! {

/// The colour of a row.
#[derive(Debug, Clone, Copy, PartialEq, Eq, Structural)]
pub enum Color {
    Blue,
    Red,
    Cyan,
    DarkGray,
    LightMagenta,
}

/// A rectangle on the screen.
#[derive(Debug, Clone, Copy, PartialEq, Eq, Structural)]
pub struct Rect {
    pub x: u16,
    pub y: u16,
    pub width: u16,
    pub height: u16,
}

/// A row of the conversation, and the message it belongs to.
#[derive(Debug)]
pub struct RenderedChatRow {
    pub message_index: usize,
    pub text: String,
    pub color: Color,
}

/// A row of the conversation, and the message it belongs to.
#[verifier::ext_equal]
pub ghost struct RowView {
    pub message_index: usize,
    pub text: Seq<char>,
    pub color: Color,
}

impl View for RenderedChatRow {
    type V = RowView;

    open spec fn view(&self) -> RowView {
        RowView { message_index: self.message_index, text: self.text@, color: self.color }
    }
}

pub open spec fn row_views(rows: Seq<RenderedChatRow>) -> Seq<RowView> {
    rows.map_values(|r: RenderedChatRow| r@)
}

/// What marks the selected row.
pub const LIST_HIGHLIGHT_SYMBOL: &'static str = "▌ ";

/// A difference, but never below zero.
pub open spec fn monus(a: int, b: int) -> int {
    if a > b {
        a - b
    } else {
        0
    }
}

/// How wide the rows may be on a screen.
pub open spec fn inner_width(screen: Rect) -> usize {
    monus(monus(screen.width as int, 4), (columns(LIST_HIGHLIGHT_SYMBOL@) as u16) as int) as usize
}

pub fn chat_inner_width(size: Rect) -> (w: usize)
    ensures
        w == inner_width(size),
{
    let mark: u16 = #[verifier::truncate] (width(LIST_HIGHLIGHT_SYMBOL) as u16);
    let framed: u16 = if size.width > 4 {
        size.width - 4
    } else {
        0
    };
    if framed > mark {
        (framed - mark) as usize
    } else {
        0
    }
}

/// How wide the body of a message may be.
pub open spec fn bubble_width(inner: usize) -> int {
    if inner < 24 {
        if inner > 1 {
            inner as int
        } else {
            1
        }
    } else {
        let tripled = if inner * 3 > usize::MAX {
            usize::MAX as int
        } else {
            inner * 3
        };
        let w = tripled / 4;
        if w < 24 {
            24
        } else if w > inner {
            inner as int
        } else {
            w
        }
    }
}

/// How wide a line of a message may be.
pub open spec fn body_width(inner: usize) -> u16 {
    (if bubble_width(inner) > 3 {
        bubble_width(inner) - 2
    } else {
        1
    }) as u16
}

fn body_width_of(inner: usize) -> (w: u16)
    ensures
        w == body_width(inner),
{
    let bubble: usize = if inner < 24 {
        if inner > 1 {
            inner
        } else {
            1
        }
    } else {
        let tripled: usize = if inner > usize::MAX / 3 {
            usize::MAX
        } else {
            inner * 3
        };
        let w: usize = tripled / 4;
        if w < 24 {
            24
        } else if w > inner {
            inner
        } else {
            w
        }
    };
    let line: usize = if bubble > 3 {
        bubble - 2
    } else {
        1
    };
    #[verifier::truncate] (line as u16)
}

/// How wide a line of the system may be.
pub open spec fn system_width(inner: usize) -> u16 {
    (if inner > 1 {
        inner
    } else {
        1
    }) as u16
}

/// A line of a message with its frame.
pub open spec fn framed(line: Seq<char>, is_last: bool, mine: bool) -> Seq<char> {
    if mine {
        if is_last {
            line + " ─╯"@
        } else {
            line + " │"@
        }
    } else {
        if is_last {
            "╰─ "@ + line
        } else {
            "│ "@ + line
        }
    }
}

pub fn format_chat_body_line(line: &str, is_last: bool, align_right: bool) -> (out: String)
    ensures
        out@ == framed(line@, is_last, align_right),
{
    if align_right {
        if is_last {
            joined(line, " ─╯")
        } else {
            joined(line, " │")
        }
    } else {
        if is_last {
            joined("╰─ ", line)
        } else {
            joined("│ ", line)
        }
    }
}

/// A row at its edge: one's own rows stand at the right.
pub open spec fn aligned(text: Seq<char>, inner: usize, mine: bool) -> Seq<char> {
    if mine {
        right_aligned(text, inner)
    } else {
        text
    }
}

pub fn align_chat_row(text: &str, max_width: usize, align_to_right: bool) -> (out: String)
    ensures
        out@ == aligned(text@, max_width, align_to_right),
{
    if align_to_right {
        align_right(text, max_width)
    } else {
        text.to_owned()
    }
}

/// The first row of a message: who sent it and when.
pub open spec fn title_text(name: Seq<char>, time: Seq<char>, mine: bool) -> Seq<char> {
    if mine {
        "You"@ + " · "@ + time + " ─╮"@
    } else {
        "╭─ "@ + name + " · "@ + time
    }
}

/// The colour of a message.
pub open spec fn color_of(name: Seq<char>, username: Seq<char>) -> Color {
    if name == "System"@ {
        Color::DarkGray
    } else if name == username {
        Color::Cyan
    } else {
        Color::LightMagenta
    }
}

/// The rows of one message.
pub open spec fn message_rows(
    index: usize,
    m: ChatMessageView,
    inner: usize,
    username: Seq<char>,
) -> Seq<RowView> {
    let (name, time, body) = message_parts(m);
    let mine = name == username;
    let color = color_of(name, username);
    if name == "System"@ {
        wrapped("• "@ + time + "  "@ + body, system_width(inner)).map_values(
            |line: Seq<char>| RowView { message_index: index, text: line, color },
        )
    } else {
        let lines = wrapped(body, body_width(inner));
        seq![
            RowView {
                message_index: index,
                text: aligned(title_text(name, time, mine), inner, mine),
                color,
            },
        ] + Seq::new(
            lines.len(),
            |i: int|
                RowView {
                    message_index: index,
                    text: aligned(framed(lines[i], i == lines.len() - 1, mine), inner, mine),
                    color,
                },
        )
    }
}

/// The rows of the conversation.
pub open spec fn chat_rows(
    messages: Seq<ChatMessageView>,
    inner: usize,
    username: Seq<char>,
) -> Seq<RowView>
    decreases messages.len(),
{
    if messages.len() == 0 {
        Seq::empty()
    } else {
        chat_rows(messages.drop_last(), inner, username) + message_rows(
            (messages.len() - 1) as usize,
            messages.last(),
            inner,
            username,
        )
    }
}

fn push_system_rows(
    rows: &mut Vec<RenderedChatRow>,
    index: usize,
    time: &str,
    body: &str,
    inner: usize,
)
    ensures
        row_views(final(rows)@) == row_views(old(rows)@) + wrapped(
            "• "@ + time@ + "  "@ + body@,
            system_width(inner),
        ).map_values(
            |line: Seq<char>| RowView { message_index: index, text: line, color: Color::DarkGray },
        ),
{
    let mut text = joined("• ", time);
    text.append("  ");
    text.append(body);
    let wide: usize = if inner > 1 {
        inner
    } else {
        1
    };
    let lines = wrap_graphemes(text.as_str(), #[verifier::truncate] (wide as u16));
    let ghost want = views(lines@).map_values(
        |line: Seq<char>| RowView { message_index: index, text: line, color: Color::DarkGray },
    );
    let ghost start = row_views(rows@);
    let mut i: usize = 0;
    assert(start + want.take(0) =~= start);
    while i < lines.len()
        invariant
            i <= lines@.len(),
            want == views(lines@).map_values(
                |line: Seq<char>|
                    RowView { message_index: index, text: line, color: Color::DarkGray },
            ),
            row_views(rows@) == start + want.take(i as int),
        decreases lines.len() - i,
    {
        let ghost before = rows@;
        let row = RenderedChatRow {
            message_index: index,
            text: lines[i].clone(),
            color: Color::DarkGray,
        };
        let ghost r = row@;
        rows.push(row);
        proof {
            assert(want[i as int] == r);
            assert(row_views(rows@) =~= row_views(before).push(r));
            assert(start + want.take(i + 1) =~= (start + want.take(i as int)).push(r));
        }
        i += 1;
    }
    assert(want.take(want.len() as int) =~= want);
}

fn push_message_rows(
    rows: &mut Vec<RenderedChatRow>,
    index: usize,
    name: &str,
    time: &str,
    body: &str,
    inner: usize,
    mine: bool,
    color: Color,
)
    ensures
        ({
            let lines = wrapped(body@, body_width(inner));
            row_views(final(rows)@) == row_views(old(rows)@) + (seq![
                RowView {
                    message_index: index,
                    text: aligned(title_text(name@, time@, mine), inner, mine),
                    color,
                },
            ] + Seq::new(
                lines.len(),
                |i: int|
                    RowView {
                        message_index: index,
                        text: aligned(framed(lines[i], i == lines.len() - 1, mine), inner, mine),
                        color,
                    },
            ))
        }),
{
    let title = if mine {
        let mut t = joined("You", " · ");
        t.append(time);
        t.append(" ─╮");
        t
    } else {
        let mut t = joined("╭─ ", name);
        t.append(" · ");
        t.append(time);
        t
    };
    let ghost start = row_views(rows@);
    let head = RenderedChatRow {
        message_index: index,
        text: align_chat_row(title.as_str(), inner, mine),
        color,
    };
    let ghost h = head@;
    let ghost before0 = rows@;
    rows.push(head);
    assert(row_views(rows@) =~= row_views(before0).push(h));
    let lines = wrap_graphemes(body, body_width_of(inner));
    assert(views(lines@).len() == lines@.len());
    let ghost texts = views(lines@);
    let ghost want = Seq::new(
        texts.len(),
        |i: int|
            RowView {
                message_index: index,
                text: aligned(framed(texts[i], i == texts.len() - 1, mine), inner, mine),
                color,
            },
    );
    let last: usize = lines.len() - 1;
    let mut i: usize = 0;
    assert(start.push(h) + want.take(0) =~= start.push(h));
    while i < lines.len()
        invariant
            i <= lines@.len(),
            last == lines@.len() - 1,
            texts == views(lines@),
            want == Seq::new(
                texts.len(),
                |i: int|
                    RowView {
                        message_index: index,
                        text: aligned(framed(texts[i], i == texts.len() - 1, mine), inner, mine),
                        color,
                    },
            ),
            row_views(rows@) == start.push(h) + want.take(i as int),
        decreases lines.len() - i,
    {
        let ghost before = rows@;
        let text = format_chat_body_line(lines[i].as_str(), i == last, mine);
        let row = RenderedChatRow {
            message_index: index,
            text: align_chat_row(text.as_str(), inner, mine),
            color,
        };
        let ghost r = row@;
        rows.push(row);
        proof {
            assert(texts[i as int] == lines@[i as int]@);
            assert(want[i as int] == r);
            assert(row_views(rows@) =~= row_views(before).push(r));
            assert(start.push(h) + want.take(i + 1) =~= (start.push(h) + want.take(
                i as int,
            )).push(r));
        }
        i += 1;
    }
    proof {
        assert(want.take(want.len() as int) =~= want);
        assert(start.push(h) + want =~= start + (seq![h] + want));
    }
}

pub fn build_chat_rows(messages: &[ChatMessage], chat_inner_width: usize, username: &str) -> (rows:
    Vec<RenderedChatRow>)
    ensures
        row_views(rows@) == chat_rows(message_views(messages@), chat_inner_width, username@),
{
    let ghost all = message_views(messages@);
    let mut rows: Vec<RenderedChatRow> = Vec::new();
    let mut i: usize = 0;
    assert(all.take(0) =~= Seq::<ChatMessageView>::empty());
    assert(row_views(rows@) =~= Seq::<RowView>::empty());
    while i < messages.len()
        invariant
            i <= messages@.len(),
            all == message_views(messages@),
            row_views(rows@) == chat_rows(all.take(i as int), chat_inner_width, username@),
        decreases messages.len() - i,
    {
        let ghost before = rows@;
        let (name, time, body) = parse_name_body(&messages[i]);
        proof {
            assert(all[i as int] == messages@[i as int]@);
            assert(all.take(i + 1).drop_last() =~= all.take(i as int));
            assert(all.take(i + 1).last() == all[i as int]);
        }
        let mine = same_text(name.as_str(), username);
        if same_text(name.as_str(), "System") {
            push_system_rows(
                &mut rows,
                i,
                time.as_str(),
                body.as_str(),
                chat_inner_width,
            );
        } else {
            let color = if mine {
                Color::Cyan
            } else {
                Color::LightMagenta
            };
            push_message_rows(
                &mut rows,
                i,
                name.as_str(),
                time.as_str(),
                body.as_str(),
                chat_inner_width,
                mine,
                color,
            );
        }
        i += 1;
    }
    assert(all.take(all.len() as int) =~= all);
    rows
}

/// Every row belongs to a message of the conversation.
pub proof fn law_rows_belong_to_messages(
    messages: Seq<ChatMessageView>,
    inner: usize,
    username: Seq<char>,
)
    requires
        messages.len() <= usize::MAX,
    ensures
        forall|i: int|
            0 <= i < chat_rows(messages, inner, username).len() ==> (#[trigger] chat_rows(
                messages,
                inner,
                username,
            )[i]).message_index < messages.len(),
    decreases messages.len(),
{
    if messages.len() > 0 {
        law_rows_belong_to_messages(messages.drop_last(), inner, username);
    }
}

/// The message that the selected row belongs to.
pub open spec fn selected_message(rows: Seq<RowView>, selected: Option<usize>) -> Option<usize> {
    match selected {
        Some(row) => if row < rows.len() {
            Some(rows[row as int].message_index)
        } else {
            None
        },
        None => None,
    }
}

pub fn selected_message_index(
    rows: &[RenderedChatRow],
    selected_row: Option<usize>,
) -> (index: Option<usize>)
    ensures
        index == selected_message(row_views(rows@), selected_row),
{
    match selected_row {
        Some(row) => {
            if row < rows.len() {
                Some(rows[row].message_index)
            } else {
                None
            }
        },
        None => None,
    }
}

/// Where a short notice stands: in the middle of the last line of the conversation.
pub open spec fn notice_area(area: Rect, notice: Seq<char>) -> Option<Rect> {
    if area.width <= 2 || area.height <= 2 || trimmed(notice).len() == 0 {
        None
    } else {
        let inner = area.width - 2;
        let w = columns(notice) as u16 + 4;
        let w = if w < inner {
            w
        } else {
            inner
        };
        Some(
            Rect {
                x: (area.x + 1 + (inner - w) / 2) as u16,
                y: (area.y + area.height - 2) as u16,
                width: w as u16,
                height: 1,
            },
        )
    }
}

pub fn flash_notice_area(chat_area: Rect, notice: &str) -> (area: Option<Rect>)
    requires
        chat_area.x + chat_area.width <= u16::MAX,
        chat_area.y + chat_area.height <= u16::MAX,
    ensures
        area == notice_area(chat_area, notice@),
{
    let inner_notice = trim(notice);
    if chat_area.width <= 2 || chat_area.height <= 2 || inner_notice.as_str().unicode_len() == 0 {
        return None;
    }
    let inner: u16 = chat_area.width - 2;
    let text_width: u16 = #[verifier::truncate] (width(notice) as u16);
    let wanted: u32 = text_width as u32 + 4;
    let w: u16 = if wanted < inner as u32 {
        wanted as u16
    } else {
        inner
    };
    let x: u16 = chat_area.x + 1 + (inner - w) / 2;
    let y: u16 = chat_area.y + (chat_area.height - 2);
    Some(Rect { x, y, width: w, height: 1 })
}

/// A notice stays inside the frame of the conversation.
pub proof fn law_notice_stays_inside(area: Rect, notice: Seq<char>)
    requires
        area.x + area.width <= u16::MAX,
        area.y + area.height <= u16::MAX,
    ensures
        notice_area(area, notice) matches Some(r) ==> {
            &&& area.x < r.x
            &&& r.x + r.width < area.x + area.width
            &&& area.y < r.y
            &&& r.y + r.height < area.y + area.height
            &&& r.width >= 1
        },
{
}

/// Whether a row is the first of a message.
pub open spec fn is_title_row(text: Seq<char>) -> bool {
    let marker = trimmed_start(text);
    "╭─"@.is_prefix_of(marker) || "─╮"@.is_suffix_of(marker)
}

pub fn row_is_title(text: &str) -> (yes: bool)
    ensures
        yes == is_title_row(text@),
{
    let marker = trim_start(text);
    if starts_with(marker.as_str(), "╭─") {
        return true;
    }
    proof {
        reveal_strlit("─╮");
        assert("─╮"@.len() == 2);
        assert("─╮"@[0] == '─' && "─╮"@[1] == '╮');
    }
    let chars = chars_of(marker.as_str());
    let n = chars.len();
    if n < 2 {
        return false;
    }
    let yes = chars[n - 2] == '─' && chars[n - 1] == '╮';
    proof {
        let tail = marker@.subrange(marker@.len() - 2, marker@.len() as int);
        if yes {
            assert(tail =~= "─╮"@);
        } else {
            assert(tail[0] == marker@[n - 2] && tail[1] == marker@[n - 1]);
        }
    }
    yes
}

/// The nicknames of members, or a stand-in.
pub open spec fn members_or(members: Seq<IdentityView>, stand_in: Seq<char>) -> Seq<char> {
    if members.len() == 0 {
        stand_in
    } else {
        join_texts(members.map_values(|m: IdentityView| m.nickname), ", "@)
    }
}

pub(crate) fn members_text_or(members: &[MemberIdentity], stand_in: &str) -> (text: String)
    ensures
        text@ == members_or(identity_views(members@), stand_in@),
{
    if members.len() == 0 {
        return stand_in.to_owned();
    }
    let mut names: Vec<String> = Vec::new();
    let mut i: usize = 0;
    while i < members.len()
        invariant
            i <= members@.len(),
            names@.len() == i,
            forall|k: int| 0 <= k < i ==> (#[trigger] names@[k])@ == members@[k].nickname@,
        decreases members.len() - i,
    {
        names.push(members[i].nickname.clone());
        i += 1;
    }
    assert(views(names@) =~= identity_views(members@).map_values(|m: IdentityView| m.nickname));
    join_strings(&names, ", ")
}

/// The title of the members: the code by which they can be verified.
pub open spec fn members_heading(safety_code: Option<Seq<char>>) -> Seq<char> {
    match safety_code {
        Some(code) => " Members · Verify "@ + code + " "@,
        None => " Members · Verify ... "@,
    }
}

pub fn members_title(safety_code: Option<&str>) -> (title: String)
    ensures
        title@ == members_heading(opt_str(safety_code)),
{
    match safety_code {
        Some(code) => {
            let mut title = joined(" Members · Verify ", code);
            title.append(" ");
            title
        },
        None => " Members · Verify ... ".to_owned(),
    }
}

/// What is painted of a short notice, and where.
pub open spec fn painted_notice(
    area: Rect,
    notice: Option<Seq<char>>,
) -> Option<(Rect, Seq<char>)> {
    match notice {
        Some(text) => match notice_area(area, text) {
            Some(place) => Some((place, " "@ + text + " "@)),
            None => None,
        },
        None => None,
    }
}

/// All that is painted: the conversation with a short notice, the members, the transfers and the
/// input with its cursor.
pub fn draw_chat(
    areas: ScreenAreas,
    chat_rows: &[RenderedChatRow],
    member_list: &[MemberIdentity],
    transfer_lines: &Vec<String>,
    input: &str,
    cursor: usize,
    username: &str,
    room_id: &str,
    safety_code: Option<&str>,
    flash_notice: Option<&str>,
) -> (screen: ChatScreen)
    requires
        areas.chat.x + areas.chat.width <= u16::MAX,
        areas.chat.y + areas.chat.height <= u16::MAX,
    ensures
        screen@ == (ScreenView {
            title: " Session "@ + room_id@ + " "@,
            rows: painted_rows(row_views(chat_rows@), false),
            notice: painted_notice(areas.chat, opt_str(flash_notice)),
            members: PanelView {
                title: members_heading(opt_str(safety_code)),
                text: members_or(identity_views(member_list@), "Waiting for members"@),
            },
            transfers: PanelView {
                title: " Transfers "@,
                text: transfers_or(views(transfer_lines@), "Idle"@),
            },
            input: PanelView {
                title: " "@ + username@ + " · Enter to send · Esc to leave "@,
                text: input_text(input@, areas.input),
            },
            cursor: cursor_on_screen(input@, cursor, areas.input),
        }),
{
    let mut title = joined(" Session ", room_id);
    title.append(" ");
    let notice = match flash_notice {
        Some(text) => match flash_notice_area(areas.chat, text) {
            Some(place) => {
                let mut shown = joined(" ", text);
                shown.append(" ");
                Some((place, shown))
            },
            None => None,
        },
        None => None,
    };
    let mut input_title = joined(" ", username);
    input_title.append(" · Enter to send · Esc to leave ");
    let (text, place) = paint_input(input, cursor, areas.input);
    ChatScreen {
        title,
        rows: paint_rows(chat_rows, false),
        notice,
        members: Panel {
            title: members_title(safety_code),
            text: members_text_or(member_list, "Waiting for members"),
        },
        transfers: Panel {
            title: " Transfers ".to_owned(),
            text: transfers_text_or(transfer_lines, "Idle"),
        },
        input: Panel { title: input_title, text },
        cursor: place,
    }
}

/// The selected row among some rows: within them, and the last of them when none was selected.
pub open spec fn kept_selection(selected: Option<usize>, rows: usize) -> Option<usize> {
    match selected {
        Some(i) => if i >= rows && rows > 0 {
            Some((rows - 1) as usize)
        } else {
            Some(i)
        },
        None => if rows > 0 {
            Some((rows - 1) as usize)
        } else {
            None
        },
    }
}

pub fn keep_selection(selected: Option<usize>, rows: usize) -> (next: Option<usize>)
    ensures
        next == kept_selection(selected, rows),
{
    match selected {
        Some(i) => {
            if i >= rows && rows > 0 {
                Some(rows - 1)
            } else {
                Some(i)
            }
        },
        None => {
            if rows > 0 {
                Some(rows - 1)
            } else {
                None
            }
        },
    }
}

/// Whether the last row is selected, or none.
pub fn is_at_bottom(selected: Option<usize>, rows: usize) -> (yes: bool)
    ensures
        yes == (match selected {
            Some(i) => i + 1 >= rows,
            None => true,
        }),
{
    match selected {
        Some(i) => rows == 0 || i >= rows - 1,
        None => true,
    }
}

/// The selected row once more rows have come: the end is followed.
pub fn follow_selection(selected: Option<usize>, was_at_bottom: bool, rows: usize) -> (next: Option<
    usize,
>)
    ensures
        next == (if was_at_bottom && rows > 0 {
            Some((rows - 1) as usize)
        } else if selected is Some {
            kept_selection(selected, rows)
        } else {
            None
        }),
{
    if was_at_bottom && rows > 0 {
        return Some(rows - 1);
    }
    match selected {
        Some(i) => {
            if i >= rows && rows > 0 {
                Some(rows - 1)
            } else {
                Some(i)
            }
        },
        None => None,
    }
}

} // verus!
