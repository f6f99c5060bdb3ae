//! The plain form of the conversation: rows with a prefix, all at the left.
pub use crate::ui::layout::input_cursor_position;
pub use crate::ui::tui::{selected_message_index, Color, Rect, RenderedChatRow};
use crate::client::receiver::{message_views, ChatMessage, ChatMessageView};
use crate::client::utils::{message_parts, parse_name_body};
use crate::crypto::safety::{emoji_code, SafetyCode};
use crate::protocol::member::{identity_views, MemberIdentity};
use crate::ui::layout::{wrap_graphemes, wrapped};
use crate::ui::screen::{
    cursor_on_screen, input_text, paint_input, paint_rows, painted_rows, transfers_or,
    transfers_text_or, ChatScreen, Panel, PanelView, ScreenAreas, ScreenView,
};
use crate::ui::tui::{members_or, members_text_or, monus, row_views, RowView};
use crate::util::text::{joined, same_text, views};
use vstd::prelude::*;

verus! {

/// How much of a row its prefix takes.
pub const PREFIX_WIDTH: usize = 5;

/// How wide the rows may be on a screen.
pub fn chat_inner_width(size: Rect) -> (w: usize)
    ensures
        w == monus(size.width as int, 4),
{
    if size.width > 4 {
        (size.width - 4) as usize
    } else {
        0
    }
}

/// How wide a line of a message may be.
pub open spec fn plain_width(inner: usize) -> u16 {
    (if inner > PREFIX_WIDTH + 1 {
        inner - PREFIX_WIDTH
    } else {
        1
    }) as u16
}

/// The colour of a message.
pub open spec fn plain_color(name: Seq<char>, username: Seq<char>) -> Color {
    if name == "System"@ {
        Color::DarkGray
    } else if name == username {
        Color::Blue
    } else {
        Color::Red
    }
}

/// The rows of one message.
pub open spec fn plain_rows(
    index: usize,
    m: ChatMessageView,
    inner: usize,
    username: Seq<char>,
) -> Seq<RowView> {
    let (name, time, body) = message_parts(m);
    let color = plain_color(name, username);
    let lines = wrapped(body, plain_width(inner));
    seq![
        RowView { message_index: index, text: "┌-["@ + name + "]-#"@ + time, color },
    ] + Seq::new(
        lines.len(),
        |i: int|
            RowView {
                message_index: index,
                text: (if i == lines.len() - 1 {
                    "└--$ "@
                } else {
                    "|    "@
                }) + lines[i],
                color,
            },
    )
}

/// The rows of the conversation.
pub open spec fn plain_chat_rows(
    messages: Seq<ChatMessageView>,
    inner: usize,
    username: Seq<char>,
) -> Seq<RowView>
    decreases messages.len(),
{
    if messages.len() == 0 {
        Seq::empty()
    } else {
        plain_chat_rows(messages.drop_last(), inner, username) + plain_rows(
            (messages.len() - 1) as usize,
            messages.last(),
            inner,
            username,
        )
    }
}

fn push_plain_rows(
    rows: &mut Vec<RenderedChatRow>,
    index: usize,
    message: &ChatMessage,
    inner: usize,
    username: &str,
)
    ensures
        row_views(final(rows)@) == row_views(old(rows)@) + plain_rows(
            index,
            message@,
            inner,
            username@,
        ),
{
    let (name, time, body) = parse_name_body(message);
    let color = if same_text(name.as_str(), "System") {
        Color::DarkGray
    } else if same_text(name.as_str(), username) {
        Color::Blue
    } else {
        Color::Red
    };
    let mut title = joined("┌-[", name.as_str());
    title.append("]-#");
    title.append(time.as_str());
    let ghost start = row_views(rows@);
    let ghost before0 = rows@;
    let head = RenderedChatRow { message_index: index, text: title, color };
    let ghost h = head@;
    rows.push(head);
    assert(row_views(rows@) =~= row_views(before0).push(h));
    let wide: usize = if inner > PREFIX_WIDTH + 1 {
        inner - PREFIX_WIDTH
    } else {
        1
    };
    let lines = wrap_graphemes(body.as_str(), #[verifier::truncate] (wide as u16));
    assert(views(lines@).len() == lines@.len());
    let ghost texts = views(lines@);
    let ghost want = plain_rows(index, message@, inner, username@).drop_first();
    let last: usize = lines.len() - 1;
    let mut i: usize = 0;
    proof {
        assert(plain_rows(index, message@, inner, username@)[0] == h);
        assert(want.len() == lines@.len());
        assert(start.push(h) + want.take(0) =~= start.push(h));
    }
    while i < lines.len()
        invariant
            i <= lines@.len(),
            last == lines@.len() - 1,
            want.len() == lines@.len(),
            texts == views(lines@),
            forall|k: int|
                0 <= k < want.len() ==> #[trigger] want[k] == (RowView {
                    message_index: index,
                    text: (if k == texts.len() - 1 {
                        "└--$ "@
                    } else {
                        "|    "@
                    }) + texts[k],
                    color,
                }),
            row_views(rows@) == start.push(h) + want.take(i as int),
        decreases lines.len() - i,
    {
        let ghost before = rows@;
        let prefix = if i == last {
            "└--$ "
        } else {
            "|    "
        };
        let row = RenderedChatRow {
            message_index: index,
            text: joined(prefix, lines[i].as_str()),
            color,
        };
        let ghost r = row@;
        rows.push(row);
        proof {
            assert(texts[i as int] == lines@[i as int]@);
            assert(want[i as int] == r);
            assert(row_views(rows@) =~= row_views(before).push(r));
            assert(start.push(h) + want.take(i + 1) =~= (start.push(h) + want.take(
                i as int,
            )).push(r));
        }
        i += 1;
    }
    proof {
        assert(want.take(want.len() as int) =~= want);
        assert(start.push(h) + want =~= start + plain_rows(index, message@, inner, username@));
    }
}

pub fn build_chat_rows(messages: &[ChatMessage], chat_inner_width: usize, username: &str) -> (rows:
    Vec<RenderedChatRow>)
    ensures
        row_views(rows@) == plain_chat_rows(message_views(messages@), chat_inner_width, username@),
{
    let ghost all = message_views(messages@);
    let mut rows: Vec<RenderedChatRow> = Vec::new();
    let mut i: usize = 0;
    assert(all.take(0) =~= Seq::<ChatMessageView>::empty());
    assert(row_views(rows@) =~= Seq::<RowView>::empty());
    while i < messages.len()
        invariant
            i <= messages@.len(),
            all == message_views(messages@),
            row_views(rows@) == plain_chat_rows(all.take(i as int), chat_inner_width, username@),
        decreases messages.len() - i,
    {
        proof {
            assert(all[i as int] == messages@[i as int]@);
            assert(all.take(i + 1).drop_last() =~= all.take(i as int));
            assert(all.take(i + 1).last() == all[i as int]);
        }
        push_plain_rows(&mut rows, i, &messages[i], chat_inner_width, username);
        i += 1;
    }
    assert(all.take(all.len() as int) =~= all);
    rows
}

/// The title of the members: the code by which they can be verified.
pub open spec fn plain_heading(safety_code: Option<&SafetyCode>) -> Seq<char> {
    match safety_code {
        Some(code) => "Members | Verify Code: "@ + emoji_code(code.hash@),
        None => "Members | Verify Code: ..."@,
    }
}

pub fn members_title(safety_code: Option<&SafetyCode>) -> (title: String)
    ensures
        title@ == plain_heading(safety_code),
{
    match safety_code {
        Some(code) => {
            let emoji = code.emoji();
            joined("Members | Verify Code: ", emoji.as_str())
        },
        None => "Members | Verify Code: ...".to_owned(),
    }
}

/// All that is painted: the conversation, the members, the transfers and the input with its cursor.
pub fn draw_chat(
    areas: ScreenAreas,
    chat_rows: &[RenderedChatRow],
    member_list: &[MemberIdentity],
    transfer_lines: &Vec<String>,
    input: &str,
    cursor: usize,
    username: &str,
    room_id: &str,
    safety_code: Option<&SafetyCode>,
) -> (screen: ChatScreen)
    ensures
        screen@ == (ScreenView {
            title: "<Room: "@ + room_id@ + ">"@,
            rows: painted_rows(row_views(chat_rows@), true),
            notice: None,
            members: PanelView {
                title: plain_heading(safety_code),
                text: members_or(identity_views(member_list@), "<空>"@),
            },
            transfers: PanelView {
                title: "Transfers"@,
                text: transfers_or(views(transfer_lines@), "No active transfers"@),
            },
            input: PanelView {
                title: username@ + " >"@,
                text: input_text(input@, areas.input),
            },
            cursor: cursor_on_screen(input@, cursor, areas.input),
        }),
{
    let mut title = joined("<Room: ", room_id);
    title.append(">");
    let (text, place) = paint_input(input, cursor, areas.input);
    ChatScreen {
        title,
        rows: paint_rows(chat_rows, true),
        notice: None,
        members: Panel {
            title: members_title(safety_code),
            text: members_text_or(member_list, "<空>"),
        },
        transfers: Panel {
            title: "Transfers".to_owned(),
            text: transfers_text_or(transfer_lines, "No active transfers"),
        },
        input: Panel { title: joined(username, " >"), text },
        cursor: place,
    }
}

} // verus!
