//! What the keys promise.
use crate::client::keyboard::{
    invite_action, kept, key_effect, notice, paste_effect, rows_match, undone, ActionView, EditView,
    KeyCode, KeyEvent, OpKind, PasteView, UndoView, QUIT_LINE,
};
use crate::client::receiver::ChatMessageView;
use crate::client::utils::message_parts;
use crate::outside::image::png_file;
use crate::outside::unicode::{clusters, flat};
use crate::protocol::local_event::local_invite_line;
use crate::ui::clipboard::{
    clipboard_error_text, names_files, normalized_rgba, pasted_lines, ClipView,
};
use crate::ui::help::{HELP_TEXT, HELP_TEXT_EN};
use crate::ui::layout::lemma_flat_concat;
use crate::ui::row_laws::lemma_occurs_between;
use crate::ui::tui::RowView;
use crate::util::text::{occurs, split_on, trimmed};
use vstd::prelude::*;

verus! {

/// A key by itself.
pub open spec fn plain_key(code: KeyCode) -> KeyEvent {
    KeyEvent { code, control: false, alt: false }
}

/// A key with the control key held down.
pub open spec fn control_key(code: KeyCode) -> KeyEvent {
    KeyEvent { code, control: true, alt: false }
}

/// An input whose clusters are its text, with the cursor in it.
pub open spec fn cursor_inside(e: EditView) -> bool {
    &&& flat(clusters(e.input)) == e.input
    &&& e.cursor <= clusters(e.input).len() <= usize::MAX
}

/// The text before some clusters and that behind them make the whole.
proof fn lemma_cut(gs: Seq<Seq<char>>, n: int)
    requires
        0 <= n <= gs.len(),
    ensures
        flat(gs.take(n)) + flat(gs.skip(n)) == flat(gs),
{
    lemma_flat_concat(gs.take(n), gs.skip(n));
    assert(gs.take(n) + gs.skip(n) =~= gs);
}

/// A character that is typed comes in where the cursor stands: what was before the cursor stays
/// before it and what was behind it stays behind it, and the cursor goes on by one.
pub proof fn law_typing_inserts_at_the_cursor(
    e: EditView,
    c: char,
    rows: Seq<RowView>,
    messages: Seq<ChatMessageView>,
    invite: Seq<char>,
    now_ms: u64,
)
    requires
        cursor_inside(e),
        e.cursor < usize::MAX,
    ensures
        ({
            let (next, action) = key_effect(
                e,
                plain_key(KeyCode::Char(c)),
                rows,
                messages,
                invite,
                now_ms,
            );
            let at = flat(clusters(e.input).take(e.cursor as int)).len() as int;
            &&& next.input == e.input.take(at).push(c) + e.input.skip(at)
            &&& next.cursor == e.cursor + 1
            &&& next.selected == e.selected
            &&& action == ActionView::Nothing
        }),
{
    let gs = clusters(e.input);
    lemma_cut(gs, e.cursor as int);
    let head = flat(gs.take(e.cursor as int));
    let tail = flat(gs.skip(e.cursor as int));
    let at = head.len() as int;
    assert(e.input.take(at) =~= head);
    assert(e.input.skip(at) =~= tail);
    assert(head + seq![c] + tail =~= head.push(c) + tail);
}

/// The key that deletes takes away the one cluster before the cursor and nothing else.
pub proof fn law_backspace_removes_the_cluster_before_the_cursor(
    e: EditView,
    key: KeyEvent,
    rows: Seq<RowView>,
    messages: Seq<ChatMessageView>,
    invite: Seq<char>,
    now_ms: u64,
)
    requires
        cursor_inside(e),
        key.code == KeyCode::Backspace,
    ensures
        ({
            let (next, action) = key_effect(e, key, rows, messages, invite, now_ms);
            &&& action == ActionView::Nothing
            &&& next.selected == e.selected
            &&& e.cursor == 0 ==> next == e
            &&& e.cursor > 0 ==> {
                let gs = clusters(e.input);
                let before = flat(gs.take(e.cursor - 1));
                let behind = flat(gs.skip(e.cursor as int));
                &&& e.input == before + gs[e.cursor - 1] + behind
                &&& next.input == before + behind
                &&& next.cursor == e.cursor - 1
            }
        }),
{
    if e.cursor > 0 {
        let gs = clusters(e.input);
        let k = e.cursor as int;
        lemma_cut(gs, k);
        assert(gs.take(k).drop_last() =~= gs.take(k - 1));
        assert(gs.take(k).last() == gs[k - 1]);
    }
}

/// The arrows to the left and to the right move the cursor within the text, by one or, with the
/// control key, by three to the left and to the end to the right. They change nothing else.
pub proof fn law_arrows_move_the_cursor(
    e: EditView,
    control: bool,
    rows: Seq<RowView>,
    messages: Seq<ChatMessageView>,
    invite: Seq<char>,
    now_ms: u64,
)
    requires
        cursor_inside(e),
    ensures
        ({
            let left = key_effect(
                e,
                KeyEvent { code: KeyCode::Left, control, alt: false },
                rows,
                messages,
                invite,
                now_ms,
            );
            let right = key_effect(
                e,
                KeyEvent { code: KeyCode::Right, control, alt: false },
                rows,
                messages,
                invite,
                now_ms,
            );
            let end = clusters(e.input).len();
            &&& left.0 == (EditView { cursor: left.0.cursor, ..e })
            &&& right.0 == (EditView { cursor: right.0.cursor, ..e })
            &&& left.1 == ActionView::Nothing && right.1 == ActionView::Nothing
            &&& left.0.cursor <= e.cursor <= right.0.cursor <= end
            &&& e.cursor >= 3 && control ==> left.0.cursor == e.cursor - 3
            &&& e.cursor < 3 && control ==> left.0.cursor == 0
            &&& e.cursor > 0 && !control ==> left.0.cursor == e.cursor - 1
            &&& control ==> right.0.cursor == end
            &&& e.cursor < end && !control ==> right.0.cursor == e.cursor + 1
        }),
{
}

/// A text that is not blank is sent, without the white space around it, and the input is then
/// empty. Of a blank one nothing is sent, and it stays.
pub proof fn law_enter_sends_the_input(
    e: EditView,
    key: KeyEvent,
    rows: Seq<RowView>,
    messages: Seq<ChatMessageView>,
    invite: Seq<char>,
    now_ms: u64,
)
    requires
        key.code == KeyCode::Enter,
    ensures
        ({
            let (next, action) = key_effect(e, key, rows, messages, invite, now_ms);
            &&& next.selected == e.selected
            &&& trimmed(e.input).len() > 0 ==> {
                &&& action == ActionView::Send(trimmed(e.input))
                &&& next.input.len() == 0
                &&& next.cursor == 0
            }
            &&& trimmed(e.input).len() == 0 ==> {
                &&& action == ActionView::Nothing
                &&& next.input == e.input
                &&& next.cursor == e.cursor
            }
        }),
{
}

/// The keys that change the input can be undone: a step back gives the input again.
pub proof fn law_changed_input_comes_back(
    e: EditView,
    key: KeyEvent,
    rows: Seq<RowView>,
    messages: Seq<ChatMessageView>,
    invite: Seq<char>,
    now_ms: u64,
    later_ms: u64,
)
    requires
        key == control_key(KeyCode::Char('a')) || (key.code == KeyCode::Enter && trimmed(
            e.input,
        ).len() > 0) || (key.code == KeyCode::Backspace && e.cursor > 0) || (key.code is Char
            && !key.control && !key.alt),
        e.undo.stack.len() <= e.undo.max_depth,
        e.undo.max_depth > 0,
        now_ms > e.undo.last_save + 500,
        e.cursor <= clusters(e.input).len(),
    ensures
        ({
            let gone = key_effect(e, key, rows, messages, invite, now_ms).0;
            let back = key_effect(
                gone,
                control_key(KeyCode::Char('z')),
                rows,
                messages,
                invite,
                later_ms,
            ).0;
            &&& back.input == e.input
            &&& back.cursor == e.cursor
            &&& back.selected == e.selected
        }),
{
    let all = e.undo.stack.push((e.input, e.cursor));
    if all.len() > e.undo.max_depth {
        assert(all.remove(0).last() == all.last());
    }
}

/// Edits of one kind within half a second are one step to undo; a later one, or one of another
/// kind, is a step of its own.
pub proof fn law_edits_close_together_are_one_step(
    u: UndoView,
    input: Seq<char>,
    cursor: usize,
    kind: OpKind,
    now_ms: u64,
)
    requires
        u.stack.len() < u.max_depth,
    ensures
        kind == u.last_kind && now_ms <= u.last_save + 500 ==> kept(
            u,
            input,
            cursor,
            kind,
            now_ms,
        ) == u,
        kind != u.last_kind || now_ms > u.last_save + 500 ==> {
            let next = kept(u, input, cursor, kind, now_ms);
            &&& next.stack == u.stack.push((input, cursor))
            &&& next.last_save == now_ms
            &&& next.last_kind == kind
        },
{
}

/// A step back leaves one step less to go back, and none changes anything.
pub proof fn law_undo_takes_one_step(u: UndoView, input: Seq<char>, cursor: usize)
    ensures
        u.stack.len() == 0 ==> undone(u, input, cursor) == (u, input, cursor),
        u.stack.len() > 0 ==> {
            let (next, text, at) = undone(u, input, cursor);
            &&& next.stack.push((text, u.stack.last().1)) == u.stack
            &&& at <= u.stack.last().1
            &&& u.stack.last().1 <= clusters(text).len() ==> at == u.stack.last().1
        },
{
    if u.stack.len() > 0 {
        let (next, text, at) = undone(u, input, cursor);
        assert(next.stack.push((text, u.stack.last().1)) =~= u.stack);
    }
}

/// The selected row is always one of the rows, and only the arrows up and down change it: by one,
/// or with the control key by five up and to the last row.
pub proof fn law_selection_stays_among_the_rows(
    e: EditView,
    key: KeyEvent,
    rows: Seq<RowView>,
    messages: Seq<ChatMessageView>,
    invite: Seq<char>,
    now_ms: u64,
)
    requires
        0 < rows.len() <= usize::MAX,
        e.selected is Some,
        e.selected->0 < rows.len(),
    ensures
        ({
            let next = key_effect(e, key, rows, messages, invite, now_ms).0;
            let row = e.selected->0 as int;
            let to = next.selected->0 as int;
            &&& next.selected is Some
            &&& to < rows.len()
            &&& key.code != KeyCode::Up && key.code != KeyCode::Down ==> to == row
            &&& key.code == KeyCode::Up && !key.control && row > 0 ==> to == row - 1
            &&& key.code == KeyCode::Up && key.control && row >= 5 ==> to == row - 5
            &&& key.code == KeyCode::Up && (row == 0 || (key.control && row < 5)) ==> to == 0
            &&& key.code == KeyCode::Down && !key.control && row + 1 < rows.len() ==> to == row + 1
            &&& key.code == KeyCode::Down && !key.control && row + 1 == rows.len() ==> to == row
            &&& key.code == KeyCode::Down && key.control ==> to == rows.len() - 1
            &&& key.code == KeyCode::Up || key.code == KeyCode::Down ==> next == (EditView {
                selected: next.selected,
                ..e
            })
        }),
{
}

/// What is copied is what the message of the selected row says, and what is opened is the
/// attachment of the selected row. Neither changes anything.
pub proof fn law_selected_message_is_copied_or_opened(
    e: EditView,
    rows: Seq<RowView>,
    messages: Seq<ChatMessageView>,
    invite: Seq<char>,
    now_ms: u64,
)
    requires
        rows_match(rows, messages),
    ensures
        ({
            let copy = key_effect(
                e,
                control_key(KeyCode::Char('c')),
                rows,
                messages,
                invite,
                now_ms,
            );
            let open = key_effect(e, plain_key(KeyCode::Tab), rows, messages, invite, now_ms);
            &&& copy.0 == e
            &&& open.0 == e
            &&& match e.selected {
                Some(row) => row < rows.len() ==> {
                    let m = messages[rows[row as int].message_index as int];
                    &&& copy.1 == ActionView::Copy(message_parts(m).2)
                    &&& m matches ChatMessageView::Attachment { attachment_id, .. } ==> open.1
                        == ActionView::Open(attachment_id)
                    &&& m is Text ==> open.1 == ActionView::Nothing
                },
                None => copy.1 == ActionView::Nothing && open.1 == ActionView::Nothing,
            }
        }),
{
}

/// One key ends the conversation and no other does.
pub proof fn law_only_escape_quits(
    e: EditView,
    key: KeyEvent,
    rows: Seq<RowView>,
    messages: Seq<ChatMessageView>,
    invite: Seq<char>,
    now_ms: u64,
)
    ensures
        key_effect(e, key, rows, messages, invite, now_ms).1 is Quit <==> key.code == KeyCode::Esc,
        key.code == KeyCode::Esc ==> key_effect(e, key, rows, messages, invite, now_ms) == (
            e,
            ActionView::Quit(QUIT_LINE@),
        ),
{
}

/// The keys that ask for help, for an invite and for what is in the clipboard do so and change
/// nothing; only one asks for the clipboard.
pub proof fn law_keys_that_ask(
    e: EditView,
    key: KeyEvent,
    rows: Seq<RowView>,
    messages: Seq<ChatMessageView>,
    invite: Seq<char>,
    now_ms: u64,
)
    ensures
        ({
            let (next, action) = key_effect(e, key, rows, messages, invite, now_ms);
            &&& action is Paste <==> key.control && key.code == KeyCode::Char('x')
            &&& key.control && key.code == KeyCode::Char('h') ==> action == ActionView::Send(
                HELP_TEXT@,
            )
            &&& key.control && key.code == KeyCode::Char('j') ==> action == ActionView::Send(
                HELP_TEXT_EN@,
            )
            &&& key.control && key.code == KeyCode::Char('i') ==> action == ActionView::Send(
                invite,
            )
            &&& action !is Nothing && key.code != KeyCode::Enter ==> next == e
        }),
{
}

/// The text of the input changes by typing, by deleting, by sending, by emptying and by going a
/// step back, and by no other key; no other key moves the cursor but the arrows.
pub proof fn law_other_keys_leave_the_input(
    e: EditView,
    key: KeyEvent,
    rows: Seq<RowView>,
    messages: Seq<ChatMessageView>,
    invite: Seq<char>,
    now_ms: u64,
)
    requires
        key.code != KeyCode::Backspace,
        key.code != KeyCode::Enter,
        key.code matches KeyCode::Char(c) ==> {
            &&& key.control ==> c != 'a' && c != 'z'
            &&& !key.control ==> key.alt
        },
    ensures
        key_effect(e, key, rows, messages, invite, now_ms).0.input == e.input,
        key_effect(e, key, rows, messages, invite, now_ms).0.undo == e.undo,
        key.code != KeyCode::Left && key.code != KeyCode::Right ==> key_effect(
            e,
            key,
            rows,
            messages,
            invite,
            now_ms,
        ).0.cursor == e.cursor,
{
}

/// The input is emptied without anything being sent.
pub proof fn law_input_can_be_emptied(
    e: EditView,
    rows: Seq<RowView>,
    messages: Seq<ChatMessageView>,
    invite: Seq<char>,
    now_ms: u64,
)
    ensures
        ({
            let (next, action) = key_effect(
                e,
                control_key(KeyCode::Char('a')),
                rows,
                messages,
                invite,
                now_ms,
            );
            &&& next.input.len() == 0
            &&& next.cursor == 0
            &&& next.selected == e.selected
            &&& action == ActionView::Nothing
        }),
{
}

/// Pasted files are sent by their paths, in order; so are the files that a text names. Any other
/// text comes in where the cursor stands, which then stands behind it.
pub proof fn law_pasting(
    e: EditView,
    clip: ClipView,
    usable: Seq<bool>,
    id: Seq<char>,
    now_ms: u64,
)
    requires
        cursor_inside(e),
    ensures
        ({
            let (next, action) = paste_effect(e, clip, usable, id, now_ms);
            match clip {
                ClipView::Files(paths) => next == e && action == PasteView::Send(paths),
                ClipView::Text(text) => if names_files(usable) {
                    &&& next == e
                    &&& action == PasteView::Send(pasted_lines(split_on(text, '\n')))
                } else {
                    let at = flat(clusters(e.input).take(e.cursor as int)).len() as int;
                    &&& action == PasteView::Nothing
                    &&& e.cursor + clusters(text).len() <= usize::MAX ==> {
                        &&& next.input == e.input.take(at) + text + e.input.skip(at)
                        &&& next.cursor == e.cursor + clusters(text).len()
                        &&& next.selected == e.selected
                    }
                },
                ClipView::Image { width, height, bytes } => {
                    &&& next == e
                    &&& match normalized_rgba(bytes, width, height) {
                        Err(_) => {
                            &&& action matches PasteView::Send(lines)
                            &&& lines.len() == 1
                            &&& "/LOCALNOTICE "@.is_prefix_of(lines[0])
                        },
                        Ok(rgba) => match png_file(rgba, width, height) {
                            Ok(png) => {
                                &&& action matches PasteView::Write { file_name, bytes: file }
                                &&& file == png
                                &&& occurs(id, file_name)
                            },
                            Err(reason) => {
                                &&& action matches PasteView::Warn(text)
                                &&& reason.is_suffix_of(text)
                            },
                        },
                    }
                },
            }
        }),
{
    let gs = clusters(e.input);
    lemma_cut(gs, e.cursor as int);
    let head = flat(gs.take(e.cursor as int));
    let at = head.len() as int;
    assert(e.input.take(at) =~= head);
    assert(e.input.skip(at) =~= flat(gs.skip(e.cursor as int)));
    if let ClipView::Image { width, height, bytes } = clip {
        match normalized_rgba(bytes, width, height) {
            Err(reason) => {
                let why = "剪贴板图片格式异常: "@ + clipboard_error_text(reason);
                let line = notice(why);
                assert("/LOCALNOTICE "@ =~= line.subrange(0, "/LOCALNOTICE "@.len() as int));
            },
            Ok(rgba) => {
                lemma_occurs_between("clipboard_"@, id, ".png"@);
                if let Err(reason) = png_file(rgba, width, height) {
                    let text = "⚠️ Failed to encode image: "@ + reason;
                    assert(reason =~= text.subrange(
                        text.len() - reason.len(),
                        text.len() as int,
                    ));
                }
            },
        }
    }
}

/// A pasted text can be undone as a typed one can.
pub proof fn law_pasted_text_goes_again(
    e: EditView,
    text: Seq<char>,
    usable: Seq<bool>,
    id: Seq<char>,
    now_ms: u64,
    rows: Seq<RowView>,
    messages: Seq<ChatMessageView>,
    invite: Seq<char>,
    later_ms: u64,
)
    requires
        !names_files(usable),
        e.undo.stack.len() <= e.undo.max_depth,
        e.undo.max_depth > 0,
        now_ms > e.undo.last_save + 500,
        e.cursor <= clusters(e.input).len(),
    ensures
        ({
            let pasted = paste_effect(e, ClipView::Text(text), usable, id, now_ms).0;
            let back = key_effect(
                pasted,
                control_key(KeyCode::Char('z')),
                rows,
                messages,
                invite,
                later_ms,
            ).0;
            e.cursor + clusters(text).len() <= usize::MAX ==> back.input == e.input && back.cursor
                == e.cursor
        }),
{
    let all = e.undo.stack.push((e.input, e.cursor));
    if all.len() > e.undo.max_depth {
        assert(all.remove(0).last() == all.last());
    }
}

/// Without a selected row the arrows up and down select none, but for the one to the last row.
pub proof fn law_nothing_selected_stays_so(
    e: EditView,
    key: KeyEvent,
    rows: Seq<RowView>,
    messages: Seq<ChatMessageView>,
    invite: Seq<char>,
    now_ms: u64,
)
    requires
        e.selected is None,
        0 < rows.len() <= usize::MAX,
    ensures
        ({
            let next = key_effect(e, key, rows, messages, invite, now_ms).0;
            &&& key.code == KeyCode::Down && key.control ==> next.selected == Some(
                (rows.len() - 1) as usize,
            )
            &&& !(key.code == KeyCode::Down && key.control) ==> next.selected is None
        }),
{
}

/// Only the owner of a room on a server whose address is known asks for an invite, with all that it
/// takes; anyone else is told why not.
pub proof fn law_only_the_owner_asks_for_an_invite(
    owner: Option<Seq<char>>,
    server: Seq<char>,
    room: Seq<char>,
    pwd: Seq<char>,
    request_id: Seq<char>,
)
    ensures
        ({
            let line = invite_action(owner, server, room, pwd, request_id);
            &&& owner is Some && trimmed(server).len() > 0 ==> line == local_invite_line(
                request_id,
                server,
                room,
                pwd,
                owner->0,
            )
            &&& owner is None || trimmed(server).len() == 0 ==> "/LOCALNOTICE "@.is_prefix_of(line)
        }),
{
    let line = invite_action(owner, server, room, pwd, request_id);
    if owner is None || trimmed(server).len() == 0 {
        let n = "/LOCALNOTICE "@.len() as int;
        assert("/LOCALNOTICE "@ =~= line.subrange(0, n));
    }
}

} // verus!
