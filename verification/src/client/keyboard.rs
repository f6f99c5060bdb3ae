//! What a key does: to the input, to the selection, and beyond.
use crate::client::receiver::{message_views, ChatMessage, ChatMessageView};
use crate::client::utils::{message_parts, parse_name_body};
use crate::outside::image::png_file;
use crate::outside::random::{fresh_id, lower_hex};
use crate::outside::unicode::clusters;
use crate::protocol::local_event::{
    build_local_invite_request_line_with, build_local_notice_line, local_invite_line,
};
use crate::ui::clipboard::{
    clipboard_error_text, encode_rgba_as_png, files_named, may_be_usable, names_files,
    normalize_clipboard_rgba, normalized_rgba, pasted_lines, usable_paths, ClipData, ClipView,
};
use crate::ui::help::{HELP_TEXT, HELP_TEXT_EN};
use crate::ui::layout::{after_cluster, at_most, before_cluster, cluster_count, split_at_cluster};
use crate::ui::tui::{row_views, selected_message, selected_message_index, RenderedChatRow, RowView};
use crate::util::codec::encoded_text;
use crate::util::text::{joined, opt_str, split_on, trim, trimmed, views};
use vstd::prelude::*;

verus! {

/// The line that ends a conversation.
pub const QUIT_LINE: &'static str = "//~``~//";

/// What kind of change an edit is.
#[derive(Debug, PartialEq, Eq, Clone, Copy, Structural)]
pub enum OpKind {
    Insert,
    Other,
}

/// How long edits belong together, in milliseconds.
pub const UNDO_INTERVAL_MS: u64 = 500;

/// How many steps can be undone.
pub const UNDO_DEPTH: usize = 200;

/// What the input was before the latest edits.
#[derive(Debug)]
pub struct UndoMgr {
    pub stack: Vec<(String, usize)>,
    /// When the input was last kept, in milliseconds.
    pub last_save: u64,
    pub last_kind: OpKind,
    pub max_depth: usize,
}

/// What the input was before the latest edits.
#[verifier::ext_equal]
pub ghost struct UndoView {
    pub stack: Seq<(Seq<char>, usize)>,
    pub last_save: u64,
    pub last_kind: OpKind,
    pub max_depth: usize,
}

pub open spec fn snapshot_views(v: Seq<(String, usize)>) -> Seq<(Seq<char>, usize)> {
    v.map_values(|p: (String, usize)| (p.0@, p.1))
}

impl View for UndoMgr {
    type V = UndoView;

    open spec fn view(&self) -> UndoView {
        UndoView {
            stack: snapshot_views(self.stack@),
            last_save: self.last_save,
            last_kind: self.last_kind,
            max_depth: self.max_depth,
        }
    }
}

/// Whether the input is kept before an edit: some time has passed, or the edit is of another kind.
pub open spec fn keeps(u: UndoView, kind: OpKind, now_ms: u64) -> bool {
    now_ms - u.last_save > UNDO_INTERVAL_MS || kind != u.last_kind
}

/// What can be undone once an input has been kept. The oldest step goes when there are too many.
pub open spec fn kept(
    u: UndoView,
    input: Seq<char>,
    cursor: usize,
    kind: OpKind,
    now_ms: u64,
) -> UndoView {
    if keeps(u, kind, now_ms) {
        let all = u.stack.push((input, cursor));
        UndoView {
            stack: if all.len() > u.max_depth {
                all.remove(0)
            } else {
                all
            },
            last_save: now_ms,
            last_kind: kind,
            ..u
        }
    } else {
        u
    }
}

/// The input, the cursor and what can still be undone after a step back.
pub open spec fn undone(
    u: UndoView,
    input: Seq<char>,
    cursor: usize,
) -> (UndoView, Seq<char>, usize) {
    if u.stack.len() == 0 {
        (u, input, cursor)
    } else {
        let (prev, pos) = u.stack.last();
        (
            UndoView { stack: u.stack.drop_last(), ..u },
            prev,
            at_most(pos as nat, clusters(prev).len()) as usize,
        )
    }
}

impl UndoMgr {
    /// Nothing to undo.
    pub fn new(now_ms: u64) -> (u: Self)
        ensures
            u@ == (UndoView {
                stack: Seq::empty(),
                last_save: now_ms,
                last_kind: OpKind::Other,
                max_depth: UNDO_DEPTH,
            }),
    {
        let u = UndoMgr {
            stack: Vec::new(),
            last_save: now_ms,
            last_kind: OpKind::Other,
            max_depth: UNDO_DEPTH,
        };
        assert(u@.stack =~= Seq::<(Seq<char>, usize)>::empty());
        u
    }

    /// Keeps the input before an edit, when it is time to.
    pub fn maybe_push(&mut self, input: &String, cursor: usize, kind: OpKind, now_ms: u64)
        ensures
            final(self)@ == kept(old(self)@, input@, cursor, kind, now_ms),
    {
        let late = now_ms > self.last_save && now_ms - self.last_save > UNDO_INTERVAL_MS;
        if late || kind != self.last_kind {
            let ghost before = self.stack@;
            self.stack.push((input.clone(), cursor));
            assert(snapshot_views(self.stack@) =~= snapshot_views(before).push((input@, cursor)));
            if self.stack.len() > self.max_depth {
                let ghost all = self.stack@;
                self.stack.remove(0);
                assert(snapshot_views(self.stack@) =~= snapshot_views(all).remove(0));
            }
            self.last_save = now_ms;
            self.last_kind = kind;
        }
    }

    /// Goes a step back.
    pub fn undo(&mut self, input: &mut String, cursor: &mut usize)
        ensures
            (final(self)@, final(input)@, *final(cursor)) == undone(
                old(self)@,
                old(input)@,
                *old(cursor),
            ),
    {
        let ghost before = self.stack@;
        match self.stack.pop() {
            Some((prev, pos)) => {
                let n = cluster_count(prev.as_str());
                *input = prev;
                *cursor = if pos < n {
                    pos
                } else {
                    n
                };
                proof {
                    assert(before.last() == (prev, pos));
                    assert(snapshot_views(before).last() == (prev@, pos));
                    assert(snapshot_views(self.stack@) =~= snapshot_views(before).drop_last());
                }
            },
            None => {},
        }
    }
}

/// There are never more steps to undo than the depth.
pub proof fn law_undo_depth_is_bounded(
    u: UndoView,
    input: Seq<char>,
    cursor: usize,
    kind: OpKind,
    now_ms: u64,
)
    requires
        u.stack.len() <= u.max_depth,
    ensures
        kept(u, input, cursor, kind, now_ms).stack.len() <= u.max_depth,
        kept(u, input, cursor, kind, now_ms).max_depth == u.max_depth,
{
}

/// Going back right after an input was kept gives that input again.
pub proof fn law_undo_restores_input(
    u: UndoView,
    input: Seq<char>,
    cursor: usize,
    kind: OpKind,
    now_ms: u64,
    later_input: Seq<char>,
    later_cursor: usize,
)
    requires
        u.max_depth > 0,
        u.stack.len() <= u.max_depth,
        keeps(u, kind, now_ms),
    ensures
        undone(kept(u, input, cursor, kind, now_ms), later_input, later_cursor).1 == input,
        cursor <= clusters(input).len() ==> undone(
            kept(u, input, cursor, kind, now_ms),
            later_input,
            later_cursor,
        ).2 == cursor,
{
    let all = u.stack.push((input, cursor));
    if all.len() > u.max_depth {
        assert(all.remove(0).last() == all.last());
    }
}

/// A key.
#[derive(Debug, Clone, Copy, PartialEq, Eq, Structural)]
pub enum KeyCode {
    Char(char),
    Left,
    Right,
    Up,
    Down,
    Backspace,
    Enter,
    Tab,
    Esc,
    Other,
}

/// A key with the keys held down beside it.
#[derive(Debug, Clone, Copy, PartialEq, Eq, Structural)]
pub struct KeyEvent {
    pub code: KeyCode,
    pub control: bool,
    pub alt: bool,
}

/// Whether a conversation goes on.
#[derive(Debug, Clone, Copy, PartialEq, Eq, Structural)]
pub enum ControlFlow {
    Continue,
    Quit,
}

/// What a key asks for beside the changes to the input and the selection.
#[derive(Debug)]
pub enum KeyAction {
    Nothing,
    /// What is in the clipboard is to be pasted.
    Paste,
    /// A text goes into the clipboard.
    Copy(String),
    /// A line is to be sent.
    Send(String),
    /// An attachment is to be opened.
    Open(String),
    /// The conversation ends.
    Quit(String),
}

/// What a key asks for.
pub ghost enum ActionView {
    Nothing,
    Paste,
    Copy(Seq<char>),
    Send(Seq<char>),
    Open(Seq<char>),
    Quit(Seq<char>),
}

impl View for KeyAction {
    type V = ActionView;

    open spec fn view(&self) -> ActionView {
        match self {
            KeyAction::Nothing => ActionView::Nothing,
            KeyAction::Paste => ActionView::Paste,
            KeyAction::Copy(s) => ActionView::Copy(s@),
            KeyAction::Send(s) => ActionView::Send(s@),
            KeyAction::Open(s) => ActionView::Open(s@),
            KeyAction::Quit(s) => ActionView::Quit(s@),
        }
    }
}

impl KeyAction {
    /// Whether the conversation goes on.
    pub fn control_flow(&self) -> (flow: ControlFlow)
        ensures
            flow == (if self@ is Quit {
                ControlFlow::Quit
            } else {
                ControlFlow::Continue
            }),
    {
        match self {
            KeyAction::Quit(_) => ControlFlow::Quit,
            _ => ControlFlow::Continue,
        }
    }
}

/// What the keys change.
#[derive(Debug)]
pub struct EditState {
    pub input: String,
    /// How many clusters of the input stand before the cursor.
    pub cursor: usize,
    /// The selected row.
    pub selected: Option<usize>,
    pub undo_mgr: UndoMgr,
}

/// What the keys change.
#[verifier::ext_equal]
pub ghost struct EditView {
    pub input: Seq<char>,
    pub cursor: usize,
    pub selected: Option<usize>,
    pub undo: UndoView,
}

impl View for EditState {
    type V = EditView;

    open spec fn view(&self) -> EditView {
        EditView {
            input: self.input@,
            cursor: self.cursor,
            selected: self.selected,
            undo: self.undo_mgr@,
        }
    }
}

/// What the keys see beside what they change.
pub struct KeyCtx<'a> {
    pub chat_rows: &'a Vec<RenderedChatRow>,
    pub messages: &'a Vec<ChatMessage>,
    pub server_addr: &'a str,
    pub room_id: &'a str,
    pub pwd: &'a str,
    pub owner_capability: Option<&'a str>,
    /// The identifier of a request for an invite that a key may make.
    pub request_id: &'a str,
    /// The time in milliseconds.
    pub now_ms: u64,
}

/// The rows belong to messages that are there.
pub open spec fn rows_match(rows: Seq<RowView>, messages: Seq<ChatMessageView>) -> bool {
    forall|i: int| 0 <= i < rows.len() ==> (#[trigger] rows[i]).message_index < messages.len()
}

/// Text put in at the cursor.
pub open spec fn inserted(e: EditView, text: Seq<char>, by: int, now_ms: u64) -> EditView {
    EditView {
        input: before_cluster(e.input, e.cursor) + text + after_cluster(e.input, e.cursor),
        cursor: (e.cursor + by) as usize,
        undo: kept(e.undo, e.input, e.cursor, OpKind::Insert, now_ms),
        ..e
    }
}

/// The input emptied.
pub open spec fn emptied(e: EditView, undo: UndoView) -> EditView {
    EditView { input: Seq::empty(), cursor: 0, undo, ..e }
}

/// What asking for an invite sends: a request when the room is one's own and the server's address
/// is known, otherwise a notice.
pub open spec fn invite_action(
    owner: Option<Seq<char>>,
    server: Seq<char>,
    room: Seq<char>,
    pwd: Seq<char>,
    request_id: Seq<char>,
) -> Seq<char> {
    match owner {
        None => notice("只有当前房主连接可以申请一次性邀请码"@),
        Some(capability) => if trimmed(server).len() == 0 {
            notice("当前连接没有可用的服务器地址，无法申请邀请码"@)
        } else {
            local_invite_line(request_id, server, room, pwd, capability)
        },
    }
}

fn invite_line(ctx: &KeyCtx) -> (line: String)
    ensures
        line@ == invite_action(
            opt_str(ctx.owner_capability),
            ctx.server_addr@,
            ctx.room_id@,
            ctx.pwd@,
            ctx.request_id@,
        ),
{
    match ctx.owner_capability {
        None => build_local_notice_line("只有当前房主连接可以申请一次性邀请码"),
        Some(capability) => {
            let inner = trim(ctx.server_addr);
            if inner.as_str().unicode_len() == 0 {
                build_local_notice_line("当前连接没有可用的服务器地址，无法申请邀请码")
            } else {
                build_local_invite_request_line_with(
                    ctx.request_id,
                    ctx.server_addr,
                    ctx.room_id,
                    ctx.pwd,
                    capability,
                )
            }
        },
    }
}

/// Another row selected.
pub open spec fn selecting(e: EditView, row: Option<usize>) -> EditView {
    EditView { selected: row, ..e }
}

/// A number less another, but never below zero.
pub open spec fn less(a: usize, b: usize) -> usize {
    if a > b {
        (a - b) as usize
    } else {
        0
    }
}

/// What a key does.
pub open spec fn key_effect(
    e: EditView,
    key: KeyEvent,
    rows: Seq<RowView>,
    messages: Seq<ChatMessageView>,
    invite: Seq<char>,
    now_ms: u64,
) -> (EditView, ActionView) {
    match key.code {
        KeyCode::Char(ch) => if key.control {
            if ch == 'x' {
                (e, ActionView::Paste)
            } else if ch == 'c' {
                (
                    e,
                    match selected_message(rows, e.selected) {
                        Some(sel) => ActionView::Copy(message_parts(messages[sel as int]).2),
                        None => ActionView::Nothing,
                    },
                )
            } else if ch == 'h' {
                (e, ActionView::Send(HELP_TEXT@))
            } else if ch == 'j' {
                (e, ActionView::Send(HELP_TEXT_EN@))
            } else if ch == 'i' {
                (e, ActionView::Send(invite))
            } else if ch == 'a' {
                (
                    emptied(e, kept(e.undo, e.input, e.cursor, OpKind::Insert, now_ms)),
                    ActionView::Nothing,
                )
            } else if ch == 'z' {
                let u = undone(e.undo, e.input, e.cursor);
                (EditView { undo: u.0, input: u.1, cursor: u.2, ..e }, ActionView::Nothing)
            } else {
                (e, ActionView::Nothing)
            }
        } else if key.alt {
            (e, ActionView::Nothing)
        } else {
            (inserted(e, seq![ch], 1, now_ms), ActionView::Nothing)
        },
        KeyCode::Left => (
            EditView {
                cursor: less(
                    e.cursor,
                    if key.control {
                        3
                    } else {
                        1
                    },
                ),
                ..e
            },
            ActionView::Nothing,
        ),
        KeyCode::Right => (
            if e.cursor < clusters(e.input).len() {
                EditView {
                    cursor: if key.control {
                        clusters(e.input).len() as usize
                    } else {
                        (e.cursor + 1) as usize
                    },
                    ..e
                }
            } else {
                e
            },
            ActionView::Nothing,
        ),
        KeyCode::Backspace => (
            if e.cursor > 0 {
                EditView {
                    input: before_cluster(e.input, (e.cursor - 1) as usize) + after_cluster(
                        e.input,
                        e.cursor,
                    ),
                    cursor: (e.cursor - 1) as usize,
                    undo: kept(e.undo, e.input, e.cursor, OpKind::Insert, now_ms),
                    ..e
                }
            } else {
                e
            },
            ActionView::Nothing,
        ),
        KeyCode::Enter => {
            let undo = kept(e.undo, e.input, e.cursor, OpKind::Insert, now_ms);
            if trimmed(e.input).len() > 0 {
                (emptied(e, undo), ActionView::Send(trimmed(e.input)))
            } else {
                (EditView { undo, ..e }, ActionView::Nothing)
            }
        },
        KeyCode::Up => (
            match e.selected {
                Some(i) => selecting(
                    e,
                    Some(
                        less(
                            i,
                            if key.control {
                                5
                            } else {
                                1
                            },
                        ),
                    ),
                ),
                None => e,
            },
            ActionView::Nothing,
        ),
        KeyCode::Down => (
            if key.control {
                selecting(e, Some(less(rows.len() as usize, 1)))
            } else {
                match e.selected {
                    Some(i) => selecting(
                        e,
                        Some(
                            if i < less(rows.len() as usize, 1) {
                                (i + 1) as usize
                            } else {
                                less(rows.len() as usize, 1)
                            },
                        ),
                    ),
                    None => e,
                }
            },
            ActionView::Nothing,
        ),
        KeyCode::Tab => (
            e,
            match selected_message(rows, e.selected) {
                Some(sel) => match messages[sel as int] {
                    ChatMessageView::Attachment { attachment_id, .. } => ActionView::Open(
                        attachment_id,
                    ),
                    ChatMessageView::Text(_) => ActionView::Nothing,
                },
                None => ActionView::Nothing,
            },
        ),
        KeyCode::Esc => (e, ActionView::Quit(QUIT_LINE@)),
        KeyCode::Other => (e, ActionView::Nothing),
    }
}

fn less_of(a: usize, b: usize) -> (c: usize)
    ensures
        c == less(a, b),
{
    if a > b {
        a - b
    } else {
        0
    }
}

/// Puts a text in at the cursor.
fn insert_text(state: &mut EditState, text: &str, by: usize, now_ms: u64)
    requires
        old(state).cursor + by <= usize::MAX,
    ensures
        final(state)@ == inserted(old(state)@, text@, by as int, now_ms),
{
    state.undo_mgr.maybe_push(&state.input, state.cursor, OpKind::Insert, now_ms);
    let (head, tail, _) = split_at_cluster(state.input.as_str(), state.cursor);
    let mut next = joined(head.as_str(), text);
    next.append(tail.as_str());
    state.input = next;
    state.cursor = state.cursor + by;
}

/// Pastes a text at the cursor, which then stands behind it.
pub fn paste_text(state: &mut EditState, text: &str, now_ms: u64)
    requires
        old(state).cursor + clusters(text@).len() <= usize::MAX,
    ensures
        final(state)@ == inserted(old(state)@, text@, clusters(text@).len() as int, now_ms),
{
    let n = cluster_count(text);
    insert_text(state, text, n, now_ms);
}

/// What pasting asks for beside the changes to the input.
#[derive(Debug)]
pub enum PasteAction {
    Nothing,
    /// Lines are to be sent.
    Send(Vec<String>),
    /// An image is to be written to a file, whose path is then sent.
    Write { file_name: String, bytes: Vec<u8> },
    /// A warning is to be printed.
    Warn(String),
}

/// What pasting asks for.
pub ghost enum PasteView {
    Nothing,
    Send(Seq<Seq<char>>),
    Write { file_name: Seq<char>, bytes: Seq<u8> },
    Warn(Seq<char>),
}

impl View for PasteAction {
    type V = PasteView;

    open spec fn view(&self) -> PasteView {
        match self {
            PasteAction::Nothing => PasteView::Nothing,
            PasteAction::Send(lines) => PasteView::Send(views(lines@)),
            PasteAction::Write { file_name, bytes } => PasteView::Write {
                file_name: file_name@,
                bytes: bytes@,
            },
            PasteAction::Warn(text) => PasteView::Warn(text@),
        }
    }
}

/// The line that tells the user something.
pub open spec fn notice(text: Seq<char>) -> Seq<char> {
    "/LOCALNOTICE "@ + encoded_text(text)
}

/// What pasting does. Files are sent, by their paths; so are those that a text names. Any other
/// text goes into the input, unless the cursor could not stand behind it. An image is written to
/// a file of its own.
pub open spec fn paste_effect(
    e: EditView,
    clip: ClipView,
    usable: Seq<bool>,
    id: Seq<char>,
    now_ms: u64,
) -> (EditView, PasteView) {
    match clip {
        ClipView::Text(text) => if names_files(usable) {
            (e, PasteView::Send(pasted_lines(split_on(text, '\n'))))
        } else if e.cursor + clusters(text).len() > usize::MAX {
            (e, PasteView::Nothing)
        } else {
            (inserted(e, text, clusters(text).len() as int, now_ms), PasteView::Nothing)
        },
        ClipView::Image { width, height, bytes } => (
            e,
            match normalized_rgba(bytes, width, height) {
                Err(reason) => PasteView::Send(
                    seq![notice("剪贴板图片格式异常: "@ + clipboard_error_text(reason))],
                ),
                Ok(rgba) => match png_file(rgba, width, height) {
                    Ok(png) => PasteView::Write {
                        file_name: "clipboard_"@ + id + ".png"@,
                        bytes: png,
                    },
                    Err(reason) => PasteView::Warn("⚠️ Failed to encode image: "@ + reason),
                },
            },
        ),
        ClipView::Files(paths) => (e, PasteView::Send(paths)),
    }
}

/// Pastes what the clipboard holds. `usable` says of each path that a text may name whether it is
/// the absolute path of a file.
pub fn handle_paste(
    state: &mut EditState,
    clip: ClipData,
    usable: &Vec<bool>,
    id: &str,
    now_ms: u64,
) -> (action: PasteAction)
    requires
        clip@ matches ClipView::Text(text) ==> usable@.len() == pasted_lines(
            split_on(text, '\n'),
        ).len(),
    ensures
        (final(state)@, action@) == paste_effect(old(state)@, clip@, usable@, id@, now_ms),
{
    match clip {
        ClipData::Text(text) => {
            match files_named(text.as_str(), usable) {
                Some(paths) => PasteAction::Send(paths),
                None => {
                    let n = cluster_count(text.as_str());
                    if state.cursor <= usize::MAX - n {
                        paste_text(state, text.as_str(), now_ms);
                    }
                    PasteAction::Nothing
                },
            }
        },
        ClipData::Image { width, height, bytes } => {
            match normalize_clipboard_rgba(bytes.as_slice(), width, height) {
                Err(reason) => {
                    let why = reason.message();
                    let line = bad_image_line(why.as_str());
                    let ghost l = line@;
                    let mut lines: Vec<String> = Vec::new();
                    lines.push(line);
                    assert(views(lines@) =~= seq![l]);
                    PasteAction::Send(lines)
                },
                Ok(rgba) => match encode_rgba_as_png(rgba.as_slice(), width, height) {
                    Ok(png) => {
                        let mut file_name = joined("clipboard_", id);
                        file_name.append(".png");
                        PasteAction::Write { file_name, bytes: png }
                    },
                    Err(reason) => PasteAction::Warn(
                        joined("⚠️ Failed to encode image: ", reason.as_str()),
                    ),
                },
            }
        },
        ClipData::Files(paths) => PasteAction::Send(paths),
    }
}

/// Whether the paths of a pasted text may be usable or not, given which of them are those of files.
pub open spec fn clip_may_be_usable(clip: ClipView, files: Seq<bool>, usable: Seq<bool>) -> bool {
    clip matches ClipView::Text(text) ==> exists|absolute: Seq<bool>|
        #[trigger] may_be_usable(pasted_lines(split_on(text, '\n')), files, absolute, usable)
}

/// Pastes what the clipboard holds. `files` says of each path that a text may name whether it is that
/// of a file. A pasted image gets a name of its own.
pub fn paste(state: &mut EditState, clip: ClipData, files: &Vec<bool>, now_ms: u64) -> (action:
    PasteAction)
    requires
        clip@ matches ClipView::Text(text) ==> files@.len() == pasted_lines(
            split_on(text, '\n'),
        ).len(),
    ensures
        exists|id: Seq<char>, usable: Seq<bool>|
            {
                &&& id.len() == 32
                &&& lower_hex(id)
                &&& clip_may_be_usable(clip@, files@, usable)
                &&& (final(state)@, action@) == #[trigger] paste_effect(
                    old(state)@,
                    clip@,
                    usable,
                    id,
                    now_ms,
                )
            },
{
    let id = fresh_id();
    let usable = match &clip {
        ClipData::Text(text) => usable_paths(text.as_str(), files),
        _ => Vec::new(),
    };
    handle_paste(state, clip, &usable, id.as_str(), now_ms)
}

/// A name for a request that is made with the next key.
pub fn new_request_id() -> (id: String)
    ensures
        id@.len() == 32,
        lower_hex(id@),
{
    fresh_id()
}

/// Does what a key does.
pub fn handle_key(state: &mut EditState, key: KeyEvent, ctx: &KeyCtx) -> (action: KeyAction)
    requires
        old(state).cursor < usize::MAX,
        rows_match(row_views(ctx.chat_rows@), message_views(ctx.messages@)),
    ensures
        (final(state)@, action@) == key_effect(
            old(state)@,
            key,
            row_views(ctx.chat_rows@),
            message_views(ctx.messages@),
            invite_action(
                opt_str(ctx.owner_capability),
                ctx.server_addr@,
                ctx.room_id@,
                ctx.pwd@,
                ctx.request_id@,
            ),
            ctx.now_ms,
        ),
{
    let ghost rows = row_views(ctx.chat_rows@);
    assert(rows.len() == ctx.chat_rows@.len());
    match key.code {
        KeyCode::Char(ch) => {
            if key.control {
                return control_key(state, ch, ctx);
            }
            if !key.alt {
                let mut text = String::new();
                crate::outside::text::push_char(&mut text, ch);
                assert(text@ =~= seq![ch]);
                insert_text(state, text.as_str(), 1, ctx.now_ms);
            }
            KeyAction::Nothing
        },
        KeyCode::Left => {
            state.cursor = less_of(
                state.cursor,
                if key.control {
                    3
                } else {
                    1
                },
            );
            KeyAction::Nothing
        },
        KeyCode::Right => {
            let total = cluster_count(state.input.as_str());
            if state.cursor < total {
                state.cursor = if key.control {
                    total
                } else {
                    state.cursor + 1
                };
            }
            KeyAction::Nothing
        },
        KeyCode::Backspace => {
            if state.cursor > 0 {
                state.undo_mgr.maybe_push(
                    &state.input,
                    state.cursor,
                    OpKind::Insert,
                    ctx.now_ms,
                );
                let (head, _, _) = split_at_cluster(state.input.as_str(), state.cursor - 1);
                let (_, tail, _) = split_at_cluster(state.input.as_str(), state.cursor);
                state.input = joined(head.as_str(), tail.as_str());
                state.cursor = state.cursor - 1;
            }
            KeyAction::Nothing
        },
        KeyCode::Enter => {
            state.undo_mgr.maybe_push(&state.input, state.cursor, OpKind::Insert, ctx.now_ms);
            let msg = trim(state.input.as_str());
            if msg.as_str().unicode_len() > 0 {
                state.input = String::new();
                state.cursor = 0;
                assert(state.input@ =~= Seq::<char>::empty());
                KeyAction::Send(msg)
            } else {
                KeyAction::Nothing
            }
        },
        KeyCode::Up => {
            match state.selected {
                Some(i) => {
                    state.selected = Some(
                        less_of(
                            i,
                            if key.control {
                                5
                            } else {
                                1
                            },
                        ),
                    );
                },
                None => {},
            }
            KeyAction::Nothing
        },
        KeyCode::Down => {
            let last = less_of(ctx.chat_rows.len(), 1);
            if key.control {
                state.selected = Some(last);
            } else {
                match state.selected {
                    Some(i) => {
                        state.selected = Some(
                            if i < last {
                                i + 1
                            } else {
                                last
                            },
                        );
                    },
                    None => {},
                }
            }
            KeyAction::Nothing
        },
        KeyCode::Tab => {
            match selected_message_index(ctx.chat_rows.as_slice(), state.selected) {
                Some(sel) => {
                    proof {
                        let row = state.selected->0;
                        assert(rows[row as int].message_index == sel);
                        assert(
                            message_views(ctx.messages@)[sel as int] == ctx.messages@[sel as int]@
                        );
                    }
                    match &ctx.messages[sel] {
                        ChatMessage::Attachment { attachment_id, .. } => KeyAction::Open(
                            attachment_id.clone(),
                        ),
                        ChatMessage::Text(_) => KeyAction::Nothing,
                    }
                },
                None => KeyAction::Nothing,
            }
        },
        KeyCode::Esc => KeyAction::Quit(QUIT_LINE.to_owned()),
        KeyCode::Other => KeyAction::Nothing,
    }
}

fn control_key(state: &mut EditState, ch: char, ctx: &KeyCtx) -> (action: KeyAction)
    requires
        rows_match(row_views(ctx.chat_rows@), message_views(ctx.messages@)),
    ensures
        (final(state)@, action@) == key_effect(
            old(state)@,
            KeyEvent { code: KeyCode::Char(ch), control: true, alt: false },
            row_views(ctx.chat_rows@),
            message_views(ctx.messages@),
            invite_action(
                opt_str(ctx.owner_capability),
                ctx.server_addr@,
                ctx.room_id@,
                ctx.pwd@,
                ctx.request_id@,
            ),
            ctx.now_ms,
        ),
{
    if ch == 'x' {
        KeyAction::Paste
    } else if ch == 'c' {
        match selected_message_index(ctx.chat_rows.as_slice(), state.selected) {
            Some(sel) => {
                proof {
                    let rows = row_views(ctx.chat_rows@);
                    let row = state.selected->0;
                    assert(rows[row as int].message_index == sel);
                    assert(message_views(ctx.messages@)[sel as int] == ctx.messages@[sel as int]@);
                }
                let (_, _, body) = parse_name_body(&ctx.messages[sel]);
                KeyAction::Copy(body)
            },
            None => KeyAction::Nothing,
        }
    } else if ch == 'h' {
        KeyAction::Send(HELP_TEXT.to_owned())
    } else if ch == 'j' {
        KeyAction::Send(HELP_TEXT_EN.to_owned())
    } else if ch == 'i' {
        KeyAction::Send(invite_line(ctx))
    } else if ch == 'a' {
        state.undo_mgr.maybe_push(&state.input, state.cursor, OpKind::Insert, ctx.now_ms);
        state.input = String::new();
        state.cursor = 0;
        assert(state.input@ =~= Seq::<char>::empty());
        KeyAction::Nothing
    } else if ch == 'z' {
        state.undo_mgr.undo(&mut state.input, &mut state.cursor);
        KeyAction::Nothing
    } else {
        KeyAction::Nothing
    }
}

/// What is said when an image in the clipboard cannot be used.
pub fn bad_image_line(reason: &str) -> (line: String)
    ensures
        line@ == notice("剪贴板图片格式异常: "@ + reason@),
{
    let text = joined("剪贴板图片格式异常: ", reason);
    build_local_notice_line(text.as_str())
}

/// What is said when the clipboard cannot be read.
pub fn clipboard_failed_line(reason: &str) -> (line: String)
    ensures
        line@ == notice("读取剪贴板失败: "@ + reason@),
{
    let text = joined("读取剪贴板失败: ", reason);
    build_local_notice_line(text.as_str())
}

/// What is said when an image cannot be written.
pub fn image_write_failed_line(reason: &str) -> (line: String)
    ensures
        line@ == notice("写入临时图片失败: "@ + reason@),
{
    let text = joined("写入临时图片失败: ", reason);
    build_local_notice_line(text.as_str())
}

/// What is said when an attachment cannot be opened.
pub fn open_failed_line(reason: &str) -> (line: String)
    ensures
        line@ == notice("打开附件失败: "@ + reason@),
{
    let text = joined("打开附件失败: ", reason);
    build_local_notice_line(text.as_str())
}

} // verus!
