//! What the rows of the conversation show of its messages.
use crate::client::receiver::ChatMessageView;
use crate::client::utils::message_parts;
use crate::outside::unicode::{clusters, columns, flat};
use crate::ui::layout::{
    all_clusters, law_wrapping_keeps_text, lemma_flat_concat, line_texts, right_aligned,
    shown_clusters, wrapped, wrapped_clusters,
};
use crate::ui::screen::painted_rows;
use crate::ui::tui::{
    aligned, body_width, chat_rows, framed, inner_width, is_title_row, message_rows, system_width,
    title_text, Color, Rect, RowView,
};
use crate::util::text::{is_white, occurs, trimmed_start};
use vstd::prelude::*;

verus! {

/// A text stands in another where it stands between two others.
pub proof fn lemma_occurs_between(before: Seq<char>, part: Seq<char>, after: Seq<char>)
    ensures
        occurs(part, before + part + after),
{
    let s = before + part + after;
    assert(s.skip(before.len() as int) =~= part + after);
    assert(part.is_prefix_of(s.skip(before.len() as int)));
}

/// A row at the right edge is the text with nothing but blanks before it, as many as are missing to
/// the width.
pub proof fn law_right_aligned_keeps_text(text: Seq<char>, max_width: usize)
    ensures
        ({
            let row = right_aligned(text, max_width);
            let pad = row.len() - text.len();
            &&& pad >= 0
            &&& row.skip(pad) == text
            &&& forall|i: int| 0 <= i < pad ==> #[trigger] row[i] == ' '
            &&& columns(text) <= max_width ==> pad + columns(text) == max_width
            &&& columns(text) > max_width ==> pad == 0
        }),
{
    let row = right_aligned(text, max_width);
    assert(row.skip(row.len() - text.len()) =~= text);
}

/// The lines' texts one after the other are the clusters of the lines one after the other.
proof fn lemma_flat_lines(lines: Seq<Seq<Seq<char>>>)
    ensures
        flat(line_texts(lines)) == flat(all_clusters(lines)),
    decreases lines.len(),
{
    if lines.len() > 0 {
        lemma_flat_lines(lines.drop_last());
        lemma_flat_concat(all_clusters(lines.drop_last()), lines.last());
        assert(line_texts(lines).drop_last() =~= line_texts(lines.drop_last()));
        assert(line_texts(lines).last() == flat(lines.last()));
    }
}

/// The lines of a wrapped text, one after the other, are the text without its newlines and without
/// what is wider than a line; and there is always a line.
pub proof fn law_lines_hold_the_text(text: Seq<char>, max_width: u16)
    requires
        max_width > 0,
    ensures
        wrapped(text, max_width).len() > 0,
        flat(wrapped(text, max_width)) == flat(shown_clusters(clusters(text), max_width)),
{
    lemma_flat_lines(wrapped_clusters(clusters(text), max_width));
    law_wrapping_keeps_text(clusters(text), max_width);
}

/// A line of a message leaves room for its frame on every screen that is wide enough for one.
pub proof fn law_body_leaves_room_for_the_frame(inner: usize)
    requires
        inner <= u16::MAX,
    ensures
        body_width(inner) >= 1,
        inner >= 4 ==> body_width(inner) + 2 <= inner,
        inner >= 24 ==> body_width(inner) >= 22 && body_width(inner) + 2 >= inner * 3 / 4,
        inner >= 32 ==> body_width(inner) + 2 <= inner * 3 / 4,
        system_width(inner) >= 1,
        inner >= 1 ==> system_width(inner) == inner,
{
}

/// The rows leave the frame of the conversation and the mark of the selected row free.
pub proof fn law_rows_fit_the_screen(screen: Rect)
    ensures
        inner_width(screen) <= screen.width,
        screen.width >= 4 && columns("▌ "@) == 2 ==> inner_width(screen) <= screen.width - 4,
        screen.width >= 6 && columns("▌ "@) == 2 ==> inner_width(screen) == screen.width - 6,
{
}

/// A line in its frame: the line is there unchanged, at the end of others' rows and before the mark
/// of one's own, and the last line closes the frame.
pub proof fn law_frame_keeps_the_line(line: Seq<char>, is_last: bool, mine: bool)
    ensures
        occurs(line, framed(line, is_last, mine)),
        mine ==> framed(line, is_last, mine).take(line.len() as int) == line,
        !mine ==> framed(line, is_last, mine).skip(
            framed(line, is_last, mine).len() - line.len(),
        ) == line,
        framed(line, is_last, mine).len() == line.len() + (if is_last {
            3int
        } else {
            2
        }),
        mine && is_last ==> framed(line, is_last, mine).last() == '╯',
        mine && !is_last ==> framed(line, is_last, mine).last() == '│',
        !mine && is_last ==> framed(line, is_last, mine)[0] == '╰',
        !mine && !is_last ==> framed(line, is_last, mine)[0] == '│',
{
    reveal_strlit(" ─╯");
    reveal_strlit(" │");
    reveal_strlit("╰─ ");
    reveal_strlit("│ ");
    let row = framed(line, is_last, mine);
    let none = Seq::<char>::empty();
    if mine {
        assert(row.take(line.len() as int) =~= line);
        lemma_occurs_between(none, line, row.skip(line.len() as int));
        assert(none + line + row.skip(line.len() as int) =~= row);
    } else {
        let k = row.len() - line.len();
        assert(row.skip(k) =~= line);
        lemma_occurs_between(row.take(k), line, none);
        assert(row.take(k) + line + none =~= row);
    }
}

/// What stands in a row stands in it at its edge too.
proof fn lemma_occurs_aligned(part: Seq<char>, text: Seq<char>, inner: usize, mine: bool)
    requires
        occurs(part, text),
    ensures
        occurs(part, aligned(text, inner, mine)),
{
    let i = choose|i: int| 0 <= i <= text.len() && part.is_prefix_of(#[trigger] text.skip(i));
    if mine {
        let row = right_aligned(text, inner);
        let pad = row.len() - text.len();
        assert(row.skip(pad + i) =~= text.skip(i));
    }
}

/// The rows of a message show all of it: the first has the name of the sender and the time, and each
/// further one the next line of the body, whether it is the last line or not. Taken out of their
/// frames and joined, the lines are the body that wrapping keeps.
#[verifier::spinoff_prover]
pub proof fn law_rows_show_the_message(
    index: usize,
    m: ChatMessageView,
    inner: usize,
    username: Seq<char>,
)
    requires
        message_parts(m).0 != "System"@,
        inner <= u16::MAX,
    ensures
        ({
            let (name, time, body) = message_parts(m);
            let rows = message_rows(index, m, inner, username);
            let lines = wrapped(body, body_width(inner));
            &&& rows.len() == lines.len() + 1
            &&& rows.len() >= 2
            &&& occurs(time, rows[0].text)
            &&& name != username ==> occurs(name, rows[0].text)
            &&& name == username ==> occurs("You"@, rows[0].text)
            &&& forall|i: int|
                0 <= i < lines.len() ==> occurs(#[trigger] lines[i], rows[i + 1].text)
            &&& name != username ==> forall|i: int|
                0 <= i < lines.len() ==> (#[trigger] lines[i]).is_suffix_of(rows[i + 1].text)
            &&& flat(lines) == flat(shown_clusters(clusters(body), body_width(inner)))
        }),
        forall|i: int|
            0 <= i < message_rows(index, m, inner, username).len() ==> {
                let row = #[trigger] message_rows(index, m, inner, username)[i];
                &&& row.message_index == index
                &&& message_parts(m).0 == username ==> row.color == Color::Cyan
                &&& message_parts(m).0 != username ==> row.color == Color::LightMagenta
            },
{
    let (name, time, body) = message_parts(m);
    let mine = name == username;
    let rows = message_rows(index, m, inner, username);
    let lines = wrapped(body, body_width(inner));
    law_body_leaves_room_for_the_frame(inner);
    law_lines_hold_the_text(body, body_width(inner));
    let title = title_text(name, time, mine);
    let none = Seq::<char>::empty();
    if mine {
        lemma_occurs_between("You"@ + " · "@, time, " ─╮"@);
        lemma_occurs_between(none, "You"@, " · "@ + time + " ─╮"@);
        assert(none + "You"@ + (" · "@ + time + " ─╮"@) =~= title);
        lemma_occurs_aligned("You"@, title, inner, mine);
    } else {
        lemma_occurs_between("╭─ "@ + name + " · "@, time, none);
        assert("╭─ "@ + name + " · "@ + time + none =~= title);
        lemma_occurs_between("╭─ "@, name, " · "@ + time);
        assert("╭─ "@ + name + (" · "@ + time) =~= title);
        lemma_occurs_aligned(name, title, inner, mine);
    }
    lemma_occurs_aligned(time, title, inner, mine);
    assert forall|i: int| 0 <= i < lines.len() implies {
        &&& occurs(#[trigger] lines[i], rows[i + 1].text)
        &&& !mine ==> lines[i].is_suffix_of(rows[i + 1].text)
    } by {
        let last = i == lines.len() - 1;
        law_frame_keeps_the_line(lines[i], last, mine);
        lemma_occurs_aligned(lines[i], framed(lines[i], last, mine), inner, mine);
    }
}

/// The rows of a message of the system, one after the other, are its time and its body as far as
/// wrapping keeps them.
pub proof fn law_rows_show_the_system_message(
    index: usize,
    m: ChatMessageView,
    inner: usize,
    username: Seq<char>,
)
    requires
        message_parts(m).0 == "System"@,
        inner <= u16::MAX,
    ensures
        ({
            let (name, time, body) = message_parts(m);
            let rows = message_rows(index, m, inner, username);
            let text = "• "@ + time + "  "@ + body;
            &&& rows.len() > 0
            &&& flat(rows.map_values(|r: RowView| r.text)) == flat(
                shown_clusters(clusters(text), system_width(inner)),
            )
            &&& forall|i: int|
                0 <= i < rows.len() ==> (#[trigger] rows[i]).message_index == index
                    && rows[i].color == Color::DarkGray
        }),
{
    let (name, time, body) = message_parts(m);
    let text = "• "@ + time + "  "@ + body;
    law_body_leaves_room_for_the_frame(inner);
    law_lines_hold_the_text(text, system_width(inner));
    let rows = message_rows(index, m, inner, username);
    assert(rows.map_values(|r: RowView| r.text) =~= wrapped(text, system_width(inner)));
}

/// Every message has its rows in the conversation, one after the other and behind those of the
/// messages before it.
pub proof fn law_every_message_has_its_rows(
    messages: Seq<ChatMessageView>,
    inner: usize,
    username: Seq<char>,
    k: int,
)
    requires
        0 <= k < messages.len(),
        messages.len() <= usize::MAX,
    ensures
        ({
            let rows = chat_rows(messages, inner, username);
            let before = chat_rows(messages.take(k), inner, username);
            let own = message_rows(k as usize, messages[k], inner, username);
            &&& before.len() + own.len() <= rows.len()
            &&& rows.take(before.len() as int) == before
            &&& rows.subrange(before.len() as int, (before.len() + own.len()) as int) == own
            &&& k == messages.len() - 1 ==> before.len() + own.len() == rows.len()
        }),
    decreases messages.len(),
{
    let rows = chat_rows(messages, inner, username);
    let before = chat_rows(messages.take(k), inner, username);
    let own = message_rows(k as usize, messages[k], inner, username);
    if k == messages.len() - 1 {
        assert(messages.take(k) =~= messages.drop_last());
        assert(rows == before + own);
        assert(rows.take(before.len() as int) =~= before);
        assert(rows.subrange(before.len() as int, (before.len() + own.len()) as int) =~= own);
    } else {
        let shorter = messages.drop_last();
        law_every_message_has_its_rows(shorter, inner, username, k);
        assert(shorter.take(k) =~= messages.take(k));
        let fewer = chat_rows(shorter, inner, username);
        assert(fewer.is_prefix_of(rows));
        assert(rows.take(before.len() as int) =~= fewer.take(before.len() as int));
        assert(rows.subrange(before.len() as int, (before.len() + own.len()) as int)
            =~= fewer.subrange(before.len() as int, (before.len() + own.len()) as int));
    }
}

/// No message, no row.
pub proof fn law_no_message_no_row(inner: usize, username: Seq<char>)
    ensures
        chat_rows(Seq::<ChatMessageView>::empty(), inner, username).len() == 0,
{
}

/// Leading white space goes, and the rest stays.
proof fn lemma_trimmed_start_suffix(s: Seq<char>, k: int)
    requires
        0 <= k < s.len(),
        !is_white(s[k]),
    ensures
        trimmed_start(s).len() >= s.len() - k,
        trimmed_start(s).is_suffix_of(s),
    decreases s.len(),
{
    if is_white(s[0]) {
        lemma_trimmed_start_suffix(s.drop_first(), k - 1);
        let t = trimmed_start(s);
        assert(t =~= s.subrange(s.len() - t.len(), s.len() as int));
    }
}

/// The first row of a message is painted bold.
pub proof fn law_first_row_is_bold(
    index: usize,
    m: ChatMessageView,
    inner: usize,
    username: Seq<char>,
)
    requires
        message_parts(m).0 != "System"@,
    ensures
        painted_rows(message_rows(index, m, inner, username), false)[0].bold,
{
    let (name, time, body) = message_parts(m);
    let mine = name == username;
    let title = title_text(name, time, mine);
    let text = aligned(title, inner, mine);
    assert(message_rows(index, m, inner, username)[0].text == text);
    reveal_strlit("╭─ ");
    reveal_strlit("╭─");
    reveal_strlit(" ─╮");
    reveal_strlit("─╮");
    reveal_strlit("You");
    if mine {
        let n = text.len() as int;
        assert(text[n - 1] == '╮' && text[n - 2] == '─');
        lemma_trimmed_start_suffix(text, n - 2);
        let t = trimmed_start(text);
        assert("─╮"@ =~= t.subrange(t.len() - 2, t.len() as int));
    } else {
        assert(text[0] == '╭');
        assert(trimmed_start(text) == text);
        assert("╭─"@ =~= text.subrange(0, 2));
    }
    assert(is_title_row(text));
}

/// The further rows of what others say are not bold, unless the text itself ends as a first row does.
pub proof fn law_further_rows_are_not_bold(
    index: usize,
    m: ChatMessageView,
    inner: usize,
    username: Seq<char>,
    i: int,
)
    requires
        message_parts(m).0 != "System"@,
        message_parts(m).0 != username,
        inner <= u16::MAX,
        0 <= i < wrapped(message_parts(m).2, body_width(inner)).len(),
        !"─╮"@.is_suffix_of(
            message_rows(index, m, inner, username)[i + 1].text,
        ),
    ensures
        !painted_rows(message_rows(index, m, inner, username), false)[i + 1].bold,
{
    let rows = message_rows(index, m, inner, username);
    let lines = wrapped(message_parts(m).2, body_width(inner));
    let last = i == lines.len() - 1;
    let text = rows[i + 1].text;
    assert(text == framed(lines[i], last, false));
    law_frame_keeps_the_line(lines[i], last, false);
    assert(trimmed_start(text) == text);
    reveal_strlit("╭─");
    if "╭─"@.is_prefix_of(text) {
        assert("╭─"@[0] == text.subrange(0, 2)[0]);
    }
}

} // verus!
