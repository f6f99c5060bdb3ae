//! What the texts and places on the screen promise.
use crate::client::receiver::ChatMessageView;
use crate::client::ui::{plain_chat_rows, plain_heading, plain_rows, plain_width};
use crate::client::utils::message_parts;
use crate::crypto::safety::{emoji_code, SafetyCode};
use crate::outside::unicode::{clusters, columns, flat};
use crate::protocol::member::IdentityView;
use crate::ui::clipboard::{named_files, normalized_rgba, pasted_lines};
use crate::ui::help::{
    as_double, double_unit, percent, rounded, size_text, status_text, transfer_text,
    TransferDirection, TransferStage,
};
use crate::ui::layout::{
    after_cluster, before_cluster, cursor_place, lemma_wrap_fits, shown_clusters, total_width,
    wrap_state, wrapped, wrapped_clusters,
};
use crate::ui::row_laws::{law_lines_hold_the_text, lemma_occurs_between};
use crate::ui::screen::{cursor_on_screen, input_text, input_width, painted_rows, transfers_or};
use crate::ui::tui::{
    kept_selection, members_heading, members_or, painted_notice, selected_message, Color, Rect,
    RowView,
};
use crate::util::codec::{join_texts, lemma_split_joined};
use crate::util::text::{decimal, occurs, split_on, trimmed};
use vstd::prelude::*;

verus! {

/// What stands in a part stands in the whole.
pub proof fn lemma_occurs_inside(
    part: Seq<char>,
    before: Seq<char>,
    middle: Seq<char>,
    after: Seq<char>,
)
    requires
        occurs(part, middle),
    ensures
        occurs(part, before + middle + after),
{
    let s = before + middle + after;
    let i = choose|i: int| 0 <= i <= middle.len() && part.is_prefix_of(#[trigger] middle.skip(i));
    let rest = s.skip(before.len() + i);
    assert(part =~= rest.subrange(0, part.len() as int)) by {
        assert forall|k: int| 0 <= k < part.len() implies part[k] == rest[k] by {
            assert(part[k] == middle.skip(i)[k]);
        }
    }
}

/// Each of the texts that are joined stands in the whole.
pub proof fn lemma_joined_holds_each(parts: Seq<Seq<char>>, sep: Seq<char>, k: int)
    requires
        0 <= k < parts.len(),
    ensures
        occurs(parts[k], join_texts(parts, sep)),
    decreases parts.len(),
{
    let none = Seq::<char>::empty();
    if parts.len() == 1 {
        lemma_occurs_between(none, parts[0], none);
        assert(none + parts[0] + none =~= parts[0]);
    } else {
        let rest = join_texts(parts.drop_first(), sep);
        if k == 0 {
            lemma_occurs_between(none, parts[0], sep + rest);
            assert(none + parts[0] + (sep + rest) =~= parts[0] + sep + rest);
        } else {
            lemma_joined_holds_each(parts.drop_first(), sep, k - 1);
            lemma_occurs_inside(parts[k], parts[0] + sep, rest, none);
            assert(parts[0] + sep + rest + none =~= parts[0] + sep + rest);
        }
    }
}

/// The plain form of a message shows all of it: the first row has the name and the time, and each
/// further one ends with the next line of the body.
pub proof fn law_plain_rows_show_the_message(
    index: usize,
    m: ChatMessageView,
    inner: usize,
    username: Seq<char>,
)
    requires
        inner <= u16::MAX,
    ensures
        ({
            let (name, time, body) = message_parts(m);
            let rows = plain_rows(index, m, inner, username);
            let lines = wrapped(body, plain_width(inner));
            &&& rows.len() == lines.len() + 1
            &&& rows.len() >= 2
            &&& occurs(name, rows[0].text)
            &&& occurs(time, rows[0].text)
            &&& flat(lines) == flat(shown_clusters(clusters(body), plain_width(inner)))
            &&& inner > 6 ==> plain_width(inner) + 5 == inner
            &&& forall|i: int|
                0 <= i < lines.len() ==> {
                    let text = rows[i + 1].text;
                    &&& text.len() == (#[trigger] lines[i]).len() + 5
                    &&& text.skip(5) == lines[i]
                    &&& text[0] == (if i == lines.len() - 1 {
                        '└'
                    } else {
                        '|'
                    })
                }
            &&& painted_rows(rows, true)[0].bold
        }),
        forall|i: int|
            0 <= i < plain_rows(index, m, inner, username).len() ==> {
                let row = #[trigger] plain_rows(index, m, inner, username)[i];
                let name = message_parts(m).0;
                &&& row.message_index == index
                &&& name == "System"@ ==> row.color == Color::DarkGray
                &&& name != "System"@ && name == username ==> row.color == Color::Blue
                &&& name != "System"@ && name != username ==> row.color == Color::Red
            },
{
    let (name, time, body) = message_parts(m);
    let rows = plain_rows(index, m, inner, username);
    let lines = wrapped(body, plain_width(inner));
    law_lines_hold_the_text(body, plain_width(inner));
    let title = rows[0].text;
    let none = Seq::<char>::empty();
    lemma_occurs_between("┌-["@, name, "]-#"@ + time);
    assert("┌-["@ + name + ("]-#"@ + time) =~= title);
    lemma_occurs_between("┌-["@ + name + "]-#"@, time, none);
    assert("┌-["@ + name + "]-#"@ + time + none =~= title);
    reveal_strlit("┌-[");
    reveal_strlit("┌-");
    assert("┌-"@ =~= title.subrange(0, 2));
    reveal_strlit("└--$ ");
    reveal_strlit("|    ");
    assert forall|i: int| 0 <= i < lines.len() implies {
        let text = rows[i + 1].text;
        &&& text.len() == (#[trigger] lines[i]).len() + 5
        &&& text.skip(5) == lines[i]
        &&& text[0] == (if i == lines.len() - 1 {
            '└'
        } else {
            '|'
        })
    } by {
        assert(rows[i + 1].text.skip(5) =~= lines[i]);
    }
}

/// In the plain form too every message has its rows, behind those of the messages before it.
pub proof fn law_every_message_has_its_plain_rows(
    messages: Seq<ChatMessageView>,
    inner: usize,
    username: Seq<char>,
    k: int,
)
    requires
        0 <= k < messages.len(),
        messages.len() <= usize::MAX,
    ensures
        ({
            let rows = plain_chat_rows(messages, inner, username);
            let before = plain_chat_rows(messages.take(k), inner, username);
            let own = plain_rows(k as usize, messages[k], inner, username);
            &&& before.len() + own.len() <= rows.len()
            &&& rows.take(before.len() as int) == before
            &&& rows.subrange(before.len() as int, (before.len() + own.len()) as int) == own
            &&& k == messages.len() - 1 ==> before.len() + own.len() == rows.len()
            &&& k == 0 ==> before.len() == 0
        }),
    decreases messages.len(),
{
    let rows = plain_chat_rows(messages, inner, username);
    let before = plain_chat_rows(messages.take(k), inner, username);
    let own = plain_rows(k as usize, messages[k], inner, username);
    if k == messages.len() - 1 {
        assert(messages.take(k) =~= messages.drop_last());
        assert(rows.take(before.len() as int) =~= before);
        assert(rows.subrange(before.len() as int, (before.len() + own.len()) as int) =~= own);
    } else {
        let shorter = messages.drop_last();
        law_every_message_has_its_plain_rows(shorter, inner, username, k);
        assert(shorter.take(k) =~= messages.take(k));
        let fewer = plain_chat_rows(shorter, inner, username);
        assert(fewer.is_prefix_of(rows));
        assert(rows.take(before.len() as int) =~= fewer.take(before.len() as int));
        assert(rows.subrange(before.len() as int, (before.len() + own.len()) as int)
            =~= fewer.subrange(before.len() as int, (before.len() + own.len()) as int));
    }
}

/// The title of the members shows the code by which they are verified.
pub proof fn law_members_title_shows_the_code(code: Seq<char>, of_room: &SafetyCode)
    ensures
        occurs(code, members_heading(Some(code))),
        occurs(emoji_code(of_room.hash@), plain_heading(Some(of_room))),
{
    let none = Seq::<char>::empty();
    lemma_occurs_between(" Members · Verify "@, code, " "@);
    let shown = emoji_code(of_room.hash@);
    lemma_occurs_between("Members | Verify Code: "@, shown, none);
    assert("Members | Verify Code: "@ + shown + none =~= "Members | Verify Code: "@ + shown);
}

/// Every member is named on the screen, and a stand-in is there only where there is none.
pub proof fn law_members_are_named(members: Seq<IdentityView>, stand_in: Seq<char>, k: int)
    requires
        0 <= k < members.len(),
    ensures
        occurs(members[k].nickname, members_or(members, stand_in)),
        members_or(Seq::<IdentityView>::empty(), stand_in) == stand_in,
{
    let names = members.map_values(|m: IdentityView| m.nickname);
    lemma_joined_holds_each(names, ", "@, k);
    assert(names[k] == members[k].nickname);
}

/// Every transfer is listed on the screen, in a line of its own.
pub proof fn law_transfers_are_listed(lines: Seq<Seq<char>>, stand_in: Seq<char>)
    requires
        forall|i: int| 0 <= i < lines.len() ==> !(#[trigger] lines[i]).contains('\n'),
    ensures
        lines.len() > 0 ==> split_on(transfers_or(lines, stand_in), '\n') == lines,
        lines.len() == 0 ==> transfers_or(lines, stand_in) == stand_in,
{
    reveal_strlit("\n");
    assert("\n"@ =~= seq!['\n']);
    if lines.len() > 0 {
        lemma_split_joined(lines, '\n');
    }
}

/// The line of a transfer names the file, its size and, unless it is blank, what is to be said of
/// it.
pub proof fn law_transfer_line_tells_all(
    file_name: Seq<char>,
    total_size: u64,
    direction: TransferDirection,
    stage: TransferStage,
    acked: usize,
    total: usize,
    detail: Option<Seq<char>>,
)
    ensures
        ({
            let line = transfer_text(
                file_name,
                total_size,
                direction,
                stage,
                acked,
                total,
                detail,
            );
            &&& occurs(file_name, line)
            &&& occurs(size_text(total_size), line)
            &&& status_text(direction, stage, acked, total).is_prefix_of(line)
            &&& detail is Some && trimmed(detail->0).len() > 0 ==> detail->0.is_suffix_of(line)
        }),
{
    let line = transfer_text(file_name, total_size, direction, stage, acked, total, detail);
    let status = status_text(direction, stage, acked, total);
    let size = size_text(total_size);
    let tail = line.skip(
        (status.len() + " | "@.len() + file_name.len() + " | "@.len() + size.len()) as int,
    );
    lemma_occurs_between(status + " | "@, file_name, " | "@ + size + tail);
    assert(status + " | "@ + file_name + (" | "@ + size + tail) =~= line);
    lemma_occurs_between(status + " | "@ + file_name + " | "@, size, tail);
    assert(status + " | "@ + file_name + " | "@ + size + tail =~= line);
    assert(status =~= line.subrange(0, status.len() as int));
    if detail is Some && trimmed(detail->0).len() > 0 {
        let d = detail->0;
        assert(d =~= line.subrange(line.len() - d.len(), line.len() as int));
    }
}

/// The states of a transfer are told apart: what goes out from what comes in, and both from what is
/// done and from what has failed.
pub proof fn law_transfer_states_differ(acked: usize, total: usize)
    ensures
        ({
            let out = status_text(TransferDirection::Sending, TransferStage::Active, acked, total);
            let in_ = status_text(
                TransferDirection::Receiving,
                TransferStage::Active,
                acked,
                total,
            );
            let done = status_text(TransferDirection::Sending, TransferStage::Done, acked, total);
            let failed = status_text(
                TransferDirection::Sending,
                TransferStage::Failed,
                acked,
                total,
            );
            &&& "sending "@.is_prefix_of(out)
            &&& "receiving "@.is_prefix_of(in_)
            &&& out.last() == '%'
            &&& in_.last() == '%'
            &&& done != failed
            &&& done == status_text(TransferDirection::Receiving, TransferStage::Done, acked, total)
            &&& failed == status_text(
                TransferDirection::Receiving,
                TransferStage::Failed,
                acked,
                total,
            )
            &&& total > 0 ==> occurs(decimal(percent(acked, total)), out)
            &&& total > 0 ==> occurs(decimal(percent(acked, total)), in_)
        }),
{
    reveal_strlit("sending ");
    reveal_strlit("receiving ");
    reveal_strlit("%");
    reveal_strlit("0%");
    reveal_strlit("done");
    reveal_strlit("failed");
    let out = status_text(TransferDirection::Sending, TransferStage::Active, acked, total);
    let in_ = status_text(TransferDirection::Receiving, TransferStage::Active, acked, total);
    assert("sending "@ =~= out.subrange(0, "sending "@.len() as int));
    assert("receiving "@ =~= in_.subrange(0, "receiving "@.len() as int));
    assert("done"@.len() == 4 && "failed"@.len() == 6);
    if total > 0 {
        let n = decimal(percent(acked, total));
        lemma_occurs_between("sending "@, n, "%"@);
        lemma_occurs_between("receiving "@, n, "%"@);
    }
}

/// The percentage runs from nothing to a hundred, which it reaches exactly at the end.
pub proof fn law_percentage_reaches_a_hundred_at_the_end(acked: usize, total: usize)
    requires
        0 < total,
        acked <= total,
        acked * 100 <= usize::MAX,
    ensures
        percent(acked, total) <= 100,
        percent(acked, total) == 100 <==> acked == total,
        percent(0, total) == 0,
        percent(acked, total) * total <= acked * 100,
        (percent(acked, total) + 1) * total > acked * 100,
{
    let a = acked * 100;
    let t = total as int;
    let p = percent(acked, total) as int;
    assert(p == a / t);
    vstd::arithmetic::div_mod::lemma_fundamental_div_mod(a, t);
    assert(p * t <= a && (p + 1) * t > a) by (nonlinear_arith)
        requires
            a == t * p + a % t,
            0 <= a % t < t,
    ;
    assert(p <= 100) by (nonlinear_arith)
        requires
            p * t <= a,
            a <= 100 * t,
            t > 0,
    ;
    if acked == total {
        assert(p == 100) by (nonlinear_arith)
            requires
                (p + 1) * t > a,
                a == 100 * t,
                p <= 100,
                t > 0,
        ;
    } else {
        assert(p < 100) by (nonlinear_arith)
            requires
                p * t <= a,
                a < 100 * t,
                t > 0,
        ;
    }
    assert(0int / t == 0) by (nonlinear_arith)
        requires
            t > 0,
    ;
}

/// Rounding gives the nearest whole number.
pub proof fn law_rounding_is_to_the_nearest(a: nat, b: nat)
    requires
        b > 0,
    ensures
        2 * (rounded(a, b) * b - a) <= b,
        2 * (a - rounded(a, b) * b) <= b,
        2 * (rounded(a, b) * b - a) == b || 2 * (a - rounded(a, b) * b) == b ==> rounded(a, b) % 2
            == 0,
{
    let q = a / b;
    let r = a % b;
    vstd::arithmetic::div_mod::lemma_fundamental_div_mod(a as int, b as int);
    assert((q + 1) * b == b * q + b) by (nonlinear_arith);
    assert(q * b == b * q) by (nonlinear_arith);
}

/// A size is shown in the largest unit that fits it, and with one digit behind the point it is
/// within half a tenth of a unit of the size.
pub proof fn law_shown_size_is_near(size: u64)
    requires
        size < 0x20_0000_0000_0000,
    ensures
        size < 1024 ==> size_text(size) == decimal(size as nat) + " B"@,
        1024 <= size < 1024 * 1024 ==> shown_near(size, 1024, " KB"@),
        1024 * 1024 <= size < 1024 * 1024 * 1024 ==> shown_near(size, 1024 * 1024, " MB"@),
        1024 * 1024 * 1024 <= size ==> shown_near(size, 1024 * 1024 * 1024, " GB"@),
{
    let n = size as nat;
    assert(double_unit(n) == 1);
    assert(as_double(n) == n) by {
        assert(n / 1 == n && n % 1 == 0);
    }
    if size >= 1024 {
        let unit: nat = if size < 1024 * 1024 {
            1024
        } else if size < 1024 * 1024 * 1024 {
            1024 * 1024
        } else {
            1024 * 1024 * 1024
        };
        law_rounding_is_to_the_nearest(n * 10, unit);
        let tenths = rounded(n * 10, unit);
        assert(near_tenths(size, unit, tenths));
    }
}

/// Whether a number of tenths of a unit is as near to a size as tenths can be.
pub open spec fn near_tenths(size: u64, unit: nat, tenths: nat) -> bool {
    &&& 2 * (tenths * unit - 10 * size) <= unit
    &&& 2 * (10 * size - tenths * unit) <= unit
}

/// Whether a size is shown as the nearest number of tenths of a unit, with the unit's name.
pub open spec fn shown_near(size: u64, unit: nat, name: Seq<char>) -> bool {
    exists|tenths: nat|
        {
            &&& #[trigger] near_tenths(size, unit, tenths)
            &&& size_text(size) == decimal(tenths / 10) + "."@ + decimal(tenths % 10) + name
        }
}

/// A notice stands in the middle of its line, with two columns free at each side where there is
/// room, and its text is shown. A blank one is not.
pub proof fn law_notice_is_shown_in_the_middle(area: Rect, notice: Seq<char>)
    requires
        area.x + area.width <= u16::MAX,
        area.y + area.height <= u16::MAX,
    ensures
        painted_notice(area, None) is None,
        trimmed(notice).len() == 0 ==> painted_notice(area, Some(notice)) is None,
        trimmed(notice).len() > 0 && area.width > 2 && area.height > 2 ==> {
            let (place, text) = painted_notice(area, Some(notice))->0;
            let left = place.x - area.x - 1;
            let right = area.x + area.width - 1 - (place.x + place.width);
            &&& painted_notice(area, Some(notice)) is Some
            &&& occurs(notice, text)
            &&& left == right || left + 1 == right
            &&& place.height == 1
            &&& place.y + 2 == area.y + area.height
            &&& columns(notice) as u16 + 6 <= area.width ==> place.width == columns(notice) as u16
                + 4
        },
{
    lemma_occurs_between(" "@, notice, " "@);
}

/// A selection that is among the rows stays; another becomes the last row.
pub proof fn law_kept_selection_is_a_row(selected: Option<usize>, rows: usize)
    requires
        rows > 0,
    ensures
        kept_selection(selected, rows) is Some,
        kept_selection(selected, rows)->0 < rows,
        selected is Some && selected->0 < rows ==> kept_selection(selected, rows) == selected,
        selected is None || selected->0 >= rows ==> kept_selection(selected, rows)->0 == rows - 1,
{
}

/// A selected row belongs to the message whose rows it is among.
pub proof fn law_selected_message_is_of_the_row(rows: Seq<RowView>, row: usize)
    ensures
        row < rows.len() ==> selected_message(rows, Some(row)) == Some(
            rows[row as int].message_index,
        ),
        row >= rows.len() ==> selected_message(rows, Some(row)) is None,
        selected_message(rows, None) is None,
{
}

/// The input is shown whole, in lines as wide as its panel allows; every line is there.
pub proof fn law_input_is_shown_whole(input: Seq<char>, area: Rect, k: int)
    requires
        0 <= k < wrapped(input, input_width(area)).len(),
    ensures
        occurs(wrapped(input, input_width(area))[k], input_text(input, area)),
        flat(wrapped(input, input_width(area))) == flat(
            shown_clusters(clusters(input), input_width(area)),
        ),
        area.width >= 3 ==> input_width(area) + 2 == area.width,
        input_width(area) >= 1,
{
    lemma_joined_holds_each(wrapped(input, input_width(area)), "\n"@, k);
    law_lines_hold_the_text(input, input_width(area));
}

/// The cursor stands inside the frame of the input, and goes with the panel.
pub proof fn law_cursor_stands_in_the_panel(
    input: Seq<char>,
    cursor: usize,
    area: Rect,
    dx: u16,
    dy: u16,
)
    requires
        ({
            let place = cursor_place(input, cursor, input_width(area));
            &&& area.x + dx + 1 + place.0 <= u16::MAX
            &&& area.y + dy + 1 + place.1 <= u16::MAX
        }),
    ensures
        ({
            let here = cursor_on_screen(input, cursor, area);
            let there = cursor_on_screen(
                input,
                cursor,
                Rect { x: (area.x + dx) as u16, y: (area.y + dy) as u16, ..area },
            );
            &&& here.0 > area.x
            &&& here.1 > area.y
            &&& there.0 == here.0 + dx
            &&& there.1 == here.1 + dy
        }),
{
}

/// The cursor stands in the last of the lines that the text before it fills, behind that line.
pub proof fn law_cursor_stands_behind_the_text_before_it(
    input: Seq<char>,
    cursor: usize,
    max_width: u16,
)
    requires
        max_width > 0,
        wrapped(before_cluster(input, cursor), max_width).len() <= u16::MAX,
    ensures
        ({
            let lines = wrapped(before_cluster(input, cursor), max_width);
            let place = cursor_place(input, cursor, max_width);
            &&& place.1 < lines.len()
            &&& place.1 + 1 == lines.len()
            &&& columns(lines[place.1 as int]) <= u16::MAX ==> place.0 == columns(
                lines[place.1 as int],
            )
        }),
{
    law_lines_hold_the_text(before_cluster(input, cursor), max_width);
}

/// The text before a cluster grows with the clusters, one after the other, up to the whole text.
pub proof fn law_text_before_the_cursor(text: Seq<char>, n: usize)
    requires
        clusters(text).len() <= usize::MAX,
    ensures
        before_cluster(text, 0).len() == 0,
        n >= clusters(text).len() ==> before_cluster(text, n) == flat(clusters(text)),
        n >= clusters(text).len() ==> after_cluster(text, n).len() == 0,
        n < clusters(text).len() ==> {
            &&& before_cluster(text, (n + 1) as usize) == before_cluster(text, n) + clusters(
                text,
            )[n as int]
        },
        after_cluster(text, 0) == flat(clusters(text)),
{
    let gs = clusters(text);
    assert(gs.take(0) =~= Seq::<Seq<char>>::empty());
    assert(gs.take(gs.len() as int) =~= gs);
    assert(gs.skip(gs.len() as int) =~= Seq::<Seq<char>>::empty());
    assert(gs.skip(0) =~= gs);
    if n < gs.len() {
        assert(gs.take(n + 1).drop_last() =~= gs.take(n as int));
    }
}

/// A pasted image with a pixel that can be seen is taken as it is, and one without becomes opaque. One
/// whose bytes are not as many as its pixels ask for is refused.
pub proof fn law_pasted_image_is_visible(bytes: Seq<u8>, w: u32, h: u32, k: int)
    requires
        0 <= k,
    ensures
        (w as int) * (h as int) * 4 <= usize::MAX ==> (normalized_rgba(bytes, w, h) is Ok
            <==> bytes.len() == (w as int) * (h as int) * 4),
        normalized_rgba(bytes, w, h) is Ok && 4 * k + 3 < bytes.len() && bytes[4 * k + 3] != 0
            ==> normalized_rgba(bytes, w, h)->Ok_0 == bytes,
        normalized_rgba(bytes, w, h) is Ok && (forall|i: int|
            0 <= i < bytes.len() && i % 4 == 3 ==> #[trigger] bytes[i] == 0) ==> forall|i: int|
            0 <= i < bytes.len() && i % 4 == 3 ==> #[trigger] normalized_rgba(bytes, w, h)->Ok_0[i]
                == 255,
{
    assert((4 * k + 3) % 4 == 3);
}

/// Paths that are pasted one in each line are read as they are.
pub proof fn law_pasted_paths_are_read(paths: Seq<Seq<char>>)
    requires
        paths.len() > 0,
        forall|i: int|
            0 <= i < paths.len() ==> {
                let p = #[trigger] paths[i];
                &&& p.len() > 0
                &&& trimmed(p) == p
                &&& p[0] != '"'
                &&& !p.contains('\n')
            },
    ensures
        pasted_lines(split_on(join_texts(paths, "\n"@), '\n')) == paths,
{
    reveal_strlit("\n");
    assert("\n"@ =~= seq!['\n']);
    lemma_split_joined(paths, '\n');
    lemma_pasted_same(paths);
}

proof fn lemma_pasted_same(paths: Seq<Seq<char>>)
    requires
        forall|i: int|
            0 <= i < paths.len() ==> {
                let p = #[trigger] paths[i];
                &&& p.len() > 0
                &&& trimmed(p) == p
                &&& p[0] != '"'
            },
    ensures
        pasted_lines(paths) == paths,
    decreases paths.len(),
{
    if paths.len() > 0 {
        lemma_pasted_same(paths.drop_last());
        assert(paths.drop_last().push(paths.last()) =~= paths);
    } else {
        assert(pasted_lines(paths) =~= paths);
    }
}

/// Blank lines of a pasted text name nothing.
pub proof fn law_blank_lines_name_nothing(lines: Seq<Seq<char>>, blank: Seq<char>)
    requires
        trimmed(blank).len() == 0,
    ensures
        pasted_lines(lines.push(blank)) == pasted_lines(lines),
{
    assert(lines.push(blank).drop_last() =~= lines);
}

/// A pasted text is files only where every path in it can be used, and then it is all of them.
pub proof fn law_pasted_files_are_all_usable(text: Seq<char>, usable: Seq<bool>)
    ensures
        named_files(text, usable) is Some <==> usable.len() > 0 && forall|i: int|
            0 <= i < usable.len() ==> #[trigger] usable[i],
        named_files(text, usable) is Some ==> named_files(text, usable)->0 == pasted_lines(
            split_on(text, '\n'),
        ),
{
}

/// A newline ends a line, and begins an empty one.
pub proof fn law_newline_begins_a_line(gs: Seq<Seq<char>>, max_width: u16)
    ensures
        wrapped_clusters(gs.push("\n"@), max_width) == wrapped_clusters(gs, max_width).push(
            Seq::empty(),
        ),
{
    assert(gs.push("\n"@).drop_last() =~= gs);
}

/// Lines are filled: a cluster goes into the last line as long as it fits there, and begins another
/// only when it does not; one that fits into no line is left out.
pub proof fn law_lines_are_filled(gs: Seq<Seq<char>>, g: Seq<char>, max_width: u16)
    requires
        g != "\n"@,
    ensures
        ({
            let before = wrapped_clusters(gs, max_width);
            let after = wrapped_clusters(gs.push(g), max_width);
            let w = columns(g) as u16;
            let used = total_width(before.last());
            &&& before.len() > 0
            &&& w > max_width ==> after == before
            &&& w <= max_width && used + w <= max_width ==> after == before.drop_last().push(
                before.last().push(g),
            )
            &&& w <= max_width && used + w > max_width ==> after == before.push(seq![g])
        }),
{
    assert(gs.push(g).drop_last() =~= gs);
    lemma_wrap_fits(gs, max_width);
    let s = wrap_state(gs, max_width);
    let before = wrapped_clusters(gs, max_width);
    assert(before.drop_last() =~= s.lines);
    assert(before.last() == s.current);
}

/// No text is one empty line.
pub proof fn law_no_text_is_one_empty_line(max_width: u16)
    ensures
        wrapped_clusters(Seq::<Seq<char>>::empty(), max_width) == seq![Seq::<Seq<char>>::empty()],
        wrapped(Seq::empty(), 0) == seq![Seq::<char>::empty()],
{
    assert(wrapped_clusters(Seq::<Seq<char>>::empty(), max_width) =~= seq![
        Seq::<Seq<char>>::empty(),
    ]);
}

/// In the plain form only the first row of a message is bold.
pub proof fn law_only_first_plain_row_is_bold(
    index: usize,
    m: ChatMessageView,
    inner: usize,
    username: Seq<char>,
    i: int,
)
    requires
        inner <= u16::MAX,
        1 <= i < plain_rows(index, m, inner, username).len(),
    ensures
        !painted_rows(plain_rows(index, m, inner, username), true)[i].bold,
{
    law_plain_rows_show_the_message(index, m, inner, username);
    let rows = plain_rows(index, m, inner, username);
    let lines = wrapped(message_parts(m).2, plain_width(inner));
    assert(lines[i - 1].len() >= 0);
    let text = rows[i].text;
    reveal_strlit("┌-");
    if "┌-"@.is_prefix_of(text) {
        assert("┌-"@[0] == text.subrange(0, 2)[0]);
    }
}

/// Painting keeps every row, in its order, with its text and its colour.
pub proof fn law_painting_keeps_the_rows(rows: Seq<RowView>, plain: bool)
    ensures
        painted_rows(rows, plain).len() == rows.len(),
        forall|i: int|
            0 <= i < rows.len() ==> (#[trigger] painted_rows(rows, plain)[i]).text == rows[i].text
                && painted_rows(rows, plain)[i].color == rows[i].color,
{
}

} // verus!
