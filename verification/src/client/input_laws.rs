//! What a user's answers and lines of input promise.
use crate::attachments::kind::{ascii_lower, ascii_lower_text, kind_of, AttachmentKind};
use crate::client::initialization::{
    host_choice, login_failure, or_else, server_choice_if, typed_port, HostView, ServerView,
};
use crate::client::input::{
    about_attachment, classified, named_path, unquoted, InputFault, PayloadView,
};
use crate::client::receiver::{text_line, ChatMessageView};
use crate::client::utils::{about_plain_attachment, message_parts};
use crate::config::preset_at;
use crate::protocol::line::{bracketed, display_parts};
use crate::ui::help::size_text;
use crate::ui::row_laws::lemma_occurs_between;
use crate::util::path::{extension_of, last_pos, name_or_default, DEFAULT_NAME};
use crate::util::text::{
    decimal, is_digit, is_white, lemma_char_pos_unique, lemma_decimal, lemma_trimmed_same, occurs,
    parsed_unsigned, trimmed, trimmed_start,
};
use vstd::prelude::*;

verus! {

/// A text with nothing white at its ends.
pub open spec fn is_trim(s: Seq<char>) -> bool {
    s.len() > 0 && !is_white(s[0]) && !is_white(s.last())
}

/// Quotation marks around a text go, and only a pair of them does.
pub proof fn law_quotation_marks_go(s: Seq<char>)
    ensures
        unquoted(seq!['"'] + s + seq!['"']) == s,
        s.len() > 0 && (s[0] != '"' || s.last() != '"') ==> unquoted(s) == s,
        s.len() < 2 ==> unquoted(s) == s,
{
    let q = seq!['"'] + s + seq!['"'];
    assert(q.subrange(1, q.len() - 1) =~= s);
}

/// The command to send names the path behind it, with quotation marks around it or without.
pub proof fn law_send_names_the_path(path: Seq<char>, is_file: bool)
    requires
        is_trim(path),
        path[0] != '"',
    ensures
        ({
            let plain = "/send "@ + path;
            let quoted = "/send "@ + (seq!['"'] + path + seq!['"']);
            &&& named_path(plain, false) == Some(path)
            &&& named_path(quoted, false) == Some(path)
            &&& is_file ==> classified(plain, false, is_file) == Ok::<PayloadView, InputFault>(
                PayloadView::AttachmentPath(path),
            )
            &&& is_file ==> classified(quoted, false, is_file) == Ok::<PayloadView, InputFault>(
                PayloadView::AttachmentPath(path),
            )
            &&& !is_file ==> classified(plain, false, is_file) == Err::<PayloadView, InputFault>(
                InputFault::NotFound(path),
            )
            &&& !is_file ==> classified(quoted, false, is_file) == Err::<PayloadView, InputFault>(
                InputFault::NotFound(path),
            )
        }),
{
    let q = seq!['"'] + path + seq!['"'];
    let plain = "/send "@ + path;
    let quoted = "/send "@ + q;
    let n = "/send "@.len() as int;
    assert("/send "@ =~= plain.subrange(0, n));
    assert("/send "@ =~= quoted.subrange(0, n));
    assert(plain.skip(n) =~= path);
    assert(quoted.skip(n) =~= q);
    lemma_trimmed_same(path);
    assert(!is_white('"'));
    lemma_trimmed_same(q);
    law_quotation_marks_go(path);
}

/// A line of input is sent as it was typed, or as a file that is there, or is refused. A text is
/// never changed, and only the command to send is refused.
pub proof fn law_input_is_text_or_file(msg: Seq<char>, is_protocol_line: bool, is_file: bool)
    ensures
        match classified(msg, is_protocol_line, is_file) {
            Ok(PayloadView::Text(text)) => {
                &&& text == msg
                &&& is_protocol_line || (!is_file && !"/send "@.is_prefix_of(msg))
            },
            Ok(PayloadView::AttachmentPath(path)) => {
                &&& is_file
                &&& !is_protocol_line
                &&& named_path(msg, is_protocol_line) == Some(path)
            },
            Err(InputFault::Usage) => {
                &&& !is_protocol_line
                &&& "/send "@.is_prefix_of(msg)
                &&& named_path(msg, is_protocol_line) is None
            },
            Err(InputFault::NotFound(path)) => {
                &&& !is_protocol_line
                &&& !is_file
                &&& "/send "@.is_prefix_of(msg)
                &&& named_path(msg, is_protocol_line) == Some(path)
            },
        },
        is_protocol_line ==> classified(msg, is_protocol_line, is_file) == Ok::<
            PayloadView,
            InputFault,
        >(PayloadView::Text(msg)),
        !is_protocol_line && !"/send "@.is_prefix_of(msg) ==> named_path(msg, is_protocol_line)
            == Some(trimmed(msg)),
{
}

/// A line about an attachment is known by its first word, in the encrypted form and in the clear.
pub proof fn law_attachment_lines_are_known(rest: Seq<char>)
    ensures
        about_attachment("/FILEMANIFEST2 "@ + rest),
        about_attachment("/FILECHUNK2 "@ + rest),
        about_plain_attachment("/FILEMETA "@ + rest),
        about_plain_attachment("/FILECHUNK "@ + rest),
        rest.len() > 0 && rest[0] != '/' ==> !about_attachment(rest) && !about_plain_attachment(
            rest,
        ),
{
    lemma_starts("/FILEMANIFEST2 "@, rest);
    lemma_starts("/FILECHUNK2 "@, rest);
    lemma_starts("/FILEMETA "@, rest);
    lemma_starts("/FILECHUNK "@, rest);
    reveal_strlit("/FILEMANIFEST2 ");
    reveal_strlit("/FILECHUNK2 ");
    reveal_strlit("/FILEMETA ");
    reveal_strlit("/FILECHUNK ");
    if rest.len() > 0 && rest[0] != '/' {
        lemma_no_start("/FILEMANIFEST2 "@, rest);
        lemma_no_start("/FILECHUNK2 "@, rest);
        lemma_no_start("/FILEMETA "@, rest);
        lemma_no_start("/FILECHUNK "@, rest);
    }
}

proof fn lemma_starts(prefix: Seq<char>, rest: Seq<char>)
    ensures
        prefix.is_prefix_of(prefix + rest),
{
    assert(prefix =~= (prefix + rest).subrange(0, prefix.len() as int));
}

proof fn lemma_no_start(prefix: Seq<char>, s: Seq<char>)
    requires
        prefix.len() > 0,
        s.len() > 0,
        prefix[0] != s[0],
    ensures
        !prefix.is_prefix_of(s),
{
    if prefix.is_prefix_of(s) {
        assert(prefix[0] == s.subrange(0, prefix.len() as int)[0]);
    }
}

/// What stands in brackets in front of a line is found, and what follows it.
pub proof fn law_brackets_are_found(name: Seq<char>, rest: Seq<char>)
    requires
        !name.contains(']'),
    ensures
        bracketed(seq!['['] + name + seq![']'] + rest) == Some((name, rest)),
        display_parts(seq!['['] + name + seq![']'] + rest) == (name, trimmed_start(rest)),
{
    let line = seq!['['] + name + seq![']'] + rest;
    lemma_char_pos_unique(line, '[', 0);
    let behind = line.skip(1);
    assert(behind =~= name + seq![']'] + rest);
    assert forall|i: int| 0 <= i < name.len() implies behind[i] != ']' by {
        assert(name.contains(name[i]));
    }
    lemma_char_pos_unique(behind, ']', name.len() as int);
    assert(behind.take(name.len() as int) =~= name);
    assert(behind.skip(name.len() as int + 1) =~= rest);
}

/// A bracket that is not closed is none.
pub proof fn law_open_bracket_is_none(line: Seq<char>)
    requires
        !line.contains(']'),
    ensures
        bracketed(line) is None,
        display_parts(line) == ("???"@, trimmed_start(line)),
{
    let start = crate::util::text::char_pos(line, '[');
    crate::util::text::lemma_char_pos(line, '[');
    if start < line.len() {
        let rest = line.skip(start + 1);
        assert forall|i: int| 0 <= i < rest.len() implies rest[i] != ']' by {
            assert(line.contains(line[start + 1 + i]));
        }
        lemma_char_pos_unique(rest, ']', rest.len() as int);
    }
}

/// A line without a name in brackets is nobody's.
pub proof fn law_nameless_line_is_nobodys(line: Seq<char>)
    requires
        !line.contains('['),
    ensures
        bracketed(line) is None,
        display_parts(line) == ("???"@, trimmed_start(line)),
        message_parts(ChatMessageView::Text(line)) == (
            "???"@,
            "??:??:??"@,
            trimmed_start(line),
        ),
{
    assert forall|i: int| 0 <= i < line.len() implies line[i] != '[' by {
        assert(line.contains(line[i]));
    }
    lemma_char_pos_unique(line, '[', line.len() as int);
}

/// A text message is shown as what it was made of: its sender, its time and its text.
pub proof fn law_text_message_is_read_back(sender: Seq<char>, body: Seq<char>, time: Seq<char>)
    requires
        !sender.contains(']'),
        !time.contains(']'),
        body.len() > 0 ==> !is_white(body[0]),
    ensures
        message_parts(ChatMessageView::Text(text_line(sender, body, time))) == (
            sender,
            time,
            body,
        ),
{
    let line = text_line(sender, body, time);
    reveal_strlit("[");
    reveal_strlit("] [");
    reveal_strlit("] ");
    let after_name = seq![' '] + (seq!['['] + time + seq![']'] + (seq![' '] + body));
    assert(line =~= seq!['['] + sender + seq![']'] + after_name);
    law_brackets_are_found(sender, after_name);
    let inner = seq!['['] + time + seq![']'] + (seq![' '] + body);
    lemma_char_pos_unique(after_name, '[', 1);
    let behind = after_name.skip(2);
    assert(behind =~= time + seq![']'] + (seq![' '] + body));
    assert forall|i: int| 0 <= i < time.len() implies behind[i] != ']' by {
        assert(time.contains(time[i]));
    }
    lemma_char_pos_unique(behind, ']', time.len() as int);
    assert(behind.take(time.len() as int) =~= time);
    assert(behind.skip(time.len() as int + 1) =~= seq![' '] + body);
    let t = seq![' '] + body;
    assert(is_white(' '));
    assert(t.drop_first() =~= body);
    reveal_with_fuel(trimmed_start, 3);
}

/// The message of an attachment names its sender, its time, its file and its size.
pub proof fn law_attachment_message_names_the_file(m: ChatMessageView)
    requires
        m is Attachment,
    ensures
        message_parts(m).0 == m->sender,
        message_parts(m).1 == m->ts,
        occurs(m->name, message_parts(m).2),
        occurs(size_text(m->size), message_parts(m).2),
{
    let label = crate::client::utils::kind_label(m->kind);
    let size = size_text(m->size);
    let body = message_parts(m).2;
    lemma_occurs_between("["@ + label + "] "@, m->name, " ("@ + size + ")"@);
    assert("["@ + label + "] "@ + m->name + (" ("@ + size + ")"@) =~= body);
    lemma_occurs_between("["@ + label + "] "@ + m->name + " ("@, size, ")"@);
    assert("["@ + label + "] "@ + m->name + " ("@ + size + ")"@ =~= body);
}

/// The last of some characters is where it was put.
proof fn lemma_last_pos(a: Seq<char>, c: char, b: Seq<char>)
    requires
        !b.contains(c),
    ensures
        last_pos(a + seq![c] + b, c) == a.len(),
    decreases b.len(),
{
    let s = a + seq![c] + b;
    if b.len() > 0 {
        assert(s.last() == b.last());
        assert(b.contains(b.last()));
        assert(s.drop_last() =~= a + seq![c] + b.drop_last());
        assert forall|k: int| 0 <= k < b.drop_last().len() implies b.drop_last()[k] != c by {
            assert(b.contains(b[k]));
        }
        lemma_last_pos(a, c, b.drop_last());
    }
}

proof fn lemma_no_last_pos(s: Seq<char>, c: char)
    requires
        !s.contains(c),
    ensures
        last_pos(s, c) == -1,
    decreases s.len(),
{
    if s.len() > 0 {
        assert(s.contains(s.last()));
        assert forall|k: int| 0 <= k < s.drop_last().len() implies s.drop_last()[k] != c by {
            assert(s.contains(s[k]));
        }
        lemma_no_last_pos(s.drop_last(), c);
    }
}

/// A file is an image exactly when what follows the last dot of its name is one of six words, in
/// any case of their letters. A name without a dot, or with none but in front, is no image.
pub proof fn law_images_are_known_by_their_names(base: Seq<char>, ext: Seq<char>)
    requires
        base.len() > 0,
        !ext.contains('.'),
    ensures
        extension_of(Some(base + seq!['.'] + ext)) == Some(ext),
        kind_of(Some(base + seq!['.'] + ext)) == AttachmentKind::Image <==> {
            let e = ascii_lower_text(ext);
            e == "png"@ || e == "jpg"@ || e == "jpeg"@ || e == "gif"@ || e == "bmp"@ || e
                == "webp"@
        },
        kind_of(Some(ext)) == AttachmentKind::File,
        kind_of(Some(seq!['.'] + ext)) == AttachmentKind::File,
        kind_of(None) == AttachmentKind::File,
{
    let none = Seq::<char>::empty();
    lemma_last_pos(base, '.', ext);
    let name = base + seq!['.'] + ext;
    assert(name.skip(base.len() as int + 1) =~= ext);
    lemma_no_last_pos(ext, '.');
    lemma_last_pos(none, '.', ext);
    assert(none + seq!['.'] + ext =~= seq!['.'] + ext);
}

/// Lower case: as many characters, none of them a capital letter, and nothing but capital letters
/// changed.
pub proof fn law_lower_case_has_no_capitals(s: Seq<char>)
    ensures
        ascii_lower_text(s).len() == s.len(),
        forall|i: int|
            0 <= i < s.len() ==> {
                let c = #[trigger] ascii_lower_text(s)[i];
                &&& !('A' <= c && c <= 'Z')
                &&& !('A' <= s[i] && s[i] <= 'Z') ==> c == s[i]
                &&& 'A' <= s[i] && s[i] <= 'Z' ==> c as u32 - 'a' as u32 == s[i] as u32 - 'A' as u32
            },
        ascii_lower_text(ascii_lower_text(s)) == ascii_lower_text(s),
{
    assert(ascii_lower_text(ascii_lower_text(s)) =~= ascii_lower_text(s));
}

/// A name is kept unless it is blank, and there is always one.
pub proof fn law_there_is_always_a_name(name: Option<Seq<char>>)
    ensures
        name is Some && trimmed(name->0).len() > 0 ==> name_or_default(name) == name->0,
        name is None || trimmed(name->0).len() == 0 ==> name_or_default(name) == DEFAULT_NAME@,
{
}

/// What was typed is taken, without the white space around it; a default stands in for nothing.
pub proof fn law_default_stands_in_for_nothing(input: Seq<char>, other: Seq<char>)
    ensures
        is_trim(input) ==> or_else(input, other) == input,
        or_else(Seq::empty(), other) == other,
        other.len() > 0 ==> or_else(input, other).len() > 0,
{
    if is_trim(input) {
        lemma_trimmed_same(input);
    }
    lemma_trimmed_same(Seq::<char>::empty());
}

/// A number that is typed is read as that number.
proof fn lemma_typed_number(n: nat)
    ensures
        is_trim(decimal(n)),
        trimmed(decimal(n)) == decimal(n),
        forall|max: nat| #[trigger] parsed_unsigned(decimal(n), max) == (if n <= max {
            Some(n)
        } else {
            None
        }),
{
    lemma_decimal(n);
    let s = decimal(n);
    assert(is_digit(s[0]) && is_digit(s.last()));
    lemma_trimmed_same(s);
}

/// A port is any number from one to the largest of sixteen bits; nothing typed is the default.
pub proof fn law_ports_are_read(n: nat)
    ensures
        1 <= n <= 65535 ==> typed_port(decimal(n)) == Some(n as u16),
        n == 0 || n > 65535 ==> typed_port(decimal(n)) is None,
        typed_port(Seq::empty()) == Some(6655u16),
{
    lemma_typed_number(n);
    lemma_trimmed_same(Seq::<char>::empty());
}

/// A word in lower case has the letters of the word, one by one.
proof fn lemma_lower(s: Seq<char>, word: Seq<char>)
    requires
        ascii_lower_text(s) == word,
    ensures
        s.len() == word.len(),
        forall|i: int| 0 <= i < s.len() ==> ascii_lower(#[trigger] s[i]) == word[i],
{
    assert forall|i: int| 0 <= i < s.len() implies ascii_lower(#[trigger] s[i]) == word[i] by {
        assert(ascii_lower_text(s)[i] == ascii_lower(s[i]));
    }
}

/// Nothing typed chooses the first address; a number chooses the address of that place in the list,
/// and none beyond it; a word asks to type one; and any other text is the address.
pub proof fn law_host_is_chosen(input: Seq<char>, candidates: Seq<Seq<char>>, n: nat)
    ensures
        candidates.len() > 0 ==> host_choice(Seq::empty(), candidates) == HostView::Host(
            candidates[0],
        ),
        1 <= n <= candidates.len() && n <= usize::MAX ==> host_choice(decimal(n), candidates)
            == HostView::Host(candidates[n - 1]),
        n > candidates.len() && 1 < n <= usize::MAX ==> host_choice(decimal(n), candidates)
            == HostView::Unknown,
        n == 0 && candidates.len() > 0 ==> host_choice(decimal(n), candidates) == HostView::Host(
            candidates[0],
        ),
        ascii_lower_text(input) == "manual"@ ==> host_choice(input, candidates)
            == HostView::Manual,
        is_trim(input) && ascii_lower_text(input) != "manual"@ && parsed_unsigned(
            input,
            usize::MAX as nat,
        ) is None ==> host_choice(input, candidates) == HostView::Host(input),
{
    lemma_trimmed_same(Seq::<char>::empty());
    lemma_typed_number(n);
    reveal_strlit("manual");
    if ascii_lower_text(decimal(n)) == "manual"@ {
        lemma_lower(decimal(n), "manual"@);
        lemma_decimal(n);
        assert(is_digit(decimal(n)[0]));
        assert(ascii_lower(decimal(n)[0]) == 'm');
    }
    if is_trim(input) {
        lemma_trimmed_same(input);
    }
    if ascii_lower_text(input) == "manual"@ {
        lemma_lower(input, "manual"@);
        assert(ascii_lower(input[0]) == 'm' && ascii_lower(input[5]) == 'l');
        lemma_trimmed_same(input);
    }
}

/// Nothing typed chooses the default server; the number of a known server chooses it; a word starts
/// a server; an address is that server, and an invitation is taken as one. Anything else is asked
/// for again.
pub proof fn law_server_is_chosen(input: Seq<char>, looks_like_address: bool, n: nat)
    ensures
        server_choice_if(Seq::empty(), looks_like_address) matches ServerView::Default(target)
            && (preset_at(0)->0).1.is_prefix_of(target),
        1 <= n <= 2 ==> server_choice_if(decimal(n), looks_like_address) == ServerView::Address(
            (preset_at(n - 1)->0).1,
        ),
        ascii_lower_text(input) == "host"@ ==> server_choice_if(input, looks_like_address)
            == ServerView::Host,
        is_trim(input) && ascii_lower_text(input) != "host"@ && parsed_unsigned(
            input,
            usize::MAX as nat,
        ) is None ==> {
            let choice = server_choice_if(input, looks_like_address);
            &&& looks_like_address ==> choice == ServerView::Address(input)
            &&& !looks_like_address && "/INVITE:"@.is_prefix_of(input) ==> choice
                == ServerView::Invitation(input)
            &&& !looks_like_address && !"/INVITE:"@.is_prefix_of(input) ==> choice
                == ServerView::Unknown
        },
        (n == 0 || n > 2) && !looks_like_address && n <= usize::MAX ==> server_choice_if(
            decimal(n),
            looks_like_address,
        ) == ServerView::Unknown,
        preset_at(0) is Some && preset_at(1) is Some && preset_at(0)->0 != preset_at(1)->0,
{
    lemma_trimmed_same(Seq::<char>::empty());
    let first = (preset_at(0)->0).1;
    let tail = "&"@ + crate::config::DEFAULT_SERVER_PASSWORD@;
    lemma_starts(first, tail);
    assert(first + tail =~= first + "&"@ + crate::config::DEFAULT_SERVER_PASSWORD@);
    lemma_typed_number(n);
    reveal_strlit("host");
    reveal_strlit("/INVITE:");
    lemma_decimal(n);
    assert(is_digit(decimal(n)[0]));
    lemma_no_start("/INVITE:"@, decimal(n));
    if ascii_lower_text(decimal(n)) == "host"@ {
        lemma_lower(decimal(n), "host"@);
        assert(ascii_lower(decimal(n)[0]) == 'h');
    }
    if is_trim(input) {
        lemma_trimmed_same(input);
    }
    if ascii_lower_text(input) == "host"@ {
        lemma_lower(input, "host"@);
        assert(ascii_lower(input[0]) == 'h' && ascii_lower(input[3]) == 't');
        lemma_trimmed_same(input);
    }
    reveal_strlit("Public server");
    reveal_strlit("Tailscale server");
    assert("Public server"@[0] == 'P' && "Tailscale server"@[0] == 'T');
}

/// What went wrong is told, unless it is one of two things that have words of their own.
pub proof fn law_failure_is_told(reason: Seq<char>)
    ensures
        !occurs("邀请码无效"@, reason) && !occurs("断开服务器"@, reason) ==> reason.is_suffix_of(
            login_failure(reason),
        ),
        occurs("邀请码无效"@, reason) ==> occurs("邀请码无效"@, login_failure(reason)),
        occurs("断开服务器"@, reason) && !occurs("邀请码无效"@, reason) ==> occurs(
            "断开服务器"@,
            login_failure(reason),
        ),
{
    let text = login_failure(reason);
    if occurs("邀请码无效"@, reason) {
        reveal_strlit("邀请码无效");
        reveal_strlit("❌ 邀请码无效或已过期，请重新选择服务器或输入新的邀请码。\n");
        assert("邀请码无效"@ =~= text.skip(2).subrange(0, 5));
        assert("邀请码无效"@.is_prefix_of(text.skip(2)));
    } else if occurs("断开服务器"@, reason) {
        reveal_strlit("断开服务器");
        reveal_strlit("断开服务器... \n");
        assert("断开服务器"@ =~= text.skip(0).subrange(0, 5));
        assert("断开服务器"@.is_prefix_of(text.skip(0)));
    } else {
        assert(reason =~= text.subrange(text.len() - reason.len(), text.len() as int));
    }
}

} // verus!
