//! What holds of a conversation as a whole.
use crate::client::drain::{line_taken, with_message, ChatView, EnvView};
use crate::client::network::{text_sent, OutgoingView};
use crate::client::receiver::{text_line, ChatMessageView};
use crate::crypto::error::CryptoError;
use crate::crypto::group::{decrypted, encrypted, GroupView};
use crate::crypto::laws::{in_step, law_member_in_step_reads_message};
use crate::crypto::messages::{message_tree, MessageView, SecureMessageType};
use crate::crypto::secure::opens_at;
use crate::outside::encoding::base64url_text;
use crate::outside::json::json_bytes;
use crate::protocol::attachment::frame_of;
use crate::protocol::line::{bracketed, display_parts, rmsg_of_line, tagged_line};
use crate::util::text::{
    is_white, is_word, lemma_split_cons, lemma_word_len, lemma_words_cons, words,
};
use vstd::prelude::*;
use vstd::utf8::encode_utf8;

verus! {

/// The first word of a line that does not begin with white space begins as the line does.
proof fn lemma_first_word(line: Seq<char>)
    requires
        line.len() > 0,
        !is_white(line[0]),
    ensures
        words(line).len() > 0,
        words(line)[0].len() > 0,
        words(line)[0][0] == line[0],
{
    lemma_word_len(line);
}

/// A line under a name in brackets is taken for neither a list of members, nor an event of this
/// machine, nor a line that only serves the connection; the name and the rest are found again.
proof fn lemma_named_line(nickname: Seq<char>, payload: Seq<char>)
    requires
        !nickname.contains(']'),
        payload.len() > 0,
        !is_white(payload[0]),
    ensures
        ({
            let line = "["@ + nickname + "] "@ + payload;
            &&& display_parts(line) == (nickname, payload)
            &&& !crate::client::receiver::is_unframed_control(line)
            &&& crate::protocol::member::listed_members(line) is None
            &&& crate::protocol::local_event::local_event_of(line) is None
            &&& !"⚡ "@.is_prefix_of(line)
        }),
{
    let line = "["@ + nickname + "] "@ + payload;
    reveal_strlit("[");
    reveal_strlit("] ");
    reveal_strlit("/member_list ");
    reveal_strlit("/LOCALNOTICE ");
    reveal_strlit("/LOCALECHO ");
    reveal_strlit("/LOCALTX");
    reveal_strlit("⚡ ");
    assert(line[0] == '[');
    assert("["@ =~= line.subrange(0, 1));
    let rest = line.skip(1);
    assert(rest =~= nickname + seq![']'] + (seq![' '] + payload));
    lemma_split_cons(nickname, ']', seq![' '] + payload);
    assert(rest.take(nickname.len() as int) =~= nickname);
    assert(rest.skip(nickname.len() as int + 1) =~= seq![' '] + payload);
    assert(bracketed(line) == Some((nickname, seq![' '] + payload)));
    let t = seq![' '] + payload;
    assert(t.drop_first() =~= payload);
    assert(is_white(' '));
    assert(crate::util::text::trimmed_start(payload) == payload);
    assert(crate::util::text::trimmed_start(t) == payload);
    lemma_other_start(line, "/member_list "@);
    lemma_other_start(line, "/LOCALNOTICE "@);
    lemma_other_start(line, "/LOCALECHO "@);
    lemma_other_start(line, "⚡ "@);
    assert(!is_white('['));
    lemma_first_word(line);
    assert("/LOCALTX"@[0] == '/');
    assert(words(line)[0] != "/LOCALTX"@);
}

proof fn lemma_other_start(line: Seq<char>, prefix: Seq<char>)
    requires
        line.len() > 0,
        prefix.len() > 0,
        prefix[0] != line[0],
    ensures
        !prefix.is_prefix_of(line),
{
    if prefix.is_prefix_of(line) {
        assert(prefix[0] == line.subrange(0, prefix.len() as int)[0]);
    }
}

/// A line that carries a group message is taken for nothing else.
proof fn lemma_message_line(bytes: Seq<u8>)
    ensures
        ({
            let payload = tagged_line("/RMSG"@, bytes);
            &&& payload.len() > 0
            &&& !is_white(payload[0])
            &&& crate::protocol::line::key_announce_of_line(payload) is None
            &&& crate::protocol::line::epoch_commit_of_line(payload) is None
            &&& frame_of(payload) is None
        }),
{
    let payload = tagged_line("/RMSG"@, bytes);
    reveal_strlit("/RMSG");
    reveal_strlit(" ");
    reveal_strlit("/KEY_ANNOUNCE ");
    reveal_strlit("/EPOCH_COMMIT ");
    reveal_strlit("/FILEMANIFEST2");
    reveal_strlit("/FILECHUNK2");
    assert(payload[0] == '/');
    assert(payload[1] == 'R');
    if "/KEY_ANNOUNCE "@.is_prefix_of(payload) {
        assert("/KEY_ANNOUNCE "@[1] == payload.subrange(0, "/KEY_ANNOUNCE "@.len() as int)[1]);
    }
    if "/EPOCH_COMMIT "@.is_prefix_of(payload) {
        assert("/EPOCH_COMMIT "@[1] == payload.subrange(0, "/EPOCH_COMMIT "@.len() as int)[1]);
    }
    let rest = " "@ + base64url_text(bytes);
    assert(payload =~= "/RMSG"@ + rest);
    assert(is_word("/RMSG"@));
    lemma_words_cons("/RMSG"@, rest);
    assert(words(payload)[0] == "/RMSG"@);
    assert("/RMSG"@.len() == 5);
    assert("/FILEMANIFEST2"@.len() == 14);
    assert("/FILECHUNK2"@.len() == 11);
}

/// What one member says, another that is in step with it shows, under the name by which it knows
/// the first; and the two stay in step.
pub proof fn law_what_is_said_is_shown(
    sender: GroupView,
    c: ChatView,
    text: Seq<char>,
    id: Seq<char>,
    sent: i64,
    m: MessageView,
    nickname: Seq<char>,
    e: EnvView,
)
    requires
        in_step(sender, c.group),
        sender.sender->0.msg_no < u64::MAX,
        encrypted(sender, SecureMessageType::Text, encode_utf8(text), sent).0 == Ok::<
            MessageView,
            CryptoError,
        >(m),
        opens_at(m, sender.sender->0.chain_key, encode_utf8(text)),
        rmsg_of_line(tagged_line("/RMSG"@, json_bytes(message_tree(m)))) == Some(m),
        !"/KEY_ANNOUNCE "@.is_prefix_of(text),
        !"/EPOCH_COMMIT "@.is_prefix_of(text),
        frame_of(text) is None,
        !nickname.contains(']'),
    ensures
        ({
            let (after, out) = text_sent(sender, text, id, sent);
            let payload = tagged_line("/RMSG"@, json_bytes(message_tree(m)));
            let (next, outcome) = line_taken(c, "["@ + nickname + "] "@ + payload, e);
            let name = c.group.members[sender.me].nickname;
            &&& out matches OutgoingView::Send { payload: p, .. } && p == payload
            &&& next == with_message(
                ChatView { group: next.group, ..c },
                Some(ChatMessageView::Text(text_line(name, text, e.hms))),
            )
            &&& outcome.notify == (name != c.my_name)
            &&& in_step(after, next.group)
        }),
{
    let payload = tagged_line("/RMSG"@, json_bytes(message_tree(m)));
    lemma_message_line(json_bytes(message_tree(m)));
    lemma_named_line(nickname, payload);
    law_member_in_step_reads_message(
        sender,
        c.group,
        SecureMessageType::Text,
        encode_utf8(text),
        sent,
        e.now,
        m,
    );
    vstd::utf8::encode_utf8_valid_utf8(text);
    vstd::utf8::encode_utf8_decode_utf8(text);
    assert(m.header.sender_id == sender.me);
    assert(decrypted(c.group, m, e.now).1.members == c.group.members);
}

} // verus!
