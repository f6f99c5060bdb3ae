//! What the lines of the protocol have in common.
use crate::client::utils::{plain_chunk_parts, plain_meta_parts};
use crate::protocol::attachment::{
    chunk2_parts, frame_of, manifest2_parts, AttachmentKind, FrameView,
};
use crate::protocol::invite::{
    invite_error_parts, invite_hello_parts, invite_ok_parts, invite_request_parts,
    invite_token_parts, session_ok_parts,
};
use crate::protocol::line::packet_parts;
use crate::protocol::local_event::{
    echo_attachment_parts, echo_text_parts, local_attach_parts, local_event_of, local_invite_parts,
    optional_field, read_optional, transfer_begin_parts, transfer_done_parts, transfer_failed_parts,
    transfer_progress_parts, LocalEventView,
};
use crate::protocol::member::{display_text, entry_member, listed_members, IdentityView};
use crate::util::text::{after_prefix, trimmed, words};
use vstd::prelude::*;
use vstd::utf8::encode_utf8;

verus! {

/// Whether a line has all the words of another, and perhaps more behind them.
pub open spec fn goes_on(line: Seq<char>, longer: Seq<char>) -> bool {
    &&& words(line).len() <= words(longer).len()
    &&& forall|i: int| 0 <= i < words(line).len() ==> #[trigger] words(longer)[i] == words(line)[i]
}

/// Every line is known by its first words: what is read as one kind of line begins with the words of
/// that kind.
pub proof fn law_first_words_decide(line: Seq<char>)
    ensures
        packet_parts(line) is Some ==> words(line).len() >= 3 && words(line)[0] == "/PKT"@,
        manifest2_parts(line) is Some
            ==> words(line).len() >= 12 && words(line)[0] == "/FILEMANIFEST2"@,
        chunk2_parts(line) is Some ==> words(line).len() >= 8 && words(line)[0] == "/FILECHUNK2"@,
        invite_request_parts(line) is Some
            ==> words(line).len() >= 5 && words(line)[0] == "/INVITE_REQUEST"@,
        invite_token_parts(line) is Some
            ==> words(line).len() >= 4 && words(line)[0] == "/INVITE_TOKEN"@,
        invite_error_parts(line) is Some
            ==> words(line).len() >= 3 && words(line)[0] == "/INVITE_ERROR"@,
        invite_hello_parts(line) is Some
            ==> words(line).len() >= 3 && words(line)[0] == "/INVITE_HELLO"@,
        invite_ok_parts(line) is Some ==> words(line).len() >= 3 && words(line)[0] == "INVITE_OK"@,
        transfer_begin_parts(line) is Some
            ==> words(line).len() >= 6 && words(line)[0] == "/LOCALTX"@
            && words(line)[1] == "BEGIN"@,
        transfer_progress_parts(line) is Some
            ==> words(line).len() >= 5 && words(line)[0] == "/LOCALTX"@
            && words(line)[1] == "PROGRESS"@,
        transfer_done_parts(line) is Some
            ==> words(line).len() >= 3 && words(line)[0] == "/LOCALTX"@
            && words(line)[1] == "DONE"@,
        transfer_failed_parts(line) is Some
            ==> words(line).len() >= 4 && words(line)[0] == "/LOCALTX"@
            && words(line)[1] == "FAIL"@,
        echo_text_parts(line) is Some ==> words(line).len() >= 2 && words(line)[0] == "TEXT"@,
        echo_attachment_parts(line) is Some
            ==> words(line).len() >= 5 && words(line)[0] == "ATTACHMENT"@,
        local_invite_parts(line) is Some
            ==> words(line).len() >= 7 && words(line)[0] == "/LOCALINVITE"@
            && words(line)[1] == "REQUEST"@,
        local_attach_parts(line) is Some
            ==> words(line).len() >= 5 && words(line)[0] == "/LOCALATTACH"@
            && words(line)[1] == "SEND"@,
        plain_meta_parts(line) is Some ==> words(line).len() >= 7 && words(line)[0] == "/FILEMETA"@,
        plain_chunk_parts(line) is Some
            ==> words(line).len() >= 4 && words(line)[0] == "/FILECHUNK"@,
{
}

/// What stands behind the fields of a line is ignored.
pub proof fn law_further_words_are_ignored(line: Seq<char>, longer: Seq<char>)
    requires
        goes_on(line, longer),
    ensures
        words(line).len() >= 3 ==> packet_parts(longer) == packet_parts(line),
        words(line).len() >= 12 ==> manifest2_parts(longer) == manifest2_parts(line),
        words(line).len() >= 8 ==> chunk2_parts(longer) == chunk2_parts(line),
        words(line).len() >= 5 ==> invite_request_parts(longer) == invite_request_parts(line),
        words(line).len() >= 4 ==> invite_token_parts(longer) == invite_token_parts(line),
        words(line).len() >= 3 ==> invite_error_parts(longer) == invite_error_parts(line),
        words(line).len() >= 3 ==> invite_hello_parts(longer) == invite_hello_parts(line),
        words(line).len() >= 3 ==> invite_ok_parts(longer) == invite_ok_parts(line),
        words(line).len() >= 6 ==> transfer_begin_parts(longer) == transfer_begin_parts(line),
        words(line).len() >= 5 ==> transfer_progress_parts(longer) == transfer_progress_parts(line),
        words(line).len() >= 3 ==> transfer_done_parts(longer) == transfer_done_parts(line),
        words(line).len() >= 4 ==> transfer_failed_parts(longer) == transfer_failed_parts(line),
        words(line).len() >= 2 ==> echo_text_parts(longer) == echo_text_parts(line),
        words(line).len() >= 5 ==> echo_attachment_parts(longer) == echo_attachment_parts(line),
        words(line).len() >= 7 ==> local_invite_parts(longer) == local_invite_parts(line),
        words(line).len() >= 5 ==> local_attach_parts(longer) == local_attach_parts(line),
        words(line).len() >= 7 ==> plain_meta_parts(longer) == plain_meta_parts(line),
        words(line).len() >= 4 ==> plain_chunk_parts(longer) == plain_chunk_parts(line),
{
    assert(words(line).len() > 0 ==> words(longer)[0] == words(line)[0]);
    assert(words(line).len() > 1 ==> words(longer)[1] == words(line)[1]);
    assert(words(line).len() > 2 ==> words(longer)[2] == words(line)[2]);
    assert(words(line).len() > 3 ==> words(longer)[3] == words(line)[3]);
    assert(words(line).len() > 4 ==> words(longer)[4] == words(line)[4]);
}

/// The grant of a room names the member; what follows is the owner's capability, or the line is none.
pub proof fn law_grant_names_the_member(line: Seq<char>)
    ensures
        session_ok_parts(line) is Some ==> words(line).len() >= 3 && words(line)[0] == "OK"@
            && words(line)[1] == "MEMBER"@,
        session_ok_parts(line) matches Some((_, Some(capability))) ==> words(line).len() >= 5
            && words(line)[3] == "OWNER"@ && words(line)[4] == capability,
        session_ok_parts(line) is Some && words(line).len() == 3 ==> (session_ok_parts(line)->0).1
            is None,
        words(line).len() > 3 && words(line)[3] != "OWNER"@ ==> session_ok_parts(line) is None,
{
}

/// The two kinds of attachments have names of their own, which are read back, and no other word is
/// one.
pub proof fn law_kinds_are_read_back(kind: AttachmentKind, word: Seq<char>)
    ensures
        AttachmentKind::of_tag(kind.tag()) == Some(kind),
        AttachmentKind::of_tag(word) is Some ==> word == (AttachmentKind::of_tag(word)->0).tag(),
{
    reveal_strlit("file");
    reveal_strlit("image");
    assert("file"@.len() != "image"@.len());
}

/// A line about an attachment is an announcement or a piece, and not both.
pub proof fn law_frames_are_told_apart(line: Seq<char>)
    ensures
        frame_of(line) matches Some(FrameView::Meta(_)) <==> manifest2_parts(line) is Some,
        frame_of(line) matches Some(FrameView::EncryptedChunk(_)) <==> chunk2_parts(line) is Some,
{
    reveal_strlit("/FILEMANIFEST2");
    reveal_strlit("/FILECHUNK2");
    assert("/FILEMANIFEST2"@.len() != "/FILECHUNK2"@.len());
}

/// A field that may be empty is told from every other.
pub proof fn law_empty_field_is_read(value: Seq<char>)
    ensures
        read_optional(optional_field(Seq::empty())) == Some(Seq::<char>::empty()),
        value.len() > 0 ==> optional_field(value) == crate::util::codec::encoded_text(value),
{
}

/// A line for the display is a notice, an echo or news of a transfer, by how it begins; its kinds do
/// not mix.
pub proof fn law_display_lines_are_told_apart(line: Seq<char>)
    ensures
        "/LOCALNOTICE "@.is_prefix_of(line) && local_event_of(line) is Some ==> local_event_of(
            line,
        )->0 is Notice,
        "/LOCALECHO "@.is_prefix_of(line) && !"/LOCALNOTICE "@.is_prefix_of(line) && local_event_of(
            line,
        ) is Some ==> local_event_of(line)->0 is EchoText || local_event_of(line)->0
            is EchoAttachment,
        !"/LOCALNOTICE "@.is_prefix_of(line) && !"/LOCALECHO "@.is_prefix_of(line) ==> {
            &&& transfer_begin_parts(line) matches Some(v) ==> local_event_of(line) == Some(
                LocalEventView::TransferBegin {
                    transfer_id: v.0,
                    file_name: v.1,
                    total_chunks: v.2,
                    total_size: v.3,
                },
            )
            &&& transfer_progress_parts(line) matches Some(v) ==> local_event_of(line) == Some(
                LocalEventView::TransferProgress {
                    transfer_id: v.0,
                    acked_chunks: v.1,
                    total_chunks: v.2,
                },
            )
            &&& transfer_done_parts(line) matches Some(id) ==> local_event_of(line) == Some(
                LocalEventView::TransferDone { transfer_id: id },
            )
            &&& transfer_failed_parts(line) matches Some(v) ==> local_event_of(line) == Some(
                LocalEventView::TransferFailed { transfer_id: v.0, reason: v.1 },
            )
        },
{
    reveal_strlit("BEGIN");
    reveal_strlit("PROGRESS");
    reveal_strlit("DONE");
    reveal_strlit("FAIL");
    assert("BEGIN"@[0] == 'B' && "PROGRESS"@[0] == 'P' && "DONE"@[0] == 'D' && "FAIL"@[0] == 'F');
}

/// A list of members is read only when every entry of it is; an empty list has no members.
pub proof fn law_member_list_is_read_whole(line: Seq<char>, payload: Seq<char>)
    requires
        after_prefix(line, "/member_list "@) == Some(payload),
    ensures
        ({
            let entries = crate::util::text::split_on(payload, ',');
            &&& trimmed(payload).len() == 0 ==> listed_members(line) == Some(
                Seq::<IdentityView>::empty(),
            )
            &&& trimmed(payload).len() > 0 ==> (listed_members(line) is Some <==> forall|i: int|
                0 <= i < entries.len() ==> entry_member(#[trigger] entries[i]) is Some)
            &&& trimmed(payload).len() > 0 && listed_members(line) is Some ==> {
                let members = listed_members(line)->0;
                &&& members.len() == entries.len()
                &&& forall|i: int|
                    0 <= i < entries.len() ==> Some(#[trigger] members[i]) == entry_member(
                        entries[i],
                    )
            }
        }),
{
}

/// A member is shown by the nickname, a mark and the beginning of the identifier.
pub proof fn law_shown_name_begins_with_the_nickname(nickname: Seq<char>, id: Seq<char>)
    ensures
        nickname.is_prefix_of(display_text(nickname, id)),
        display_text(nickname, id).len() > nickname.len(),
        display_text(nickname, id)[nickname.len() as int] == '#',
{
    let text = display_text(nickname, id);
    reveal_strlit("#");
    assert(nickname =~= text.subrange(0, nickname.len() as int));
}

/// An identifier of plain letters is shown by its first six, or all of them where there are fewer.
pub proof fn law_identifier_is_shown_by_six_letters(nickname: Seq<char>, id: Seq<char>)
    requires
        vstd::utf8::is_ascii_chars(id),
    ensures
        display_text(nickname, id) == nickname + "#"@ + id.take(
            if id.len() < 6 {
                id.len() as int
            } else {
                6
            },
        ),
{
    let k = if id.len() < 6 {
        id.len() as int
    } else {
        6
    };
    let part = id.take(k);
    vstd::utf8::is_ascii_chars_encode_utf8(id);
    assert(vstd::utf8::is_ascii_chars(part)) by {
        assert forall|i: int| 0 <= i < part.len() implies part[i] == id[i] by {}
    }
    vstd::utf8::is_ascii_chars_encode_utf8(part);
    assert(encode_utf8(part) =~= encode_utf8(id).take(k));
    vstd::utf8::encode_utf8_decode_utf8(part);
}

} // verus!
