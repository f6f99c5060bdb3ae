//! Framing: packets, acknowledgements and the lines that carry group messages.
use crate::crypto::error::CryptoError;
use crate::crypto::messages::{
    announce_from_bytes, announce_read, announce_to_bytes, announce_tree, commit_from_bytes,
    commit_read, commit_to_bytes, commit_tree, message_from_bytes, message_read, message_to_bytes,
    message_tree, AnnounceView, CommitView, EncryptedMessage, EpochCommit, MemberKeyAnnounce,
    MessageView,
};
use crate::outside::encoding::{base64url_bytes, base64url_decode, base64url_encode, base64url_text};
use crate::outside::json::json_bytes;
use crate::util::codec::{
    decode_text, decoded_text, encode_text, encoded_text, join_strings, lemma_base64url_chars,
    lemma_words_spaced, spaced,
};
use crate::util::text::{
    after_prefix, char_pos, chars_of, find_char, is_word, joined, lemma_trimmed_same,
    lemma_value_after, lemma_views, same_text, split_words, starts_with, string_of,
    strip_prefix_ref, trim_ref, trim_start, trimmed, trimmed_after, trimmed_start, value_after,
    views, words,
};
use vstd::prelude::*;
use vstd::utf8::encode_utf8;

verus! {

/// A line as it is sent: its bytes and a newline.
pub fn line_bytes(line: &str) -> (bytes: Vec<u8>)
    ensures
        bytes@ == encode_utf8(line@).push(10),
{
    let mut bytes = vstd::slice::slice_to_vec(line.as_bytes());
    bytes.push(10);
    bytes
}

/// The text between the first opening bracket and the closing bracket after it, and what follows;
/// nothing when there is no such pair.
pub open spec fn bracketed(line: Seq<char>) -> Option<(Seq<char>, Seq<char>)> {
    let start = char_pos(line, '[');
    let rest = line.skip(start + 1);
    let end = char_pos(rest, ']');
    if start < line.len() && end < rest.len() {
        Some((rest.take(end), rest.skip(end + 1)))
    } else {
        None
    }
}

/// The bracketed head of a line, and what follows it.
pub fn split_bracketed(line: &str) -> (out: Option<(String, String)>)
    ensures
        match (out, bracketed(line@)) {
            (Some(o), Some(v)) => o.0@ == v.0 && o.1@ == v.1,
            (None, None) => true,
            _ => false,
        },
{
    let chars = chars_of(line);
    assert(line@.skip(0) =~= line@);
    let start = find_char(chars.as_slice(), '[', 0);
    if start >= chars.len() {
        return None;
    }
    let ghost rest = line@.skip(start + 1);
    let end = find_char(chars.as_slice(), ']', start + 1);
    if end >= chars.len() {
        return None;
    }
    let name = string_of(vstd::slice::slice_subrange(chars.as_slice(), start + 1, end));
    let after = string_of(vstd::slice::slice_subrange(chars.as_slice(), end + 1, chars.len()));
    proof {
        assert(name@ =~= rest.take(end - start - 1));
        assert(after@ =~= rest.skip(end - start));
    }
    Some((name, after))
}

/// The name and the body of a displayed line.
pub open spec fn display_parts(line: Seq<char>) -> (Seq<char>, Seq<char>) {
    match bracketed(line) {
        Some((name, rest)) => (name, trimmed_start(rest)),
        None => ("???"@, trimmed_start(line)),
    }
}

/// The name in brackets at the start of a line, and the body after it.
pub fn parse_display_body(line: &str) -> (out: (String, String))
    ensures
        (out.0@, out.1@) == display_parts(line@),
{
    match split_bracketed(line) {
        Some((name, rest)) => (name, trim_start(rest.as_str())),
        None => ("???".to_owned(), trim_start(line)),
    }
}

/// A packet: an identifier and a payload.
pub open spec fn packet_line(packet_id: Seq<char>, payload: Seq<char>) -> Seq<char> {
    spaced(seq![
        "/PKT"@,
        packet_id,
        encoded_text(payload),
    ])
}

/// The identifier and the payload of a packet.
pub open spec fn packet_parts(line: Seq<char>) -> Option<(Seq<char>, Seq<char>)> {
    let w = words(line);
    if w.len() < 3 || w[0] != "/PKT"@ {
        None
    } else {
        let packet_id = w[1];
        let payload = decoded_text(w[2]);
        if payload is Some {
            Some((packet_id, payload->0))
        } else {
            None
        }
    }
}

/// A packet: an identifier and a payload.
pub fn build_transport_packet_line(packet_id: &str, payload: &str) -> (line: String)
    ensures
        line@ == packet_line(packet_id@, payload@),
        is_word(packet_id@) && payload@.len() > 0
            ==> packet_parts(line@) == Some((packet_id@, payload@)),
{
    let mut parts: Vec<String> = Vec::new();
    parts.push("/PKT".to_owned());
    parts.push(packet_id.to_owned());
    parts.push(encode_text(payload));
    proof {
        let p = views(parts@);
        assert(p =~= seq![
            "/PKT"@,
            packet_id@,
            encoded_text(payload@),
        ]);
        reveal_strlit("/PKT");
        assert(is_word("/PKT"@));
        if is_word(packet_id@) && payload@.len() > 0 {
            lemma_base64url_chars(p[2]);
            assert forall|i: int| 0 <= i < p.len() implies is_word(#[trigger] p[i]) by {}
            lemma_words_spaced(p);
        }
    }
    join_strings(&parts, " ")
}

/// The identifier and the payload of a packet.
pub fn parse_transport_packet_line(line: &str) -> (out: Option<(String, String)>)
    ensures
        match (out, packet_parts(line@)) {
            (Some(o), Some(v)) => o.0@ == v.0 && o.1@ == v.1,
            (None, None) => true,
            _ => false,
        },
{
    let w = split_words(line);
    assert(views(w@).len() == w@.len());
    if w.len() < 3 {
        return None;
    }
    proof {
        lemma_views(w@);
    }
    if !same_text(w[0].as_str(), "/PKT") {
        return None;
    }
    let packet_id = w[1].clone();
    let payload = match decode_text(w[2].as_str()) {
        Some(x) => x,
        None => {
            return None;
        },
    };
    Some((packet_id, payload))
}

/// An acknowledgement of a packet.
pub fn build_ack_line(packet_id: &str) -> (line: String)
    ensures
        line@ == "/ACK "@ + packet_id@,
        is_word(packet_id@) ==> value_after(line@, "/ACK "@) == Some(packet_id@),
{
    let line = joined("/ACK ", packet_id);
    proof {
        if is_word(packet_id@) {
            lemma_value_after("/ACK "@, packet_id@);
        }
    }
    line
}

/// The packet that a line acknowledges.
pub fn parse_ack_line<'a>(line: &'a str) -> (id: Option<&'a str>)
    ensures
        match (id, value_after(line@, "/ACK "@)) {
            (Some(o), Some(v)) => o@ == v,
            (None, None) => true,
            _ => false,
        },
{
    trimmed_after(line, "/ACK ")
}

/// A tag, a blank, and bytes in base64.
pub open spec fn tagged_line(tag: Seq<char>, bytes: Seq<u8>) -> Seq<char> {
    tag + " "@ + base64url_text(bytes)
}

/// The bytes of a tagged line.
pub open spec fn tagged_bytes(prefix: Seq<char>, line: Seq<char>) -> Option<Seq<u8>> {
    match after_prefix(line, prefix) {
        Some(payload) => base64url_bytes(trimmed(payload)),
        None => None,
    }
}

/// Bytes behind a tag. They can be read back.
fn build_tagged_line(tag: &str, bytes: &[u8]) -> (line: String)
    ensures
        line@ == tagged_line(tag@, bytes@),
        tagged_bytes(tag@ + " "@, line@) == Some(bytes@),
{
    let encoded = base64url_encode(bytes);
    let mut line = joined(tag, " ");
    line.append(encoded.as_str());
    proof {
        let prefix = tag@ + " "@;
        assert(line@ =~= prefix + encoded@);
        assert(line@.skip(prefix.len() as int) =~= encoded@);
        assert(prefix =~= line@.subrange(0, prefix.len() as int));
        lemma_base64url_chars(encoded@);
        if encoded@.len() > 0 {
            lemma_trimmed_same(encoded@);
        }
    }
    line
}

/// The bytes behind a prefix.
fn parse_tagged_line(prefix: &str, line: &str) -> (bytes: Option<Vec<u8>>)
    ensures
        match (bytes, tagged_bytes(prefix@, line@)) {
            (Some(o), Some(v)) => o@ == v,
            (None, None) => true,
            _ => false,
        },
{
    match strip_prefix_ref(line, prefix) {
        Some(payload) => base64url_decode(trim_ref(payload)),
        None => None,
    }
}

/// What a line with a group message holds.
pub open spec fn rmsg_of_line(line: Seq<char>) -> Option<MessageView> {
    match tagged_bytes("/RMSG "@, line) {
        Some(bytes) => message_read(bytes),
        None => None,
    }
}

/// The line that carries a group message. It can be read back.
pub fn build_rmsg_line(message: &EncryptedMessage) -> (out: Result<String, CryptoError>)
    ensures
        out matches Ok(line) && line@ == tagged_line("/RMSG"@, json_bytes(message_tree(message@)))
            && rmsg_of_line(line@) == Some(message@),
{
    let bytes = message_to_bytes(message);
    let line = build_tagged_line("/RMSG", bytes.as_slice());
    proof {
        reveal_strlit("/RMSG");
        reveal_strlit(" ");
        reveal_strlit("/RMSG ");
        assert("/RMSG"@ + " "@ =~= "/RMSG "@);
    }
    Ok(line)
}

/// Reads a line with a group message.
pub fn parse_rmsg_line(line: &str) -> (out: Option<EncryptedMessage>)
    ensures
        match (out, rmsg_of_line(line@)) {
            (Some(o), Some(v)) => o@ == v,
            (None, None) => true,
            _ => false,
        },
{
    match parse_tagged_line("/RMSG ", line) {
        Some(bytes) => message_from_bytes(bytes.as_slice()),
        None => None,
    }
}

/// What a line with a key announcement holds.
pub open spec fn key_announce_of_line(line: Seq<char>) -> Option<AnnounceView> {
    match tagged_bytes("/KEY_ANNOUNCE "@, line) {
        Some(bytes) => announce_read(bytes),
        None => None,
    }
}

/// The line that carries a key announcement. It can be read back.
pub fn build_key_announce_line(announce: &MemberKeyAnnounce) -> (out: Result<String, CryptoError>)
    ensures
        out matches Ok(line)
            && line@ == tagged_line("/KEY_ANNOUNCE"@, json_bytes(announce_tree(announce@)))
            && key_announce_of_line(line@) == Some(announce@),
{
    let bytes = announce_to_bytes(announce);
    let line = build_tagged_line("/KEY_ANNOUNCE", bytes.as_slice());
    proof {
        reveal_strlit("/KEY_ANNOUNCE");
        reveal_strlit(" ");
        reveal_strlit("/KEY_ANNOUNCE ");
        assert("/KEY_ANNOUNCE"@ + " "@ =~= "/KEY_ANNOUNCE "@);
    }
    Ok(line)
}

/// Reads a line with a key announcement.
pub fn parse_key_announce_line(line: &str) -> (out: Option<MemberKeyAnnounce>)
    ensures
        match (out, key_announce_of_line(line@)) {
            (Some(o), Some(v)) => o@ == v,
            (None, None) => true,
            _ => false,
        },
{
    match parse_tagged_line("/KEY_ANNOUNCE ", line) {
        Some(bytes) => announce_from_bytes(bytes.as_slice()),
        None => None,
    }
}

/// What a line with an epoch commit holds.
pub open spec fn epoch_commit_of_line(line: Seq<char>) -> Option<CommitView> {
    match tagged_bytes("/EPOCH_COMMIT "@, line) {
        Some(bytes) => commit_read(bytes),
        None => None,
    }
}

/// The line that carries an epoch commit. It can be read back.
pub fn build_epoch_commit_line(commit: &EpochCommit) -> (out: Result<String, CryptoError>)
    ensures
        out matches Ok(line)
            && line@ == tagged_line("/EPOCH_COMMIT"@, json_bytes(commit_tree(commit@)))
            && epoch_commit_of_line(line@) == Some(commit@),
{
    let bytes = commit_to_bytes(commit);
    let line = build_tagged_line("/EPOCH_COMMIT", bytes.as_slice());
    proof {
        reveal_strlit("/EPOCH_COMMIT");
        reveal_strlit(" ");
        reveal_strlit("/EPOCH_COMMIT ");
        assert("/EPOCH_COMMIT"@ + " "@ =~= "/EPOCH_COMMIT "@);
    }
    Ok(line)
}

/// Reads a line with an epoch commit.
pub fn parse_epoch_commit_line(line: &str) -> (out: Option<EpochCommit>)
    ensures
        match (out, epoch_commit_of_line(line@)) {
            (Some(o), Some(v)) => o@ == v,
            (None, None) => true,
            _ => false,
        },
{
    match parse_tagged_line("/EPOCH_COMMIT ", line) {
        Some(bytes) => commit_from_bytes(bytes.as_slice()),
        None => None,
    }
}

/// Whether a line changes the group's keys or epoch.
pub fn is_epoch_control_line(line: &str) -> (yes: bool)
    ensures
        yes == ("/KEY_ANNOUNCE "@.is_prefix_of(line@) || "/EPOCH_COMMIT "@.is_prefix_of(line@)),
{
    starts_with(line, "/KEY_ANNOUNCE ") || starts_with(line, "/EPOCH_COMMIT ")
}

} // verus!
