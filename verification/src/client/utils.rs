//! Attachments in the clear, and the forms in which messages are shown.
pub use crate::attachments::kind::infer_attachment_kind;
pub use crate::attachments::sender::{
    packet_id_for_attachment_chunk,
    packet_id_for_attachment_meta,
    ATTACHMENT_CHUNK_SIZE,
    ATTACHMENT_WINDOW_SIZE,
};
pub use crate::client::input::OutgoingPayload;
pub use crate::crypto::invite::{
    create_invitation,
    create_invite_blob,
    open_invite_blob,
    parse_invitation,
};
pub use crate::protocol::invite::{
    build_auth_challenge_line,
    build_auth_hello_line,
    build_auth_proof_line,
    build_invite_challenge_line,
    build_invite_error_line,
    build_invite_hello_line,
    build_invite_ok_line,
    build_invite_proof_line,
    build_invite_ready_line,
    build_invite_token_line,
    build_server_invite_request_line,
    parse_auth_challenge_line,
    parse_auth_hello_line,
    parse_auth_proof_line,
    parse_invite_challenge_line,
    parse_invite_error_line,
    parse_invite_hello_line,
    parse_invite_ok_line,
    parse_invite_proof_line,
    parse_invite_ready_line,
    parse_invite_token_line,
    parse_server_invite_request_line,
    ServerInviteRequest,
    INVITE_TTL_SECS,
};
pub use crate::protocol::line::{
    build_ack_line,
    build_transport_packet_line,
    parse_ack_line,
    parse_transport_packet_line,
};
pub use crate::protocol::local_event::{
    build_local_echo_attachment_line,
    build_local_echo_text_line,
    build_local_invite_request_line,
    build_local_notice_line,
    build_local_transfer_begin_line,
    build_local_transfer_done_line,
    build_local_transfer_failed_line,
    build_local_transfer_progress_line,
    parse_local_invite_request_line,
    parse_local_ui_event,
    LocalInviteRequest,
    LocalUiEvent,
};
pub use crate::transport::packet::{PACKET_ACK_TIMEOUT_MS, PACKET_RETRY_LIMIT};
pub use crate::ui::clipboard::{
    encode_rgba_as_png,
    normalize_clipboard_rgba,
    parse_clipboard_file_paths,
};
pub use crate::ui::help::{format_file_size, HELP_TEXT, HELP_TEXT_EN};
pub use crate::util::path::{file_name_or_default, sanitize_attachment_name};
use crate::attachments::sender::{
    chunk_count, chunk_count_of, hash_bytes, law_pieces_are_full, piece,
};
use crate::client::input::{
    candidate_path_unless, classified, classify_unless, named_path, InputError,
};
use crate::client::receiver::{ChatMessage, ChatMessageView};
use crate::crypto::room::{room_line_text, RoomCryptoState};
use crate::outside::digest::sha256;
use crate::outside::encoding::{base64_bytes, base64_decode, base64_encode, base64_text, hex_text};
use crate::outside::random::{fresh_id, lower_hex};
use crate::protocol::attachment::AttachmentKind;
use crate::protocol::line::{
    bracketed, display_parts, line_bytes, parse_display_body, split_bracketed,
};
use crate::ui::help::{size_text, transfer_text, TransferDirection, TransferStage};
use crate::util::codec::{
    decode_text, decoded_text, encode_text, encoded_text, join_strings, lemma_base64_chars,
    lemma_base64url_chars, lemma_words_spaced, spaced,
};
use crate::util::text::{
    decimal, decimal_text, is_white, is_word, joined, lemma_decimal, lemma_parse_decimal,
    lemma_views, opt_str, parse_u64, parse_usize, read_u64, read_usize, same_text, split_words,
    starts_with, trim_start, trimmed_start, views, words,
};
use vstd::prelude::*;
use vstd::utf8::encode_utf8;

verus! {

/// A line as it is sent: its bytes and a newline.
pub fn handshake_writeall_macro(line: String) -> (bytes: Vec<u8>)
    ensures
        bytes@ == encode_utf8(line@).push(10),
{
    line_bytes(line.as_str())
}

/// The name and the text of a line of the room: a body that is not encrypted stays.
pub open spec fn text_of_line(line: Seq<char>, room_key: Seq<u8>) -> (Seq<char>, Seq<char>) {
    let (name, body) = display_parts(line);
    (
        name,
        match room_line_text(room_key, body) {
            Some(plain) => plain,
            None => body,
        },
    )
}

pub fn parse_text_img(line: &str, room_crypto: &RoomCryptoState) -> (out: (String, String))
    ensures
        (out.0@, out.1@) == text_of_line(line@, room_crypto@.room_key),
{
    let (name, body) = parse_display_body(line);
    match room_crypto.open(body.as_str()) {
        Some(plain) => (name, plain),
        None => (name, body),
    }
}

/// The text in the first brackets of a line and what follows, or a stand-in and the whole line.
pub open spec fn head_or(line: Seq<char>, stand_in: Seq<char>) -> (Seq<char>, Seq<char>) {
    match bracketed(line) {
        Some(parts) => parts,
        None => (stand_in, line),
    }
}

/// The name of what is shown of an attachment.
pub open spec fn kind_label(kind: AttachmentKind) -> Seq<char> {
    match kind {
        AttachmentKind::Image => "图片"@,
        AttachmentKind::File => "文件"@,
    }
}

/// Who sent a message, when, and what it says.
pub open spec fn message_parts(m: ChatMessageView) -> (Seq<char>, Seq<char>, Seq<char>) {
    match m {
        ChatMessageView::Text(line) => {
            let (name, after_name) = head_or(line, "???"@);
            let (time, after_time) = head_or(after_name, "??:??:??"@);
            (name, time, trimmed_start(after_time))
        },
        ChatMessageView::Attachment { sender, ts, name, size, kind, .. } => (
            sender,
            ts,
            "["@ + kind_label(kind) + "] "@ + name + " ("@ + size_text(size) + ")"@,
        ),
    }
}

fn split_head(line: &str, stand_in: &str) -> (out: (String, String))
    ensures
        (out.0@, out.1@) == head_or(line@, stand_in@),
{
    match split_bracketed(line) {
        Some(parts) => parts,
        None => (stand_in.to_owned(), line.to_owned()),
    }
}

pub fn parse_name_body(msg: &ChatMessage) -> (out: (String, String, String))
    ensures
        (out.0@, out.1@, out.2@) == message_parts(msg@),
{
    match msg {
        ChatMessage::Text(line) => {
            let (name, after_name) = split_head(line.as_str(), "???");
            let (time, after_time) = split_head(after_name.as_str(), "??:??:??");
            (name, time, trim_start(after_time.as_str()))
        },
        ChatMessage::Attachment { sender, ts, name, size, kind, .. } => {
            let label = match kind {
                AttachmentKind::Image => "图片",
                AttachmentKind::File => "文件",
            };
            let shown = format_file_size(*size);
            let mut body = joined("[", label);
            body.append("] ");
            body.append(name.as_str());
            body.append(" (");
            body.append(shown.as_str());
            body.append(")");
            (sender.clone(), ts.clone(), body)
        },
    }
}

/// The announcement of an attachment that is sent in the clear.
#[derive(Debug)]
pub struct AttachmentMeta {
    pub transfer_id: String,
    pub kind: AttachmentKind,
    pub file_name: String,
    pub total_size: u64,
    pub total_chunks: usize,
    pub sha256_hex: String,
}

/// The announcement of an attachment that is sent in the clear.
#[verifier::ext_equal]
pub ghost struct PlainMetaView {
    pub transfer_id: Seq<char>,
    pub kind: AttachmentKind,
    pub file_name: Seq<char>,
    pub total_size: u64,
    pub total_chunks: usize,
    pub sha256_hex: Seq<char>,
}

impl View for AttachmentMeta {
    type V = PlainMetaView;

    open spec fn view(&self) -> PlainMetaView {
        PlainMetaView {
            transfer_id: self.transfer_id@,
            kind: self.kind,
            file_name: self.file_name@,
            total_size: self.total_size,
            total_chunks: self.total_chunks,
            sha256_hex: self.sha256_hex@,
        }
    }
}

/// A piece of an attachment that is sent in the clear.
#[derive(Debug)]
pub struct AttachmentChunk {
    pub transfer_id: String,
    pub index: usize,
    pub data: Vec<u8>,
}

/// A piece of an attachment that is sent in the clear.
#[verifier::ext_equal]
pub ghost struct PlainChunkView {
    pub transfer_id: Seq<char>,
    pub index: usize,
    pub data: Seq<u8>,
}

impl View for AttachmentChunk {
    type V = PlainChunkView;

    open spec fn view(&self) -> PlainChunkView {
        PlainChunkView {
            transfer_id: self.transfer_id@,
            index: self.index,
            data: self.data@,
        }
    }
}

/// A line about an attachment that is sent in the clear.
#[derive(Debug)]
pub enum AttachmentFrame {
    Meta(AttachmentMeta),
    Chunk(AttachmentChunk),
}

/// A line about an attachment that is sent in the clear.
pub ghost enum PlainFrameView {
    Meta(PlainMetaView),
    Chunk(PlainChunkView),
}

impl View for AttachmentFrame {
    type V = PlainFrameView;

    open spec fn view(&self) -> PlainFrameView {
        match self {
            AttachmentFrame::Meta(m) => PlainFrameView::Meta(m@),
            AttachmentFrame::Chunk(c) => PlainFrameView::Chunk(c@),
        }
    }
}

/// The announcement of an attachment that is sent in the clear.
pub open spec fn plain_meta_line(
    transfer_id: Seq<char>,
    kind: AttachmentKind,
    file_name: Seq<char>,
    total_size: u64,
    total_chunks: usize,
    sha256_hex: Seq<char>,
) -> Seq<char> {
    spaced(seq![
        "/FILEMETA"@,
        transfer_id,
        kind.tag(),
        encoded_text(file_name),
        decimal(total_size as nat),
        decimal(total_chunks as nat),
        sha256_hex,
    ])
}

/// The fields of an announcement.
pub open spec fn plain_meta_parts(
    line: Seq<char>,
) -> Option<(Seq<char>, AttachmentKind, Seq<char>, u64, usize, Seq<char>)> {
    let w = words(line);
    if w.len() < 7 || w[0] != "/FILEMETA"@ {
        None
    } else {
        let transfer_id = w[1];
        let kind = AttachmentKind::of_tag(w[2]);
        let file_name = decoded_text(w[3]);
        let total_size = read_u64(w[4]);
        let total_chunks = read_usize(w[5]);
        let sha256_hex = w[6];
        if kind is Some && file_name is Some && total_size is Some && total_chunks is Some {
            Some((transfer_id, kind->0, file_name->0, total_size->0, total_chunks->0, sha256_hex))
        } else {
            None
        }
    }
}

/// The announcement of an attachment that is sent in the clear.
pub fn build_attachment_meta_line(
    transfer_id: &str,
    kind: AttachmentKind,
    file_name: &str,
    total_size: u64,
    total_chunks: usize,
    sha256_hex: &str,
) -> (line: String)
    ensures
        line@ == plain_meta_line(
            transfer_id@,
            kind,
            file_name@,
            total_size,
            total_chunks,
            sha256_hex@,
        ),
        is_word(transfer_id@) && file_name@.len() > 0 && is_word(sha256_hex@)
            ==> plain_meta_parts(line@) == Some(
                (transfer_id@, kind, file_name@, total_size, total_chunks, sha256_hex@),
            ),
{
    let mut parts: Vec<String> = Vec::new();
    parts.push("/FILEMETA".to_owned());
    parts.push(transfer_id.to_owned());
    parts.push(kind.as_protocol_tag().to_owned());
    parts.push(encode_text(file_name));
    parts.push(decimal_text(total_size));
    parts.push(decimal_text(total_chunks as u64));
    parts.push(sha256_hex.to_owned());
    proof {
        let p = views(parts@);
        assert(p =~= seq![
            "/FILEMETA"@,
            transfer_id@,
            kind.tag(),
            encoded_text(file_name@),
            decimal(total_size as nat),
            decimal(total_chunks as nat),
            sha256_hex@,
        ]);
        reveal_strlit("/FILEMETA");
        assert(is_word("/FILEMETA"@));
        if is_word(transfer_id@) && file_name@.len() > 0 && is_word(sha256_hex@) {
            kind.lemma_tag();
            lemma_base64url_chars(p[3]);
            lemma_decimal(total_size as nat);
            lemma_parse_decimal(total_size as nat, u64::MAX as nat);
            lemma_decimal(total_chunks as nat);
            lemma_parse_decimal(total_chunks as nat, usize::MAX as nat);
            assert forall|i: int| 0 <= i < p.len() implies is_word(#[trigger] p[i]) by {}
            lemma_words_spaced(p);
        }
    }
    join_strings(&parts, " ")
}

/// The fields of an announcement.
fn parse_meta(line: &str) -> (out: Option<AttachmentMeta>)
    ensures
        match (out, plain_meta_parts(line@)) {
            (Some(o), Some(v)) => o.transfer_id@ == v.0 && o.kind == v.1 && o.file_name@ == v.2
                && o.total_size == v.3 && o.total_chunks == v.4 && o.sha256_hex@ == v.5,
            (None, None) => true,
            _ => false,
        },
{
    let w = split_words(line);
    assert(views(w@).len() == w@.len());
    if w.len() < 7 {
        return None;
    }
    proof {
        lemma_views(w@);
    }
    if !same_text(w[0].as_str(), "/FILEMETA") {
        return None;
    }
    let transfer_id = w[1].clone();
    let kind = match AttachmentKind::from_protocol_tag(w[2].as_str()) {
        Some(x) => x,
        None => {
            return None;
        },
    };
    let file_name = match decode_text(w[3].as_str()) {
        Some(x) => x,
        None => {
            return None;
        },
    };
    let total_size: u64 = match parse_u64(w[4].as_str()) {
        Some(x) => x,
        None => {
            return None;
        },
    };
    let total_chunks: usize = match parse_usize(w[5].as_str()) {
        Some(x) => x,
        None => {
            return None;
        },
    };
    let sha256_hex = w[6].clone();
    Some(AttachmentMeta { transfer_id, kind, file_name, total_size, total_chunks, sha256_hex })
}

/// One piece of an attachment that is sent in the clear.
pub open spec fn plain_chunk_line(
    transfer_id: Seq<char>,
    index: usize,
    data: Seq<u8>,
) -> Seq<char> {
    spaced(seq![
        "/FILECHUNK"@,
        transfer_id,
        decimal(index as nat),
        base64_text(data),
    ])
}

/// The fields of a piece.
pub open spec fn plain_chunk_parts(line: Seq<char>) -> Option<(Seq<char>, usize, Seq<u8>)> {
    let w = words(line);
    if w.len() < 4 || w[0] != "/FILECHUNK"@ {
        None
    } else {
        let transfer_id = w[1];
        let index = read_usize(w[2]);
        let data = base64_bytes(w[3]);
        if index is Some && data is Some {
            Some((transfer_id, index->0, data->0))
        } else {
            None
        }
    }
}

/// One piece of an attachment that is sent in the clear.
pub fn build_attachment_chunk_line(transfer_id: &str, index: usize, data: &[u8]) -> (line: String)
    ensures
        line@ == plain_chunk_line(transfer_id@, index, data@),
        is_word(transfer_id@) && data@.len() > 0
            ==> plain_chunk_parts(line@) == Some((transfer_id@, index, data@)),
{
    let mut parts: Vec<String> = Vec::new();
    parts.push("/FILECHUNK".to_owned());
    parts.push(transfer_id.to_owned());
    parts.push(decimal_text(index as u64));
    parts.push(base64_encode(data));
    proof {
        let p = views(parts@);
        assert(p =~= seq![
            "/FILECHUNK"@,
            transfer_id@,
            decimal(index as nat),
            base64_text(data@),
        ]);
        reveal_strlit("/FILECHUNK");
        assert(is_word("/FILECHUNK"@));
        if is_word(transfer_id@) && data@.len() > 0 {
            lemma_decimal(index as nat);
            lemma_parse_decimal(index as nat, usize::MAX as nat);
            lemma_base64_chars(p[3]);
            assert forall|i: int| 0 <= i < p.len() implies is_word(#[trigger] p[i]) by {}
            lemma_words_spaced(p);
        }
    }
    join_strings(&parts, " ")
}

/// The fields of a piece.
fn parse_chunk(line: &str) -> (out: Option<AttachmentChunk>)
    ensures
        match (out, plain_chunk_parts(line@)) {
            (Some(o), Some(v)) => o.transfer_id@ == v.0 && o.index == v.1 && o.data@ == v.2,
            (None, None) => true,
            _ => false,
        },
{
    let w = split_words(line);
    assert(views(w@).len() == w@.len());
    if w.len() < 4 {
        return None;
    }
    proof {
        lemma_views(w@);
    }
    if !same_text(w[0].as_str(), "/FILECHUNK") {
        return None;
    }
    let transfer_id = w[1].clone();
    let index: usize = match parse_usize(w[2].as_str()) {
        Some(x) => x,
        None => {
            return None;
        },
    };
    let data = match base64_decode(w[3].as_str()) {
        Some(x) => x,
        None => {
            return None;
        },
    };
    Some(AttachmentChunk { transfer_id, index, data })
}

/// The line about an attachment in the clear that a text is.
pub open spec fn plain_frame_of(line: Seq<char>) -> Option<PlainFrameView> {
    match plain_meta_parts(line) {
        Some(v) => Some(
            PlainFrameView::Meta(
                PlainMetaView {
                    transfer_id: v.0,
                    kind: v.1,
                    file_name: v.2,
                    total_size: v.3,
                    total_chunks: v.4,
                    sha256_hex: v.5,
                },
            ),
        ),
        None => match plain_chunk_parts(line) {
            Some(v) => Some(
                PlainFrameView::Chunk(PlainChunkView { transfer_id: v.0, index: v.1, data: v.2 }),
            ),
            None => None,
        },
    }
}

/// Reads a line about an attachment in the clear.
pub fn parse_attachment_frame(body: &str) -> (frame: Option<AttachmentFrame>)
    ensures
        match (frame, plain_frame_of(body@)) {
            (Some(f), Some(v)) => f@ == v,
            (None, None) => true,
            _ => false,
        },
{
    match parse_meta(body) {
        Some(meta) => {
            return Some(AttachmentFrame::Meta(meta));
        },
        None => {},
    }
    match parse_chunk(body) {
        Some(chunk) => Some(AttachmentFrame::Chunk(chunk)),
        None => None,
    }
}

/// Whether a line is about an attachment in the clear.
pub open spec fn about_plain_attachment(line: Seq<char>) -> bool {
    "/FILEMETA "@.is_prefix_of(line) || "/FILECHUNK "@.is_prefix_of(line)
}

pub fn is_attachment_protocol_line(line: &str) -> (yes: bool)
    ensures
        yes == about_plain_attachment(line@),
{
    starts_with(line, "/FILEMETA ") || starts_with(line, "/FILECHUNK ")
}

/// The path that a line of input may name.
pub fn candidate_path(msg: &str) -> (path: Option<String>)
    ensures
        match (path, named_path(msg@, about_plain_attachment(msg@))) {
            (Some(o), Some(v)) => o@ == v,
            (None, None) => true,
            _ => false,
        },
{
    candidate_path_unless(msg, is_attachment_protocol_line(msg))
}

/// What a line of input sends, given whether the path that it may name is that of a file.
pub fn classify_outgoing_input(
    msg: &str,
    is_file: bool,
) -> (out: Result<OutgoingPayload, InputError>)
    ensures
        match (out, classified(msg@, about_plain_attachment(msg@), is_file)) {
            (Ok(o), Ok(v)) => o@ == v,
            (Err(e), Err(v)) => e@ == v,
            _ => false,
        },
{
    classify_unless(msg, is_attachment_protocol_line(msg), is_file)
}

/// The lines that send an attachment in the clear: the announcement, then the pieces.
pub open spec fn plain_frames(
    id: Seq<char>,
    name: Seq<char>,
    bytes: Seq<u8>,
    kind: AttachmentKind,
) -> Seq<Seq<char>> {
    Seq::new(
        chunk_count(bytes.len()) + 1,
        |i: int|
            if i == 0 {
                plain_meta_line(
                    id,
                    kind,
                    name,
                    bytes.len() as u64,
                    chunk_count(bytes.len()) as usize,
                    hex_text(sha256(bytes)),
                )
            } else {
                plain_chunk_line(id, (i - 1) as usize, piece(bytes, i - 1))
            },
    )
}

/// Whether lines carry an attachment: reading the pieces in turn gives its bytes.
pub open spec fn frames_carry(
    frames: Seq<Seq<char>>,
    id: Seq<char>,
    name: Seq<char>,
    bytes: Seq<u8>,
    kind: AttachmentKind,
) -> bool {
    &&& frames.len() == chunk_count(bytes.len()) + 1
    &&& name.len() > 0 ==> plain_frame_of(frames[0]) == Some(
        PlainFrameView::Meta(
            PlainMetaView {
                transfer_id: id,
                kind,
                file_name: name,
                total_size: bytes.len() as u64,
                total_chunks: chunk_count(bytes.len()) as usize,
                sha256_hex: hex_text(sha256(bytes)),
            },
        ),
    )
    &&& forall|i: int|
        1 <= i < frames.len() ==> plain_frame_of(#[trigger] frames[i]) == Some(
            PlainFrameView::Chunk(
                PlainChunkView {
                    transfer_id: id,
                    index: (i - 1) as usize,
                    data: piece(bytes, i - 1),
                },
            ),
        )
}

/// The lines that send an attachment in the clear under a given identifier. They carry it.
pub fn build_attachment_frames_with(
    transfer_id: &str,
    file_name: &str,
    bytes: &[u8],
    kind: AttachmentKind,
) -> (frames: Vec<String>)
    ensures
        views(frames@) == plain_frames(transfer_id@, file_name@, bytes@, kind),
        is_word(transfer_id@) ==> frames_carry(
            views(frames@),
            transfer_id@,
            file_name@,
            bytes@,
            kind,
        ),
{
    let total_chunks = chunk_count_of(bytes.len());
    let sha256_hex = hash_bytes(bytes);
    let ghost want = plain_frames(transfer_id@, file_name@, bytes@, kind);
    let ghost id = transfer_id@;
    let mut frames: Vec<String> = Vec::new();
    let first = build_attachment_meta_line(
        transfer_id,
        kind,
        file_name,
        bytes.len() as u64,
        total_chunks,
        sha256_hex.as_str(),
    );
    proof {
        crate::server::connection::lemma_hex_round_trip(sha256(bytes@));
        lemma_tags_differ();
    }
    let ghost meta_line = first@;
    frames.push(first);
    let mut i: usize = 0;
    let mut from: usize = 0;
    assert(frames@[0]@ == want[0]);
    while i < total_chunks
        invariant
            i <= total_chunks,
            total_chunks == chunk_count(bytes@.len()),
            from == i * ATTACHMENT_CHUNK_SIZE || (i == total_chunks && from == bytes@.len()),
            frames@.len() == i + 1,
            id == transfer_id@,
            want == plain_frames(transfer_id@, file_name@, bytes@, kind),
            forall|k: int| 0 <= k < frames@.len() ==> (#[trigger] frames@[k])@ == want[k],
            is_word(id) ==> forall|k: int|
                1 <= k < frames@.len() ==> plain_frame_of((#[trigger] frames@[k])@) == Some(
                    PlainFrameView::Chunk(
                        PlainChunkView {
                            transfer_id: id,
                            index: (k - 1) as usize,
                            data: piece(bytes@, k - 1),
                        },
                    ),
                ),
        decreases total_chunks - i,
    {
        proof {
            law_pieces_are_full(bytes@, i as int);
        }
        let to: usize = if ATTACHMENT_CHUNK_SIZE < bytes.len() - from {
            from + ATTACHMENT_CHUNK_SIZE
        } else {
            bytes.len()
        };
        let data = vstd::slice::slice_subrange(bytes, from, to);
        assert(data@ =~= piece(bytes@, i as int));
        let line = build_attachment_chunk_line(transfer_id, i, data);
        proof {
            lemma_tags_differ();
            if is_word(id) {
                assert(plain_chunk_parts(line@) is Some);
                assert(words(line@)[0] == "/FILECHUNK"@);
            }
        }
        frames.push(line);
        from = to;
        i += 1;
    }
    proof {
        assert(views(frames@) =~= want);
        if is_word(id) {
            assert forall|k: int| 1 <= k < views(frames@).len() implies plain_frame_of(
                #[trigger] views(frames@)[k],
            ) == Some(
                PlainFrameView::Chunk(
                    PlainChunkView {
                        transfer_id: id,
                        index: (k - 1) as usize,
                        data: piece(bytes@, k - 1),
                    },
                ),
            ) by {
                assert(views(frames@)[k] == frames@[k]@);
            }
            assert(views(frames@)[0] == meta_line);
        }
    }
    frames
}

proof fn lemma_tags_differ()
    ensures
        "/FILEMETA"@ != "/FILECHUNK"@,
{
    reveal_strlit("/FILEMETA");
    reveal_strlit("/FILECHUNK");
    assert("/FILEMETA"@.len() == 9);
    assert("/FILECHUNK"@.len() == 10);
}

/// The lines that send an attachment in the clear under a fresh identifier. They carry it.
pub fn build_attachment_frames_from_bytes(file_name: &str, bytes: &[u8], kind: AttachmentKind) -> (
    frames: Vec<String>)
    ensures
        exists|id: Seq<char>|
            id.len() == 32 && lower_hex(id) && views(frames@) == #[trigger] plain_frames(
                id,
                file_name@,
                bytes@,
                kind,
            ) && frames_carry(views(frames@), id, file_name@, bytes@, kind),
{
    let transfer_id = fresh_id();
    proof {
        assert forall|i: int| 0 <= i < transfer_id@.len() implies !is_white(
            #[trigger] transfer_id@[i],
        ) by {}
    }
    build_attachment_frames_with(transfer_id.as_str(), file_name, bytes, kind)
}

/// The packet of a text, under a given identifier.
pub fn packet_id_for_text_with(id: &str) -> (packet_id: String)
    ensures
        packet_id@ == "msg-"@ + id@,
{
    joined("msg-", id)
}

/// A fresh packet for a text.
pub fn packet_id_for_text() -> (packet_id: String)
    ensures
        packet_id@.len() == 36,
        packet_id@.take(4) == "msg-"@,
        lower_hex(packet_id@.skip(4)),
{
    let id = fresh_id();
    let packet_id = packet_id_for_text_with(id.as_str());
    proof {
        reveal_strlit("msg-");
        assert(packet_id@.take(4) =~= "msg-"@);
        assert(packet_id@.skip(4) =~= id@);
    }
    packet_id
}

/// A transfer that is being sent, in one line.
pub fn render_transfer_line(
    file_name: &str,
    total_size: u64,
    stage: TransferStage,
    acked_chunks: usize,
    total_chunks: usize,
    detail: Option<&str>,
) -> (line: String)
    ensures
        line@ == transfer_text(
            file_name@,
            total_size,
            TransferDirection::Sending,
            stage,
            acked_chunks,
            total_chunks,
            opt_str(detail),
        ),
{
    crate::ui::help::render_transfer_line(
        file_name,
        total_size,
        TransferDirection::Sending,
        stage,
        acked_chunks,
        total_chunks,
        detail,
    )
}

/// What is left of an input once an invitation in it has been used.
pub fn inviation_clear(inv: &str) -> (out: String)
    ensures
        out@ == (if "/INVITE:"@.is_prefix_of(inv@) {
            Seq::<char>::empty()
        } else {
            inv@
        }),
{
    if starts_with(inv, "/INVITE:") {
        let empty = String::new();
        assert(empty@ =~= Seq::<char>::empty());
        empty
    } else {
        inv.to_owned()
    }
}

} // verus!
