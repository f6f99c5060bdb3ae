//! Lines that stay on one machine: between the input, the connection and the display.
use crate::outside::encoding::{base64url_bytes, base64url_decode, base64url_encode, base64url_text};
use crate::outside::random::{fresh_id, lower_hex};
use crate::protocol::attachment::AttachmentKind;
use crate::util::codec::{
    decode_text, decoded_text, encode_text, encoded_text, join_strings, lemma_base64url_chars,
    lemma_spaced_head, lemma_words_spaced, spaced,
};
use crate::util::text::{
    after_prefix, decimal, decimal_text, is_word, joined, lemma_decimal, lemma_parse_decimal,
    lemma_trimmed_same, lemma_views, parse_u64, parse_usize, read_u64, read_usize, same_text,
    split_words, strip_prefix_ref, trim_ref, trimmed, views, words,
};
use vstd::prelude::*;

verus! {

/// What stands for an empty field.
pub const EMPTY_FIELD_SENTINEL: &'static str = "~";

/// An event for the display.
#[derive(Debug)]
pub enum LocalUiEvent {
    TransferBegin { transfer_id: String, file_name: String, total_chunks: usize, total_size: u64 },
    TransferProgress { transfer_id: String, acked_chunks: usize, total_chunks: usize },
    TransferDone { transfer_id: String },
    TransferFailed { transfer_id: String, reason: String },
    EchoText { body: String },
    EchoAttachment {
        attachment_id: String,
        file_name: String,
        total_size: u64,
        kind: AttachmentKind,
    },
    Notice(String),
}

/// An event for the display.
pub ghost enum LocalEventView {
    TransferBegin {
        transfer_id: Seq<char>,
        file_name: Seq<char>,
        total_chunks: usize,
        total_size: u64,
    },
    TransferProgress { transfer_id: Seq<char>, acked_chunks: usize, total_chunks: usize },
    TransferDone { transfer_id: Seq<char> },
    TransferFailed { transfer_id: Seq<char>, reason: Seq<char> },
    EchoText { body: Seq<char> },
    EchoAttachment {
        attachment_id: Seq<char>,
        file_name: Seq<char>,
        total_size: u64,
        kind: AttachmentKind,
    },
    Notice(Seq<char>),
}

impl View for LocalUiEvent {
    type V = LocalEventView;

    open spec fn view(&self) -> LocalEventView {
        match self {
            LocalUiEvent::TransferBegin {
                transfer_id,
                file_name,
                total_chunks,
                total_size,
            } => LocalEventView::TransferBegin {
                transfer_id: transfer_id@,
                file_name: file_name@,
                total_chunks: *total_chunks,
                total_size: *total_size,
            },
            LocalUiEvent::TransferProgress {
                transfer_id,
                acked_chunks,
                total_chunks,
            } => LocalEventView::TransferProgress {
                transfer_id: transfer_id@,
                acked_chunks: *acked_chunks,
                total_chunks: *total_chunks,
            },
            LocalUiEvent::TransferDone { transfer_id } => LocalEventView::TransferDone {
                transfer_id: transfer_id@,
            },
            LocalUiEvent::TransferFailed { transfer_id, reason } => LocalEventView::TransferFailed {
                transfer_id: transfer_id@,
                reason: reason@,
            },
            LocalUiEvent::EchoText { body } => LocalEventView::EchoText { body: body@ },
            LocalUiEvent::EchoAttachment {
                attachment_id,
                file_name,
                total_size,
                kind,
            } => LocalEventView::EchoAttachment {
                attachment_id: attachment_id@,
                file_name: file_name@,
                total_size: *total_size,
                kind: *kind,
            },
            LocalUiEvent::Notice(text) => LocalEventView::Notice(text@),
        }
    }
}

impl Clone for LocalUiEvent {
    fn clone(&self) -> (copy: Self)
        ensures
            copy@ == self@,
    {
        match self {
            LocalUiEvent::TransferBegin {
                transfer_id,
                file_name,
                total_chunks,
                total_size,
            } => LocalUiEvent::TransferBegin {
                transfer_id: transfer_id.clone(),
                file_name: file_name.clone(),
                total_chunks: *total_chunks,
                total_size: *total_size,
            },
            LocalUiEvent::TransferProgress {
                transfer_id,
                acked_chunks,
                total_chunks,
            } => LocalUiEvent::TransferProgress {
                transfer_id: transfer_id.clone(),
                acked_chunks: *acked_chunks,
                total_chunks: *total_chunks,
            },
            LocalUiEvent::TransferDone { transfer_id } => LocalUiEvent::TransferDone {
                transfer_id: transfer_id.clone(),
            },
            LocalUiEvent::TransferFailed { transfer_id, reason } => LocalUiEvent::TransferFailed {
                transfer_id: transfer_id.clone(),
                reason: reason.clone(),
            },
            LocalUiEvent::EchoText { body } => LocalUiEvent::EchoText { body: body.clone() },
            LocalUiEvent::EchoAttachment {
                attachment_id,
                file_name,
                total_size,
                kind,
            } => LocalUiEvent::EchoAttachment {
                attachment_id: attachment_id.clone(),
                file_name: file_name.clone(),
                total_size: *total_size,
                kind: *kind,
            },
            LocalUiEvent::Notice(text) => LocalUiEvent::Notice(text.clone()),
        }
    }
}

/// A request for an invite from the input line.
#[derive(Debug)]
pub struct LocalInviteRequest {
    pub request_id: String,
    pub server_addr: String,
    pub room_id: String,
    pub room_credential: String,
    pub owner_capability: String,
}

/// An attachment whose bytes are already in memory.
#[derive(Debug)]
pub struct LocalAttachmentSend {
    pub file_name: String,
    pub kind: AttachmentKind,
    pub bytes: Vec<u8>,
}

/// A field that may be empty.
pub open spec fn optional_field(value: Seq<char>) -> Seq<char> {
    if value.len() == 0 {
        EMPTY_FIELD_SENTINEL@
    } else {
        encoded_text(value)
    }
}

/// What a field that may be empty holds.
pub open spec fn read_optional(word: Seq<char>) -> Option<Seq<char>> {
    if word == EMPTY_FIELD_SENTINEL@ {
        Some(Seq::empty())
    } else {
        decoded_text(word)
    }
}

fn encode_optional_url_field(value: &str) -> (word: String)
    ensures
        word@ == optional_field(value@),
        is_word(word@),
        read_optional(word@) == Some(value@),
{
    proof {
        reveal_strlit("~");
        assert("~"@[0] == '~');
    }
    if value.unicode_len() == 0 {
        assert(value@ =~= Seq::<char>::empty());
        EMPTY_FIELD_SENTINEL.to_owned()
    } else {
        let word = encode_text(value);
        proof {
            lemma_base64url_chars(word@);
            if word@ == "~"@ {
                assert(word@.contains(word@[0]));
            }
        }
        word
    }
}

fn decode_optional_url_field(word: &str) -> (value: Option<String>)
    ensures
        match (value, read_optional(word@)) {
            (Some(o), Some(v)) => o@ == v,
            (None, None) => true,
            _ => false,
        },
{
    if same_text(word, EMPTY_FIELD_SENTINEL) {
        let empty = String::new();
        assert(empty@ =~= Seq::<char>::empty());
        Some(empty)
    } else {
        decode_text(word)
    }
}

/// The event that a line about a transfer stands for.
pub open spec fn transfer_event_of(line: Seq<char>) -> Option<LocalEventView> {
    if let Some(v) = transfer_begin_parts(line) {
        Some(
            LocalEventView::TransferBegin {
                transfer_id: v.0,
                file_name: v.1,
                total_chunks: v.2,
                total_size: v.3,
            },
        )
    } else if let Some(v) = transfer_progress_parts(line) {
        Some(
            LocalEventView::TransferProgress {
                transfer_id: v.0,
                acked_chunks: v.1,
                total_chunks: v.2,
            },
        )
    } else if let Some(transfer_id) = transfer_done_parts(line) {
        Some(LocalEventView::TransferDone { transfer_id })
    } else if let Some(v) = transfer_failed_parts(line) {
        Some(LocalEventView::TransferFailed { transfer_id: v.0, reason: v.1 })
    } else {
        None
    }
}

/// The event that an echo stands for.
pub open spec fn echo_event_of(payload: Seq<char>) -> Option<LocalEventView> {
    if let Some(body) = echo_text_parts(payload) {
        Some(LocalEventView::EchoText { body })
    } else if let Some(v) = echo_attachment_parts(payload) {
        Some(
            LocalEventView::EchoAttachment {
                attachment_id: v.0,
                file_name: v.1,
                total_size: v.2,
                kind: v.3,
            },
        )
    } else {
        None
    }
}

/// The event that a line stands for.
pub open spec fn local_event_of(line: Seq<char>) -> Option<LocalEventView> {
    if let Some(encoded) = after_prefix(line, "/LOCALNOTICE "@) {
        match decoded_text(trimmed(encoded)) {
            Some(text) => Some(LocalEventView::Notice(text)),
            None => None,
        }
    } else if let Some(payload) = after_prefix(line, "/LOCALECHO "@) {
        echo_event_of(payload)
    } else {
        transfer_event_of(line)
    }
}

/// A line that starts with the transfer tag is about a transfer, and its second word says which.
proof fn lemma_transfer_line(parts: Seq<Seq<char>>)
    requires
        parts.len() >= 2,
        parts[0] == "/LOCALTX"@,
    ensures
        local_event_of(spaced(parts)) == transfer_event_of(spaced(parts)),
        "BEGIN"@ != "PROGRESS"@,
        "BEGIN"@ != "DONE"@,
        "BEGIN"@ != "FAIL"@,
        "PROGRESS"@ != "DONE"@,
        "PROGRESS"@ != "FAIL"@,
        "DONE"@ != "FAIL"@,
{
    lemma_spaced_head(parts);
    reveal_strlit("/LOCALTX");
    reveal_strlit("/LOCALNOTICE ");
    reveal_strlit("/LOCALECHO ");
    let line = spaced(parts);
    assert(line[6] == 'T');
    assert("/LOCALNOTICE "@[6] == 'N');
    assert("/LOCALECHO "@[6] == 'E');
    reveal_strlit("BEGIN");
    reveal_strlit("PROGRESS");
    reveal_strlit("DONE");
    reveal_strlit("FAIL");
    assert("BEGIN"@.len() == 5);
    assert("PROGRESS"@.len() == 8);
    assert("DONE"@[0] == 'D');
    assert("FAIL"@[0] == 'F');
    assert("DONE"@.len() == 4);
    assert("FAIL"@.len() == 4);
}

/// A transfer begins.
pub open spec fn transfer_begin_line(
    transfer_id: Seq<char>,
    file_name: Seq<char>,
    total_chunks: usize,
    total_size: u64,
) -> Seq<char> {
    spaced(seq![
        "/LOCALTX"@,
        "BEGIN"@,
        transfer_id,
        encoded_text(file_name),
        decimal(total_chunks as nat),
        decimal(total_size as nat),
    ])
}

/// The parts of such a line.
pub open spec fn transfer_begin_parts(
    line: Seq<char>,
) -> Option<(Seq<char>, Seq<char>, usize, u64)> {
    let w = words(line);
    if w.len() < 6 || w[0] != "/LOCALTX"@ || w[1] != "BEGIN"@ {
        None
    } else {
        let transfer_id = w[2];
        let file_name = decoded_text(w[3]);
        let total_chunks = read_usize(w[4]);
        let total_size = read_u64(w[5]);
        if file_name is Some && total_chunks is Some && total_size is Some {
            Some((transfer_id, file_name->0, total_chunks->0, total_size->0))
        } else {
            None
        }
    }
}

/// A transfer begins.
pub fn build_local_transfer_begin_line(
    transfer_id: &str,
    file_name: &str,
    total_chunks: usize,
    total_size: u64,
) -> (line: String)
    ensures
        line@ == transfer_begin_line(transfer_id@, file_name@, total_chunks, total_size),
        is_word(transfer_id@) && file_name@.len() > 0
            ==> transfer_begin_parts(line@) == Some(
                (transfer_id@, file_name@, total_chunks, total_size),
            ),
        is_word(transfer_id@) && file_name@.len() > 0 ==> local_event_of(line@) == Some(
            LocalEventView::TransferBegin {
                transfer_id: transfer_id@,
                file_name: file_name@,
                total_chunks: total_chunks,
                total_size: total_size,
            },
        ),
{
    let mut parts: Vec<String> = Vec::new();
    parts.push("/LOCALTX".to_owned());
    parts.push("BEGIN".to_owned());
    parts.push(transfer_id.to_owned());
    parts.push(encode_text(file_name));
    parts.push(decimal_text(total_chunks as u64));
    parts.push(decimal_text(total_size));
    proof {
        let p = views(parts@);
        assert(p =~= seq![
            "/LOCALTX"@,
            "BEGIN"@,
            transfer_id@,
            encoded_text(file_name@),
            decimal(total_chunks as nat),
            decimal(total_size as nat),
        ]);
        reveal_strlit("/LOCALTX");
        assert(is_word("/LOCALTX"@));
        reveal_strlit("BEGIN");
        assert(is_word("BEGIN"@));
        if is_word(transfer_id@) && file_name@.len() > 0 {
            lemma_base64url_chars(p[3]);
            lemma_decimal(total_chunks as nat);
            lemma_parse_decimal(total_chunks as nat, usize::MAX as nat);
            lemma_decimal(total_size as nat);
            lemma_parse_decimal(total_size as nat, u64::MAX as nat);
            assert forall|i: int| 0 <= i < p.len() implies is_word(#[trigger] p[i]) by {}
            lemma_words_spaced(p);
            lemma_transfer_line(p);
        }
    }
    join_strings(&parts, " ")
}

/// The parts of such a line.
fn parse_local_transfer_begin(line: &str) -> (out: Option<(String, String, usize, u64)>)
    ensures
        match (out, transfer_begin_parts(line@)) {
            (Some(o), Some(v)) => o.0@ == v.0 && o.1@ == v.1 && o.2 == v.2 && o.3 == v.3,
            (None, None) => true,
            _ => false,
        },
{
    let w = split_words(line);
    assert(views(w@).len() == w@.len());
    if w.len() < 6 {
        return None;
    }
    proof {
        lemma_views(w@);
    }
    if !same_text(w[0].as_str(), "/LOCALTX") || !same_text(w[1].as_str(), "BEGIN") {
        return None;
    }
    let transfer_id = w[2].clone();
    let file_name = match decode_text(w[3].as_str()) {
        Some(x) => x,
        None => {
            return None;
        },
    };
    let total_chunks: usize = match parse_usize(w[4].as_str()) {
        Some(x) => x,
        None => {
            return None;
        },
    };
    let total_size: u64 = match parse_u64(w[5].as_str()) {
        Some(x) => x,
        None => {
            return None;
        },
    };
    Some((transfer_id, file_name, total_chunks, total_size))
}

/// A transfer goes on.
pub open spec fn transfer_progress_line(
    transfer_id: Seq<char>,
    acked_chunks: usize,
    total_chunks: usize,
) -> Seq<char> {
    spaced(seq![
        "/LOCALTX"@,
        "PROGRESS"@,
        transfer_id,
        decimal(acked_chunks as nat),
        decimal(total_chunks as nat),
    ])
}

/// The parts of such a line.
pub open spec fn transfer_progress_parts(line: Seq<char>) -> Option<(Seq<char>, usize, usize)> {
    let w = words(line);
    if w.len() < 5 || w[0] != "/LOCALTX"@ || w[1] != "PROGRESS"@ {
        None
    } else {
        let transfer_id = w[2];
        let acked_chunks = read_usize(w[3]);
        let total_chunks = read_usize(w[4]);
        if acked_chunks is Some && total_chunks is Some {
            Some((transfer_id, acked_chunks->0, total_chunks->0))
        } else {
            None
        }
    }
}

/// A transfer goes on.
pub fn build_local_transfer_progress_line(
    transfer_id: &str,
    acked_chunks: usize,
    total_chunks: usize,
) -> (line: String)
    ensures
        line@ == transfer_progress_line(transfer_id@, acked_chunks, total_chunks),
        is_word(transfer_id@)
            ==> transfer_progress_parts(line@) == Some((transfer_id@, acked_chunks, total_chunks)),
        is_word(transfer_id@) ==> local_event_of(line@) == Some(
            LocalEventView::TransferProgress {
                transfer_id: transfer_id@,
                acked_chunks: acked_chunks,
                total_chunks: total_chunks,
            },
        ),
{
    let mut parts: Vec<String> = Vec::new();
    parts.push("/LOCALTX".to_owned());
    parts.push("PROGRESS".to_owned());
    parts.push(transfer_id.to_owned());
    parts.push(decimal_text(acked_chunks as u64));
    parts.push(decimal_text(total_chunks as u64));
    proof {
        let p = views(parts@);
        assert(p =~= seq![
            "/LOCALTX"@,
            "PROGRESS"@,
            transfer_id@,
            decimal(acked_chunks as nat),
            decimal(total_chunks as nat),
        ]);
        reveal_strlit("/LOCALTX");
        assert(is_word("/LOCALTX"@));
        reveal_strlit("PROGRESS");
        assert(is_word("PROGRESS"@));
        if is_word(transfer_id@) {
            lemma_decimal(acked_chunks as nat);
            lemma_parse_decimal(acked_chunks as nat, usize::MAX as nat);
            lemma_decimal(total_chunks as nat);
            lemma_parse_decimal(total_chunks as nat, usize::MAX as nat);
            assert forall|i: int| 0 <= i < p.len() implies is_word(#[trigger] p[i]) by {}
            lemma_words_spaced(p);
            lemma_transfer_line(p);
        }
    }
    join_strings(&parts, " ")
}

/// The parts of such a line.
fn parse_local_transfer_progress(line: &str) -> (out: Option<(String, usize, usize)>)
    ensures
        match (out, transfer_progress_parts(line@)) {
            (Some(o), Some(v)) => o.0@ == v.0 && o.1 == v.1 && o.2 == v.2,
            (None, None) => true,
            _ => false,
        },
{
    let w = split_words(line);
    assert(views(w@).len() == w@.len());
    if w.len() < 5 {
        return None;
    }
    proof {
        lemma_views(w@);
    }
    if !same_text(w[0].as_str(), "/LOCALTX") || !same_text(w[1].as_str(), "PROGRESS") {
        return None;
    }
    let transfer_id = w[2].clone();
    let acked_chunks: usize = match parse_usize(w[3].as_str()) {
        Some(x) => x,
        None => {
            return None;
        },
    };
    let total_chunks: usize = match parse_usize(w[4].as_str()) {
        Some(x) => x,
        None => {
            return None;
        },
    };
    Some((transfer_id, acked_chunks, total_chunks))
}

/// A transfer is complete.
pub open spec fn transfer_done_line(transfer_id: Seq<char>) -> Seq<char> {
    spaced(seq![
        "/LOCALTX"@,
        "DONE"@,
        transfer_id,
    ])
}

/// The parts of such a line.
pub open spec fn transfer_done_parts(line: Seq<char>) -> Option<Seq<char>> {
    let w = words(line);
    if w.len() < 3 || w[0] != "/LOCALTX"@ || w[1] != "DONE"@ {
        None
    } else {
        let transfer_id = w[2];
        Some(transfer_id)
    }
}

/// A transfer is complete.
pub fn build_local_transfer_done_line(transfer_id: &str) -> (line: String)
    ensures
        line@ == transfer_done_line(transfer_id@),
        is_word(transfer_id@) ==> transfer_done_parts(line@) == Some(transfer_id@),
        is_word(transfer_id@) ==> local_event_of(line@) == Some(
            LocalEventView::TransferDone { transfer_id: transfer_id@ },
        ),
{
    let mut parts: Vec<String> = Vec::new();
    parts.push("/LOCALTX".to_owned());
    parts.push("DONE".to_owned());
    parts.push(transfer_id.to_owned());
    proof {
        let p = views(parts@);
        assert(p =~= seq![
            "/LOCALTX"@,
            "DONE"@,
            transfer_id@,
        ]);
        reveal_strlit("/LOCALTX");
        assert(is_word("/LOCALTX"@));
        reveal_strlit("DONE");
        assert(is_word("DONE"@));
        if is_word(transfer_id@) {
            assert forall|i: int| 0 <= i < p.len() implies is_word(#[trigger] p[i]) by {}
            lemma_words_spaced(p);
            lemma_transfer_line(p);
        }
    }
    join_strings(&parts, " ")
}

/// The parts of such a line.
fn parse_local_transfer_done(line: &str) -> (out: Option<String>)
    ensures
        match (out, transfer_done_parts(line@)) {
            (Some(o), Some(v)) => o@ == v,
            (None, None) => true,
            _ => false,
        },
{
    let w = split_words(line);
    assert(views(w@).len() == w@.len());
    if w.len() < 3 {
        return None;
    }
    proof {
        lemma_views(w@);
    }
    if !same_text(w[0].as_str(), "/LOCALTX") || !same_text(w[1].as_str(), "DONE") {
        return None;
    }
    let transfer_id = w[2].clone();
    Some(transfer_id)
}

/// A transfer failed.
pub open spec fn transfer_failed_line(transfer_id: Seq<char>, reason: Seq<char>) -> Seq<char> {
    spaced(seq![
        "/LOCALTX"@,
        "FAIL"@,
        transfer_id,
        encoded_text(reason),
    ])
}

/// The parts of such a line.
pub open spec fn transfer_failed_parts(line: Seq<char>) -> Option<(Seq<char>, Seq<char>)> {
    let w = words(line);
    if w.len() < 4 || w[0] != "/LOCALTX"@ || w[1] != "FAIL"@ {
        None
    } else {
        let transfer_id = w[2];
        let reason = decoded_text(w[3]);
        if reason is Some {
            Some((transfer_id, reason->0))
        } else {
            None
        }
    }
}

/// A transfer failed.
pub fn build_local_transfer_failed_line(transfer_id: &str, reason: &str) -> (line: String)
    ensures
        line@ == transfer_failed_line(transfer_id@, reason@),
        is_word(transfer_id@) && reason@.len() > 0
            ==> transfer_failed_parts(line@) == Some((transfer_id@, reason@)),
        is_word(transfer_id@) && reason@.len() > 0 ==> local_event_of(line@) == Some(
            LocalEventView::TransferFailed { transfer_id: transfer_id@, reason: reason@ },
        ),
{
    let mut parts: Vec<String> = Vec::new();
    parts.push("/LOCALTX".to_owned());
    parts.push("FAIL".to_owned());
    parts.push(transfer_id.to_owned());
    parts.push(encode_text(reason));
    proof {
        let p = views(parts@);
        assert(p =~= seq![
            "/LOCALTX"@,
            "FAIL"@,
            transfer_id@,
            encoded_text(reason@),
        ]);
        reveal_strlit("/LOCALTX");
        assert(is_word("/LOCALTX"@));
        reveal_strlit("FAIL");
        assert(is_word("FAIL"@));
        if is_word(transfer_id@) && reason@.len() > 0 {
            lemma_base64url_chars(p[3]);
            assert forall|i: int| 0 <= i < p.len() implies is_word(#[trigger] p[i]) by {}
            lemma_words_spaced(p);
            lemma_transfer_line(p);
        }
    }
    join_strings(&parts, " ")
}

/// The parts of such a line.
fn parse_local_transfer_failed(line: &str) -> (out: Option<(String, String)>)
    ensures
        match (out, transfer_failed_parts(line@)) {
            (Some(o), Some(v)) => o.0@ == v.0 && o.1@ == v.1,
            (None, None) => true,
            _ => false,
        },
{
    let w = split_words(line);
    assert(views(w@).len() == w@.len());
    if w.len() < 4 {
        return None;
    }
    proof {
        lemma_views(w@);
    }
    if !same_text(w[0].as_str(), "/LOCALTX") || !same_text(w[1].as_str(), "FAIL") {
        return None;
    }
    let transfer_id = w[2].clone();
    let reason = match decode_text(w[3].as_str()) {
        Some(x) => x,
        None => {
            return None;
        },
    };
    Some((transfer_id, reason))
}

/// The echo of a text.
pub open spec fn echo_text_line(body: Seq<char>) -> Seq<char> {
    spaced(seq![
        "TEXT"@,
        encoded_text(body),
    ])
}

/// The text of an echo.
pub open spec fn echo_text_parts(line: Seq<char>) -> Option<Seq<char>> {
    let w = words(line);
    if w.len() < 2 || w[0] != "TEXT"@ {
        None
    } else {
        let body = decoded_text(w[1]);
        if body is Some {
            Some(body->0)
        } else {
            None
        }
    }
}

/// The echo of a text.
fn echo_text_payload(body: &str) -> (line: String)
    ensures
        line@ == echo_text_line(body@),
        body@.len() > 0 ==> echo_text_parts(line@) == Some(body@),
{
    let mut parts: Vec<String> = Vec::new();
    parts.push("TEXT".to_owned());
    parts.push(encode_text(body));
    proof {
        let p = views(parts@);
        assert(p =~= seq![
            "TEXT"@,
            encoded_text(body@),
        ]);
        reveal_strlit("TEXT");
        assert(is_word("TEXT"@));
        if body@.len() > 0 {
            lemma_base64url_chars(p[1]);
            assert forall|i: int| 0 <= i < p.len() implies is_word(#[trigger] p[i]) by {}
            lemma_words_spaced(p);
        }
    }
    join_strings(&parts, " ")
}

/// The text of an echo.
fn parse_echo_text(line: &str) -> (out: Option<String>)
    ensures
        match (out, echo_text_parts(line@)) {
            (Some(o), Some(v)) => o@ == v,
            (None, None) => true,
            _ => false,
        },
{
    let w = split_words(line);
    assert(views(w@).len() == w@.len());
    if w.len() < 2 {
        return None;
    }
    proof {
        lemma_views(w@);
    }
    if !same_text(w[0].as_str(), "TEXT") {
        return None;
    }
    let body = match decode_text(w[1].as_str()) {
        Some(x) => x,
        None => {
            return None;
        },
    };
    Some(body)
}

/// The echo of an attachment.
pub open spec fn echo_attachment_line(
    attachment_id: Seq<char>,
    file_name: Seq<char>,
    total_size: u64,
    kind: AttachmentKind,
) -> Seq<char> {
    spaced(seq![
        "ATTACHMENT"@,
        encoded_text(attachment_id),
        encoded_text(file_name),
        decimal(total_size as nat),
        kind.tag(),
    ])
}

/// The attachment of an echo.
pub open spec fn echo_attachment_parts(
    line: Seq<char>,
) -> Option<(Seq<char>, Seq<char>, u64, AttachmentKind)> {
    let w = words(line);
    if w.len() < 5 || w[0] != "ATTACHMENT"@ {
        None
    } else {
        let attachment_id = decoded_text(w[1]);
        let file_name = decoded_text(w[2]);
        let total_size = read_u64(w[3]);
        let kind = AttachmentKind::of_tag(w[4]);
        if attachment_id is Some && file_name is Some && total_size is Some && kind is Some {
            Some((attachment_id->0, file_name->0, total_size->0, kind->0))
        } else {
            None
        }
    }
}

/// The echo of an attachment.
fn echo_attachment_payload(
    attachment_id: &str,
    file_name: &str,
    total_size: u64,
    kind: AttachmentKind,
) -> (line: String)
    ensures
        line@ == echo_attachment_line(attachment_id@, file_name@, total_size, kind),
        attachment_id@.len() > 0 && file_name@.len() > 0
            ==> echo_attachment_parts(line@) == Some(
                (attachment_id@, file_name@, total_size, kind),
            ),
{
    let mut parts: Vec<String> = Vec::new();
    parts.push("ATTACHMENT".to_owned());
    parts.push(encode_text(attachment_id));
    parts.push(encode_text(file_name));
    parts.push(decimal_text(total_size));
    parts.push(kind.as_protocol_tag().to_owned());
    proof {
        let p = views(parts@);
        assert(p =~= seq![
            "ATTACHMENT"@,
            encoded_text(attachment_id@),
            encoded_text(file_name@),
            decimal(total_size as nat),
            kind.tag(),
        ]);
        reveal_strlit("ATTACHMENT");
        assert(is_word("ATTACHMENT"@));
        if attachment_id@.len() > 0 && file_name@.len() > 0 {
            lemma_base64url_chars(p[1]);
            lemma_base64url_chars(p[2]);
            lemma_decimal(total_size as nat);
            lemma_parse_decimal(total_size as nat, u64::MAX as nat);
            kind.lemma_tag();
            assert forall|i: int| 0 <= i < p.len() implies is_word(#[trigger] p[i]) by {}
            lemma_words_spaced(p);
        }
    }
    join_strings(&parts, " ")
}

/// The attachment of an echo.
fn parse_echo_attachment(line: &str) -> (out: Option<(String, String, u64, AttachmentKind)>)
    ensures
        match (out, echo_attachment_parts(line@)) {
            (Some(o), Some(v)) => o.0@ == v.0 && o.1@ == v.1 && o.2 == v.2 && o.3 == v.3,
            (None, None) => true,
            _ => false,
        },
{
    let w = split_words(line);
    assert(views(w@).len() == w@.len());
    if w.len() < 5 {
        return None;
    }
    proof {
        lemma_views(w@);
    }
    if !same_text(w[0].as_str(), "ATTACHMENT") {
        return None;
    }
    let attachment_id = match decode_text(w[1].as_str()) {
        Some(x) => x,
        None => {
            return None;
        },
    };
    let file_name = match decode_text(w[2].as_str()) {
        Some(x) => x,
        None => {
            return None;
        },
    };
    let total_size: u64 = match parse_u64(w[3].as_str()) {
        Some(x) => x,
        None => {
            return None;
        },
    };
    let kind = match AttachmentKind::from_protocol_tag(w[4].as_str()) {
        Some(x) => x,
        None => {
            return None;
        },
    };
    Some((attachment_id, file_name, total_size, kind))
}

/// A payload behind the echo tag is an echo.
proof fn lemma_echo_line(payload: Seq<char>)
    ensures
        local_event_of("/LOCALECHO "@ + payload) == echo_event_of(payload),
        "TEXT"@ != "ATTACHMENT"@,
{
    let prefix = "/LOCALECHO "@;
    let line = prefix + payload;
    reveal_strlit("/LOCALNOTICE ");
    reveal_strlit("/LOCALECHO ");
    assert(line[6] == 'E');
    assert("/LOCALNOTICE "@[6] == 'N');
    assert(prefix =~= line.subrange(0, prefix.len() as int));
    assert(line.skip(prefix.len() as int) =~= payload);
    reveal_strlit("TEXT");
    reveal_strlit("ATTACHMENT");
    assert("TEXT"@.len() == 4);
    assert("ATTACHMENT"@.len() == 10);
}

/// A message for the user. It can be read back.
pub fn build_local_notice_line(message: &str) -> (line: String)
    ensures
        line@ == "/LOCALNOTICE "@ + encoded_text(message@),
        local_event_of(line@) == Some(LocalEventView::Notice(message@)),
{
    let encoded = encode_text(message);
    let line = joined("/LOCALNOTICE ", encoded.as_str());
    proof {
        let prefix = "/LOCALNOTICE "@;
        assert(line@.skip(prefix.len() as int) =~= encoded@);
        assert(prefix =~= line@.subrange(0, prefix.len() as int));
        lemma_base64url_chars(encoded@);
        if encoded@.len() > 0 {
            lemma_trimmed_same(encoded@);
        }
    }
    line
}

/// Shows one's own text. It can be read back unless it is empty.
pub fn build_local_echo_text_line(body: &str) -> (line: String)
    ensures
        line@ == "/LOCALECHO "@ + echo_text_line(body@),
        body@.len() > 0 ==> local_event_of(line@) == Some(LocalEventView::EchoText { body: body@ }),
{
    let payload = echo_text_payload(body);
    proof {
        lemma_echo_line(payload@);
    }
    joined("/LOCALECHO ", payload.as_str())
}

/// Shows one's own attachment. It can be read back unless its identifier or name is empty.
pub fn build_local_echo_attachment_line(
    attachment_id: &str,
    file_name: &str,
    total_size: u64,
    kind: AttachmentKind,
) -> (line: String)
    ensures
        line@ == "/LOCALECHO "@ + echo_attachment_line(
            attachment_id@,
            file_name@,
            total_size,
            kind,
        ),
        attachment_id@.len() > 0 && file_name@.len() > 0 ==> local_event_of(line@) == Some(
            LocalEventView::EchoAttachment {
                attachment_id: attachment_id@,
                file_name: file_name@,
                total_size,
                kind,
            },
        ),
{
    let payload = echo_attachment_payload(attachment_id, file_name, total_size, kind);
    proof {
        lemma_echo_line(payload@);
    }
    joined("/LOCALECHO ", payload.as_str())
}

/// Reads an event for the display.
pub fn parse_local_ui_event(line: &str) -> (event: Option<LocalUiEvent>)
    ensures
        match (event, local_event_of(line@)) {
            (Some(e), Some(v)) => e@ == v,
            (None, None) => true,
            _ => false,
        },
{
    match strip_prefix_ref(line, "/LOCALNOTICE ") {
        Some(encoded) => {
            return match decode_text(trim_ref(encoded)) {
                Some(text) => Some(LocalUiEvent::Notice(text)),
                None => None,
            };
        },
        None => {},
    }
    match strip_prefix_ref(line, "/LOCALECHO ") {
        Some(payload) => {
            return parse_echo(payload);
        },
        None => {},
    }
    match parse_local_transfer_begin(line) {
        Some((transfer_id, file_name, total_chunks, total_size)) => {
            return Some(
                LocalUiEvent::TransferBegin { transfer_id, file_name, total_chunks, total_size },
            );
        },
        None => {},
    }
    match parse_local_transfer_progress(line) {
        Some((transfer_id, acked_chunks, total_chunks)) => {
            return Some(
                LocalUiEvent::TransferProgress { transfer_id, acked_chunks, total_chunks },
            );
        },
        None => {},
    }
    match parse_local_transfer_done(line) {
        Some(transfer_id) => {
            return Some(LocalUiEvent::TransferDone { transfer_id });
        },
        None => {},
    }
    match parse_local_transfer_failed(line) {
        Some((transfer_id, reason)) => Some(LocalUiEvent::TransferFailed { transfer_id, reason }),
        None => None,
    }
}

fn parse_echo(payload: &str) -> (event: Option<LocalUiEvent>)
    ensures
        match (event, echo_event_of(payload@)) {
            (Some(e), Some(v)) => e@ == v,
            (None, None) => true,
            _ => false,
        },
{
    match parse_echo_text(payload) {
        Some(body) => {
            return Some(LocalUiEvent::EchoText { body });
        },
        None => {},
    }
    match parse_echo_attachment(payload) {
        Some((attachment_id, file_name, total_size, kind)) => Some(
            LocalUiEvent::EchoAttachment { attachment_id, file_name, total_size, kind },
        ),
        None => None,
    }
}

/// A request for an invite, under an identifier.
pub open spec fn local_invite_line(
    request_id: Seq<char>,
    server_addr: Seq<char>,
    room_id: Seq<char>,
    room_credential: Seq<char>,
    owner_capability: Seq<char>,
) -> Seq<char> {
    spaced(seq![
        "/LOCALINVITE"@,
        "REQUEST"@,
        request_id,
        optional_field(server_addr),
        encoded_text(room_id),
        optional_field(room_credential),
        encoded_text(owner_capability),
    ])
}

/// The parts of a request for an invite.
pub open spec fn local_invite_parts(
    line: Seq<char>,
) -> Option<(Seq<char>, Seq<char>, Seq<char>, Seq<char>, Seq<char>)> {
    let w = words(line);
    if w.len() < 7 || w[0] != "/LOCALINVITE"@ || w[1] != "REQUEST"@ {
        None
    } else {
        let request_id = w[2];
        let server_addr = read_optional(w[3]);
        let room_id = decoded_text(w[4]);
        let room_credential = read_optional(w[5]);
        let owner_capability = decoded_text(w[6]);
        if server_addr is Some && room_id is Some && room_credential is Some
            && owner_capability is Some {
            Some((request_id, server_addr->0, room_id->0, room_credential->0, owner_capability->0))
        } else {
            None
        }
    }
}

/// A request for an invite, under an identifier.
pub fn build_local_invite_request_line_with(
    request_id: &str,
    server_addr: &str,
    room_id: &str,
    room_credential: &str,
    owner_capability: &str,
) -> (line: String)
    ensures
        line@ == local_invite_line(
            request_id@,
            server_addr@,
            room_id@,
            room_credential@,
            owner_capability@,
        ),
        is_word(request_id@) && room_id@.len() > 0 && owner_capability@.len() > 0
            ==> local_invite_parts(line@) == Some(
                (request_id@, server_addr@, room_id@, room_credential@, owner_capability@),
            ),
{
    let mut parts: Vec<String> = Vec::new();
    parts.push("/LOCALINVITE".to_owned());
    parts.push("REQUEST".to_owned());
    parts.push(request_id.to_owned());
    parts.push(encode_optional_url_field(server_addr));
    parts.push(encode_text(room_id));
    parts.push(encode_optional_url_field(room_credential));
    parts.push(encode_text(owner_capability));
    proof {
        let p = views(parts@);
        assert(p =~= seq![
            "/LOCALINVITE"@,
            "REQUEST"@,
            request_id@,
            optional_field(server_addr@),
            encoded_text(room_id@),
            optional_field(room_credential@),
            encoded_text(owner_capability@),
        ]);
        reveal_strlit("/LOCALINVITE");
        assert(is_word("/LOCALINVITE"@));
        reveal_strlit("REQUEST");
        assert(is_word("REQUEST"@));
        if is_word(request_id@) && room_id@.len() > 0 && owner_capability@.len() > 0 {
            lemma_base64url_chars(p[4]);
            lemma_base64url_chars(p[6]);
            assert forall|i: int| 0 <= i < p.len() implies is_word(#[trigger] p[i]) by {}
            lemma_words_spaced(p);
        }
    }
    join_strings(&parts, " ")
}

/// The parts of a request for an invite.
pub fn parse_local_invite_request_line(line: &str) -> (out: Option<LocalInviteRequest>)
    ensures
        match (out, local_invite_parts(line@)) {
            (Some(o), Some(v)) => o.request_id@ == v.0 && o.server_addr@ == v.1 && o.room_id@ == v.2
                && o.room_credential@ == v.3 && o.owner_capability@ == v.4,
            (None, None) => true,
            _ => false,
        },
{
    let w = split_words(line);
    assert(views(w@).len() == w@.len());
    if w.len() < 7 {
        return None;
    }
    proof {
        lemma_views(w@);
    }
    if !same_text(w[0].as_str(), "/LOCALINVITE") || !same_text(w[1].as_str(), "REQUEST") {
        return None;
    }
    let request_id = w[2].clone();
    let server_addr = match decode_optional_url_field(w[3].as_str()) {
        Some(x) => x,
        None => {
            return None;
        },
    };
    let room_id = match decode_text(w[4].as_str()) {
        Some(x) => x,
        None => {
            return None;
        },
    };
    let room_credential = match decode_optional_url_field(w[5].as_str()) {
        Some(x) => x,
        None => {
            return None;
        },
    };
    let owner_capability = match decode_text(w[6].as_str()) {
        Some(x) => x,
        None => {
            return None;
        },
    };
    Some(LocalInviteRequest { request_id, server_addr, room_id, room_credential, owner_capability })
}

/// A request for an invite under a fresh identifier. It can be read back unless the room or the
/// capability is empty.
pub fn build_local_invite_request_line(
    server_addr: &str,
    room_id: &str,
    room_credential: &str,
    owner_capability: &str,
) -> (line: String)
    ensures
        exists|id: Seq<char>|
            id.len() == 32 && lower_hex(id) && line@ == #[trigger] local_invite_line(
                id,
                server_addr@,
                room_id@,
                room_credential@,
                owner_capability@,
            ) && (room_id@.len() > 0 && owner_capability@.len() > 0 ==> local_invite_parts(line@)
                == Some((id, server_addr@, room_id@, room_credential@, owner_capability@))),
{
    let request_id = fresh_id();
    proof {
        assert forall|i: int| 0 <= i < request_id@.len() implies !crate::util::text::is_white(
            #[trigger] request_id@[i],
        ) by {}
    }
    build_local_invite_request_line_with(
        request_id.as_str(),
        server_addr,
        room_id,
        room_credential,
        owner_capability,
    )
}

/// An attachment to be sent from memory.
pub open spec fn local_attach_line(
    file_name: Seq<char>,
    kind: AttachmentKind,
    bytes: Seq<u8>,
) -> Seq<char> {
    spaced(seq![
        "/LOCALATTACH"@,
        "SEND"@,
        encoded_text(file_name),
        kind.tag(),
        base64url_text(bytes),
    ])
}

/// The attachment to be sent.
pub open spec fn local_attach_parts(
    line: Seq<char>,
) -> Option<(Seq<char>, AttachmentKind, Seq<u8>)> {
    let w = words(line);
    if w.len() < 5 || w[0] != "/LOCALATTACH"@ || w[1] != "SEND"@ {
        None
    } else {
        let file_name = decoded_text(w[2]);
        let kind = AttachmentKind::of_tag(w[3]);
        let bytes = base64url_bytes(w[4]);
        if file_name is Some && kind is Some && bytes is Some {
            Some((file_name->0, kind->0, bytes->0))
        } else {
            None
        }
    }
}

/// An attachment to be sent from memory.
pub fn build_local_attachment_send_line(
    file_name: &str,
    kind: AttachmentKind,
    bytes: &[u8],
) -> (line: String)
    ensures
        line@ == local_attach_line(file_name@, kind, bytes@),
        file_name@.len() > 0 && bytes@.len() > 0
            ==> local_attach_parts(line@) == Some((file_name@, kind, bytes@)),
{
    let mut parts: Vec<String> = Vec::new();
    parts.push("/LOCALATTACH".to_owned());
    parts.push("SEND".to_owned());
    parts.push(encode_text(file_name));
    parts.push(kind.as_protocol_tag().to_owned());
    parts.push(base64url_encode(bytes));
    proof {
        let p = views(parts@);
        assert(p =~= seq![
            "/LOCALATTACH"@,
            "SEND"@,
            encoded_text(file_name@),
            kind.tag(),
            base64url_text(bytes@),
        ]);
        reveal_strlit("/LOCALATTACH");
        assert(is_word("/LOCALATTACH"@));
        reveal_strlit("SEND");
        assert(is_word("SEND"@));
        if file_name@.len() > 0 && bytes@.len() > 0 {
            lemma_base64url_chars(p[2]);
            kind.lemma_tag();
            lemma_base64url_chars(p[4]);
            assert forall|i: int| 0 <= i < p.len() implies is_word(#[trigger] p[i]) by {}
            lemma_words_spaced(p);
        }
    }
    join_strings(&parts, " ")
}

/// The attachment to be sent.
pub fn parse_local_attachment_send_line(line: &str) -> (out: Option<LocalAttachmentSend>)
    ensures
        match (out, local_attach_parts(line@)) {
            (Some(o), Some(v)) => o.file_name@ == v.0 && o.kind == v.1 && o.bytes@ == v.2,
            (None, None) => true,
            _ => false,
        },
{
    let w = split_words(line);
    assert(views(w@).len() == w@.len());
    if w.len() < 5 {
        return None;
    }
    proof {
        lemma_views(w@);
    }
    if !same_text(w[0].as_str(), "/LOCALATTACH") || !same_text(w[1].as_str(), "SEND") {
        return None;
    }
    let file_name = match decode_text(w[2].as_str()) {
        Some(x) => x,
        None => {
            return None;
        },
    };
    let kind = match AttachmentKind::from_protocol_tag(w[3].as_str()) {
        Some(x) => x,
        None => {
            return None;
        },
    };
    let bytes = match base64url_decode(w[4].as_str()) {
        Some(x) => x,
        None => {
            return None;
        },
    };
    Some(LocalAttachmentSend { file_name, kind, bytes })
}

} // verus!
