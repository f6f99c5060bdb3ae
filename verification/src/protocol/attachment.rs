//! Attachments on the wire: an announcement, then encrypted pieces.
use crate::crypto::aead::{chacha_open, chacha_opened, chacha_seal, sealable};
use crate::crypto::chain::{be_bytes, be_bytes_of};
use crate::crypto::epoch::{
    be_bytes4, be_bytes4_of, canonical, canonical_bytes, law_canonical_bytes_tell_fields_apart,
    lemma_be_bytes4_injective, slice_views,
};
use crate::crypto::transport::lemma_be_value;
use crate::outside::aead::chacha_sealed;
use crate::outside::encoding::{base64url_bytes, base64url_decode, base64url_encode, base64url_text};
use crate::util::codec::{
    decode_key32, decode_key8, decode_text, decoded_text, encode_text, encoded_text, join_strings,
    lemma_base64url_chars, lemma_words_spaced, sized, spaced,
};
use crate::util::text::{
    decimal, decimal_text, is_word, lemma_decimal, lemma_parse_decimal, lemma_views, parse_u64,
    parse_usize, read_u64, read_usize, same_text, split_words, starts_with, views, words,
};
use vstd::prelude::*;
use vstd::utf8::{encode_utf8, encode_utf8_decode_utf8};

verus! {

/// What an attachment is shown as.
#[derive(Debug, Clone, Copy, PartialEq, Eq, Structural)]
pub enum AttachmentKind {
    File,
    Image,
}

impl AttachmentKind {
    /// The word that stands for a kind.
    pub open spec fn tag(self) -> Seq<char> {
        match self {
            AttachmentKind::File => "file"@,
            AttachmentKind::Image => "image"@,
        }
    }

    /// The kind that a word stands for.
    pub open spec fn of_tag(tag: Seq<char>) -> Option<AttachmentKind> {
        if tag == "file"@ {
            Some(AttachmentKind::File)
        } else if tag == "image"@ {
            Some(AttachmentKind::Image)
        } else {
            None
        }
    }

    /// The word of a kind stands for that kind.
    pub proof fn lemma_tag(self)
        ensures
            is_word(self.tag()),
            AttachmentKind::of_tag(self.tag()) == Some(self),
    {
        reveal_strlit("file");
        reveal_strlit("image");
        assert("file"@.len() == 4);
        assert("image"@.len() == 5);
    }

    pub fn as_protocol_tag(self) -> (tag: &'static str)
        ensures
            tag@ == self.tag(),
    {
        match self {
            AttachmentKind::File => "file",
            AttachmentKind::Image => "image",
        }
    }

    pub fn from_protocol_tag(tag: &str) -> (kind: Option<AttachmentKind>)
        ensures
            kind == AttachmentKind::of_tag(tag@),
    {
        if same_text(tag, "file") {
            Some(AttachmentKind::File)
        } else if same_text(tag, "image") {
            Some(AttachmentKind::Image)
        } else {
            None
        }
    }
}

/// Why a piece of an attachment could not be sealed or opened.
#[derive(Debug, Clone, Copy, PartialEq, Eq, Structural)]
pub enum ChunkError {
    IndexTooLarge,
    SealFailed,
    OpenFailed,
}

impl ChunkError {
    pub open spec fn message_text(self) -> Seq<char> {
        match self {
            ChunkError::IndexTooLarge => "Attachment chunk index is too large"@,
            ChunkError::SealFailed => "Attachment chunk encryption failed"@,
            ChunkError::OpenFailed => "Attachment chunk authentication failed"@,
        }
    }

    /// The text shown to the user.
    pub fn message(self) -> (text: &'static str)
        ensures
            text@ == self.message_text(),
    {
        match self {
            ChunkError::IndexTooLarge => "Attachment chunk index is too large",
            ChunkError::SealFailed => "Attachment chunk encryption failed",
            ChunkError::OpenFailed => "Attachment chunk authentication failed",
        }
    }
}

/// The announcement of an attachment: what it is and how its pieces are encrypted.
#[derive(Debug)]
pub struct AttachmentMeta {
    pub group_id: String,
    pub epoch: u64,
    pub sender_id: String,
    pub transfer_id: String,
    pub kind: AttachmentKind,
    pub file_name: String,
    pub total_size: u64,
    pub total_chunks: usize,
    pub sha256_hex: String,
    pub file_key: [u8; 32],
    pub nonce_base: [u8; 8],
}

/// The announcement of an attachment.
#[verifier::ext_equal]
pub ghost struct MetaView {
    pub group_id: Seq<char>,
    pub epoch: u64,
    pub sender_id: Seq<char>,
    pub transfer_id: Seq<char>,
    pub kind: AttachmentKind,
    pub file_name: Seq<char>,
    pub total_size: u64,
    pub total_chunks: usize,
    pub sha256_hex: Seq<char>,
    pub file_key: Seq<u8>,
    pub nonce_base: Seq<u8>,
}

impl View for AttachmentMeta {
    type V = MetaView;

    open spec fn view(&self) -> MetaView {
        MetaView {
            group_id: self.group_id@,
            epoch: self.epoch,
            sender_id: self.sender_id@,
            transfer_id: self.transfer_id@,
            kind: self.kind,
            file_name: self.file_name@,
            total_size: self.total_size,
            total_chunks: self.total_chunks,
            sha256_hex: self.sha256_hex@,
            file_key: self.file_key@,
            nonce_base: self.nonce_base@,
        }
    }
}

impl Clone for AttachmentMeta {
    fn clone(&self) -> (copy: Self)
        ensures
            copy@ == self@,
    {
        AttachmentMeta {
            group_id: self.group_id.clone(),
            epoch: self.epoch,
            sender_id: self.sender_id.clone(),
            transfer_id: self.transfer_id.clone(),
            kind: self.kind,
            file_name: self.file_name.clone(),
            total_size: self.total_size,
            total_chunks: self.total_chunks,
            sha256_hex: self.sha256_hex.clone(),
            file_key: self.file_key,
            nonce_base: self.nonce_base,
        }
    }
}

/// An encrypted piece of an attachment.
#[derive(Debug)]
pub struct EncryptedAttachmentChunk {
    pub group_id: String,
    pub epoch: u64,
    pub sender_id: String,
    pub transfer_id: String,
    pub index: usize,
    pub total_chunks: usize,
    pub ciphertext: Vec<u8>,
}

/// An encrypted piece of an attachment.
#[verifier::ext_equal]
pub ghost struct ChunkView {
    pub group_id: Seq<char>,
    pub epoch: u64,
    pub sender_id: Seq<char>,
    pub transfer_id: Seq<char>,
    pub index: usize,
    pub total_chunks: usize,
    pub ciphertext: Seq<u8>,
}

impl View for EncryptedAttachmentChunk {
    type V = ChunkView;

    open spec fn view(&self) -> ChunkView {
        ChunkView {
            group_id: self.group_id@,
            epoch: self.epoch,
            sender_id: self.sender_id@,
            transfer_id: self.transfer_id@,
            index: self.index,
            total_chunks: self.total_chunks,
            ciphertext: self.ciphertext@,
        }
    }
}

impl Clone for EncryptedAttachmentChunk {
    fn clone(&self) -> (copy: Self)
        ensures
            copy@ == self@,
    {
        EncryptedAttachmentChunk {
            group_id: self.group_id.clone(),
            epoch: self.epoch,
            sender_id: self.sender_id.clone(),
            transfer_id: self.transfer_id.clone(),
            index: self.index,
            total_chunks: self.total_chunks,
            ciphertext: self.ciphertext.clone(),
        }
    }
}

/// A line about an attachment.
#[derive(Debug)]
pub enum AttachmentFrame {
    Meta(AttachmentMeta),
    EncryptedChunk(EncryptedAttachmentChunk),
}

/// A line about an attachment.
pub ghost enum FrameView {
    Meta(MetaView),
    EncryptedChunk(ChunkView),
}

impl View for AttachmentFrame {
    type V = FrameView;

    open spec fn view(&self) -> FrameView {
        match self {
            AttachmentFrame::Meta(meta) => FrameView::Meta(meta@),
            AttachmentFrame::EncryptedChunk(chunk) => FrameView::EncryptedChunk(chunk@),
        }
    }
}

impl Clone for AttachmentFrame {
    fn clone(&self) -> (copy: Self)
        ensures
            copy@ == self@,
    {
        match self {
            AttachmentFrame::Meta(meta) => AttachmentFrame::Meta(meta.clone()),
            AttachmentFrame::EncryptedChunk(chunk) => AttachmentFrame::EncryptedChunk(chunk.clone()),
        }
    }
}

/// The announcement of an attachment.
pub open spec fn manifest2_line(
    group_id: Seq<char>,
    epoch: u64,
    sender_id: Seq<char>,
    transfer_id: Seq<char>,
    kind: AttachmentKind,
    file_name: Seq<char>,
    total_size: u64,
    total_chunks: usize,
    sha256_hex: Seq<char>,
    file_key: Seq<u8>,
    nonce_base: Seq<u8>,
) -> Seq<char> {
    spaced(seq![
        "/FILEMANIFEST2"@,
        encoded_text(group_id),
        decimal(epoch as nat),
        encoded_text(sender_id),
        transfer_id,
        kind.tag(),
        encoded_text(file_name),
        decimal(total_size as nat),
        decimal(total_chunks as nat),
        sha256_hex,
        base64url_text(file_key),
        base64url_text(nonce_base),
    ])
}

/// The fields of an announcement.
pub open spec fn manifest2_parts(
    line: Seq<char>,
) -> Option<
    (
        Seq<char>,
        u64,
        Seq<char>,
        Seq<char>,
        AttachmentKind,
        Seq<char>,
        u64,
        usize,
        Seq<char>,
        Seq<u8>,
        Seq<u8>,
    ),
> {
    let w = words(line);
    if w.len() < 12 || w[0] != "/FILEMANIFEST2"@ {
        None
    } else {
        let group_id = decoded_text(w[1]);
        let epoch = read_u64(w[2]);
        let sender_id = decoded_text(w[3]);
        let transfer_id = w[4];
        let kind = AttachmentKind::of_tag(w[5]);
        let file_name = decoded_text(w[6]);
        let total_size = read_u64(w[7]);
        let total_chunks = read_usize(w[8]);
        let sha256_hex = w[9];
        let file_key = sized(base64url_bytes(w[10]), 32);
        let nonce_base = sized(base64url_bytes(w[11]), 8);
        if group_id is Some && epoch is Some && sender_id is Some && kind is Some
            && file_name is Some && total_size is Some && total_chunks is Some && file_key is Some
            && nonce_base is Some {
            Some(
                (
                    group_id->0,
                    epoch->0,
                    sender_id->0,
                    transfer_id,
                    kind->0,
                    file_name->0,
                    total_size->0,
                    total_chunks->0,
                    sha256_hex,
                    file_key->0,
                    nonce_base->0,
                ),
            )
        } else {
            None
        }
    }
}

/// The announcement of an attachment.
fn manifest2_text(
    group_id: &str,
    epoch: u64,
    sender_id: &str,
    transfer_id: &str,
    kind: AttachmentKind,
    file_name: &str,
    total_size: u64,
    total_chunks: usize,
    sha256_hex: &str,
    file_key: &[u8; 32],
    nonce_base: &[u8; 8],
) -> (line: String)
    ensures
        line@ == manifest2_line(
            group_id@,
            epoch,
            sender_id@,
            transfer_id@,
            kind,
            file_name@,
            total_size,
            total_chunks,
            sha256_hex@,
            file_key@,
            nonce_base@,
        ),
        group_id@.len() > 0 && sender_id@.len() > 0 && is_word(transfer_id@) && file_name@.len() > 0
            && is_word(sha256_hex@)
            ==> manifest2_parts(line@) == Some(
                (
                    group_id@,
                    epoch,
                    sender_id@,
                    transfer_id@,
                    kind,
                    file_name@,
                    total_size,
                    total_chunks,
                    sha256_hex@,
                    file_key@,
                    nonce_base@,
                ),
            ),
{
    let mut parts: Vec<String> = Vec::new();
    parts.push("/FILEMANIFEST2".to_owned());
    parts.push(encode_text(group_id));
    parts.push(decimal_text(epoch));
    parts.push(encode_text(sender_id));
    parts.push(transfer_id.to_owned());
    parts.push(kind.as_protocol_tag().to_owned());
    parts.push(encode_text(file_name));
    parts.push(decimal_text(total_size));
    parts.push(decimal_text(total_chunks as u64));
    parts.push(sha256_hex.to_owned());
    parts.push(base64url_encode(file_key.as_slice()));
    parts.push(base64url_encode(nonce_base.as_slice()));
    proof {
        let p = views(parts@);
        assert(p =~= seq![
            "/FILEMANIFEST2"@,
            encoded_text(group_id@),
            decimal(epoch as nat),
            encoded_text(sender_id@),
            transfer_id@,
            kind.tag(),
            encoded_text(file_name@),
            decimal(total_size as nat),
            decimal(total_chunks as nat),
            sha256_hex@,
            base64url_text(file_key@),
            base64url_text(nonce_base@),
        ]);
        reveal_strlit("/FILEMANIFEST2");
        assert(is_word("/FILEMANIFEST2"@));
        if group_id@.len() > 0 && sender_id@.len() > 0 && is_word(transfer_id@)
            && file_name@.len() > 0 && is_word(sha256_hex@) {
            lemma_base64url_chars(p[1]);
            lemma_decimal(epoch as nat);
            lemma_parse_decimal(epoch as nat, u64::MAX as nat);
            lemma_base64url_chars(p[3]);
            kind.lemma_tag();
            lemma_base64url_chars(p[6]);
            lemma_decimal(total_size as nat);
            lemma_parse_decimal(total_size as nat, u64::MAX as nat);
            lemma_decimal(total_chunks as nat);
            lemma_parse_decimal(total_chunks as nat, usize::MAX as nat);
            lemma_base64url_chars(p[10]);
            lemma_base64url_chars(p[11]);
            assert forall|i: int| 0 <= i < p.len() implies is_word(#[trigger] p[i]) by {}
            lemma_words_spaced(p);
        }
    }
    join_strings(&parts, " ")
}

/// The fields of an announcement.
fn parse_manifest2(line: &str) -> (out: Option<AttachmentMeta>)
    ensures
        match (out, manifest2_parts(line@)) {
            (Some(o), Some(v)) => o.group_id@ == v.0 && o.epoch == v.1 && o.sender_id@ == v.2
                && o.transfer_id@ == v.3 && o.kind == v.4 && o.file_name@ == v.5
                && o.total_size == v.6 && o.total_chunks == v.7 && o.sha256_hex@ == v.8
                && o.file_key@ == v.9 && o.nonce_base@ == v.10,
            (None, None) => true,
            _ => false,
        },
{
    let w = split_words(line);
    assert(views(w@).len() == w@.len());
    if w.len() < 12 {
        return None;
    }
    proof {
        lemma_views(w@);
    }
    if !same_text(w[0].as_str(), "/FILEMANIFEST2") {
        return None;
    }
    let group_id = match decode_text(w[1].as_str()) {
        Some(x) => x,
        None => {
            return None;
        },
    };
    let epoch: u64 = match parse_u64(w[2].as_str()) {
        Some(x) => x,
        None => {
            return None;
        },
    };
    let sender_id = match decode_text(w[3].as_str()) {
        Some(x) => x,
        None => {
            return None;
        },
    };
    let transfer_id = w[4].clone();
    let kind = match AttachmentKind::from_protocol_tag(w[5].as_str()) {
        Some(x) => x,
        None => {
            return None;
        },
    };
    let file_name = match decode_text(w[6].as_str()) {
        Some(x) => x,
        None => {
            return None;
        },
    };
    let total_size: u64 = match parse_u64(w[7].as_str()) {
        Some(x) => x,
        None => {
            return None;
        },
    };
    let total_chunks: usize = match parse_usize(w[8].as_str()) {
        Some(x) => x,
        None => {
            return None;
        },
    };
    let sha256_hex = w[9].clone();
    let file_key = match decode_key32(w[10].as_str()) {
        Some(x) => x,
        None => {
            return None;
        },
    };
    let nonce_base = match decode_key8(w[11].as_str()) {
        Some(x) => x,
        None => {
            return None;
        },
    };
    Some(
        AttachmentMeta {
            group_id,
            epoch,
            sender_id,
            transfer_id,
            kind,
            file_name,
            total_size,
            total_chunks,
            sha256_hex,
            file_key,
            nonce_base,
        },
    )
}

/// One encrypted piece of an attachment.
pub open spec fn chunk2_line(
    group_id: Seq<char>,
    epoch: u64,
    sender_id: Seq<char>,
    transfer_id: Seq<char>,
    index: usize,
    total_chunks: usize,
    ciphertext: Seq<u8>,
) -> Seq<char> {
    spaced(seq![
        "/FILECHUNK2"@,
        encoded_text(group_id),
        decimal(epoch as nat),
        encoded_text(sender_id),
        transfer_id,
        decimal(index as nat),
        decimal(total_chunks as nat),
        base64url_text(ciphertext),
    ])
}

/// The fields of an encrypted piece.
pub open spec fn chunk2_parts(
    line: Seq<char>,
) -> Option<(Seq<char>, u64, Seq<char>, Seq<char>, usize, usize, Seq<u8>)> {
    let w = words(line);
    if w.len() < 8 || w[0] != "/FILECHUNK2"@ {
        None
    } else {
        let group_id = decoded_text(w[1]);
        let epoch = read_u64(w[2]);
        let sender_id = decoded_text(w[3]);
        let transfer_id = w[4];
        let index = read_usize(w[5]);
        let total_chunks = read_usize(w[6]);
        let ciphertext = base64url_bytes(w[7]);
        if group_id is Some && epoch is Some && sender_id is Some && index is Some
            && total_chunks is Some && ciphertext is Some {
            Some(
                (
                    group_id->0,
                    epoch->0,
                    sender_id->0,
                    transfer_id,
                    index->0,
                    total_chunks->0,
                    ciphertext->0,
                ),
            )
        } else {
            None
        }
    }
}

/// One encrypted piece of an attachment.
fn chunk2_text(
    group_id: &str,
    epoch: u64,
    sender_id: &str,
    transfer_id: &str,
    index: usize,
    total_chunks: usize,
    ciphertext: &[u8],
) -> (line: String)
    ensures
        line@ == chunk2_line(
            group_id@,
            epoch,
            sender_id@,
            transfer_id@,
            index,
            total_chunks,
            ciphertext@,
        ),
        group_id@.len() > 0 && sender_id@.len() > 0 && is_word(transfer_id@)
            && ciphertext@.len() > 0
            ==> chunk2_parts(line@) == Some(
                (group_id@, epoch, sender_id@, transfer_id@, index, total_chunks, ciphertext@),
            ),
{
    let mut parts: Vec<String> = Vec::new();
    parts.push("/FILECHUNK2".to_owned());
    parts.push(encode_text(group_id));
    parts.push(decimal_text(epoch));
    parts.push(encode_text(sender_id));
    parts.push(transfer_id.to_owned());
    parts.push(decimal_text(index as u64));
    parts.push(decimal_text(total_chunks as u64));
    parts.push(base64url_encode(ciphertext));
    proof {
        let p = views(parts@);
        assert(p =~= seq![
            "/FILECHUNK2"@,
            encoded_text(group_id@),
            decimal(epoch as nat),
            encoded_text(sender_id@),
            transfer_id@,
            decimal(index as nat),
            decimal(total_chunks as nat),
            base64url_text(ciphertext@),
        ]);
        reveal_strlit("/FILECHUNK2");
        assert(is_word("/FILECHUNK2"@));
        if group_id@.len() > 0 && sender_id@.len() > 0 && is_word(transfer_id@)
            && ciphertext@.len() > 0 {
            lemma_base64url_chars(p[1]);
            lemma_decimal(epoch as nat);
            lemma_parse_decimal(epoch as nat, u64::MAX as nat);
            lemma_base64url_chars(p[3]);
            lemma_decimal(index as nat);
            lemma_parse_decimal(index as nat, usize::MAX as nat);
            lemma_decimal(total_chunks as nat);
            lemma_parse_decimal(total_chunks as nat, usize::MAX as nat);
            lemma_base64url_chars(p[7]);
            assert forall|i: int| 0 <= i < p.len() implies is_word(#[trigger] p[i]) by {}
            lemma_words_spaced(p);
        }
    }
    join_strings(&parts, " ")
}

/// The fields of an encrypted piece.
fn parse_chunk2(line: &str) -> (out: Option<EncryptedAttachmentChunk>)
    ensures
        match (out, chunk2_parts(line@)) {
            (Some(o), Some(v)) => o.group_id@ == v.0 && o.epoch == v.1 && o.sender_id@ == v.2
                && o.transfer_id@ == v.3 && o.index == v.4 && o.total_chunks == v.5
                && o.ciphertext@ == v.6,
            (None, None) => true,
            _ => false,
        },
{
    let w = split_words(line);
    assert(views(w@).len() == w@.len());
    if w.len() < 8 {
        return None;
    }
    proof {
        lemma_views(w@);
    }
    if !same_text(w[0].as_str(), "/FILECHUNK2") {
        return None;
    }
    let group_id = match decode_text(w[1].as_str()) {
        Some(x) => x,
        None => {
            return None;
        },
    };
    let epoch: u64 = match parse_u64(w[2].as_str()) {
        Some(x) => x,
        None => {
            return None;
        },
    };
    let sender_id = match decode_text(w[3].as_str()) {
        Some(x) => x,
        None => {
            return None;
        },
    };
    let transfer_id = w[4].clone();
    let index: usize = match parse_usize(w[5].as_str()) {
        Some(x) => x,
        None => {
            return None;
        },
    };
    let total_chunks: usize = match parse_usize(w[6].as_str()) {
        Some(x) => x,
        None => {
            return None;
        },
    };
    let ciphertext = match base64url_decode(w[7].as_str()) {
        Some(x) => x,
        None => {
            return None;
        },
    };
    Some(
        EncryptedAttachmentChunk {
            group_id,
            epoch,
            sender_id,
            transfer_id,
            index,
            total_chunks,
            ciphertext,
        },
    )
}

/// The line about an attachment that a text is.
pub open spec fn frame_of(line: Seq<char>) -> Option<FrameView> {
    match manifest2_parts(line) {
        Some(v) => Some(
            FrameView::Meta(
                MetaView {
                    group_id: v.0,
                    epoch: v.1,
                    sender_id: v.2,
                    transfer_id: v.3,
                    kind: v.4,
                    file_name: v.5,
                    total_size: v.6,
                    total_chunks: v.7,
                    sha256_hex: v.8,
                    file_key: v.9,
                    nonce_base: v.10,
                },
            ),
        ),
        None => match chunk2_parts(line) {
            Some(v) => Some(
                FrameView::EncryptedChunk(
                    ChunkView {
                        group_id: v.0,
                        epoch: v.1,
                        sender_id: v.2,
                        transfer_id: v.3,
                        index: v.4,
                        total_chunks: v.5,
                        ciphertext: v.6,
                    },
                ),
            ),
            None => None,
        },
    }
}

/// Reads a line about an attachment.
pub fn parse_attachment_frame(body: &str) -> (frame: Option<AttachmentFrame>)
    ensures
        match (frame, frame_of(body@)) {
            (Some(f), Some(v)) => f@ == v,
            (None, None) => true,
            _ => false,
        },
{
    match parse_manifest2(body) {
        Some(meta) => {
            return Some(AttachmentFrame::Meta(meta));
        },
        None => {},
    }
    match parse_chunk2(body) {
        Some(chunk) => Some(AttachmentFrame::EncryptedChunk(chunk)),
        None => None,
    }
}

/// Whether a line is about an attachment.
pub fn is_attachment_protocol_line(line: &str) -> (yes: bool)
    ensures
        yes == ("/FILEMANIFEST2 "@.is_prefix_of(line@) || "/FILECHUNK2 "@.is_prefix_of(line@)),
{
    starts_with(line, "/FILEMANIFEST2 ") || starts_with(line, "/FILECHUNK2 ")
}

/// Announces an attachment. The line can be read back.
pub fn build_file_manifest2_line(
    group_id: &str,
    epoch: u64,
    sender_id: &str,
    transfer_id: &str,
    kind: AttachmentKind,
    file_name: &str,
    total_size: u64,
    total_chunks: usize,
    sha256_hex: &str,
    file_key: &[u8; 32],
    nonce_base: &[u8; 8],
) -> (out: Result<String, ChunkError>)
    ensures
        out matches Ok(line) && line@ == manifest2_line(
            group_id@,
            epoch,
            sender_id@,
            transfer_id@,
            kind,
            file_name@,
            total_size,
            total_chunks,
            sha256_hex@,
            file_key@,
            nonce_base@,
        ),
        out matches Ok(line) && (group_id@.len() > 0 && sender_id@.len() > 0 && is_word(
            transfer_id@,
        ) && file_name@.len() > 0 && is_word(sha256_hex@)
            ==> frame_of(line@) == Some(
            FrameView::Meta(
                MetaView {
                    group_id: group_id@,
                    epoch: epoch,
                    sender_id: sender_id@,
                    transfer_id: transfer_id@,
                    kind: kind,
                    file_name: file_name@,
                    total_size: total_size,
                    total_chunks: total_chunks,
                    sha256_hex: sha256_hex@,
                    file_key: file_key@,
                    nonce_base: nonce_base@,
                },
            ),
        )),
{
    Ok(
        manifest2_text(
            group_id,
            epoch,
            sender_id,
            transfer_id,
            kind,
            file_name,
            total_size,
            total_chunks,
            sha256_hex,
            file_key,
            nonce_base,
        ),
    )
}

/// The nonce of a piece: the base, then the number of the piece.
pub open spec fn chunk_nonce(base: Seq<u8>, index: u32) -> Seq<u8> {
    base + be_bytes4(index)
}

/// What the encryption of a piece binds it to.
pub open spec fn chunk_aad(
    group_id: Seq<char>,
    epoch: u64,
    sender_id: Seq<char>,
    transfer_id: Seq<char>,
    index: usize,
    total_chunks: usize,
) -> Seq<u8> {
    canonical(
        seq![
            encode_utf8(group_id),
            be_bytes(epoch),
            encode_utf8(sender_id),
            encode_utf8(transfer_id),
            be_bytes(index as u64),
            be_bytes(total_chunks as u64),
        ],
    )
}

fn chunk_aad_of(
    group_id: &str,
    epoch: u64,
    sender_id: &str,
    transfer_id: &str,
    index: usize,
    total_chunks: usize,
) -> (aad: Vec<u8>)
    ensures
        aad@ == chunk_aad(group_id@, epoch, sender_id@, transfer_id@, index, total_chunks),
{
    let epoch_bytes = be_bytes_of(epoch);
    let index_bytes = be_bytes_of(index as u64);
    let total_bytes = be_bytes_of(total_chunks as u64);
    let mut fields: Vec<&[u8]> = Vec::new();
    fields.push(group_id.as_bytes());
    fields.push(epoch_bytes.as_slice());
    fields.push(sender_id.as_bytes());
    fields.push(transfer_id.as_bytes());
    fields.push(index_bytes.as_slice());
    fields.push(total_bytes.as_slice());
    assert(slice_views(fields@) =~= seq![
        encode_utf8(group_id@),
        be_bytes(epoch),
        encode_utf8(sender_id@),
        encode_utf8(transfer_id@),
        be_bytes(index as u64),
        be_bytes(total_chunks as u64),
    ]);
    canonical_bytes(&fields)
}

fn chunk_nonce_of(base: &[u8; 8], index: u32) -> (nonce: [u8; 12])
    ensures
        nonce@ == chunk_nonce(base@, index),
{
    let tail = be_bytes4_of(index);
    let nonce: [u8; 12] = [
        base[0],
        base[1],
        base[2],
        base[3],
        base[4],
        base[5],
        base[6],
        base[7],
        tail[0],
        tail[1],
        tail[2],
        tail[3],
    ];
    assert(nonce@ =~= chunk_nonce(base@, index));
    nonce
}

/// The bytes inside an encrypted piece.
pub open spec fn chunk_opened(chunk: ChunkView, key: Seq<u8>, base: Seq<u8>) -> Option<Seq<u8>> {
    if chunk.index > u32::MAX {
        None
    } else {
        chacha_opened(
            key,
            chunk_nonce(base, chunk.index as u32),
            chunk_aad(
                chunk.group_id,
                chunk.epoch,
                chunk.sender_id,
                chunk.transfer_id,
                chunk.index,
                chunk.total_chunks,
            ),
            chunk.ciphertext,
        )
    }
}

/// The encrypted form of a piece.
pub open spec fn chunk_sealed(
    group_id: Seq<char>,
    epoch: u64,
    sender_id: Seq<char>,
    transfer_id: Seq<char>,
    index: usize,
    total_chunks: usize,
    data: Seq<u8>,
    key: Seq<u8>,
    base: Seq<u8>,
) -> ChunkView {
    ChunkView {
        group_id,
        epoch,
        sender_id,
        transfer_id,
        index,
        total_chunks,
        ciphertext: chacha_sealed(
            key,
            chunk_nonce(base, index as u32),
            chunk_aad(group_id, epoch, sender_id, transfer_id, index, total_chunks),
            data,
        ),
    }
}

/// The line that carries an encrypted piece.
pub open spec fn chunk_view_line(chunk: ChunkView) -> Seq<char> {
    chunk2_line(
        chunk.group_id,
        chunk.epoch,
        chunk.sender_id,
        chunk.transfer_id,
        chunk.index,
        chunk.total_chunks,
        chunk.ciphertext,
    )
}

/// Encrypts a piece. What the line carries opens to the piece again.
pub fn build_file_chunk2_line(
    group_id: &str,
    epoch: u64,
    sender_id: &str,
    transfer_id: &str,
    index: usize,
    total_chunks: usize,
    data: &[u8],
    file_key: &[u8; 32],
    nonce_base: &[u8; 8],
) -> (out: Result<String, ChunkError>)
    ensures
        index > u32::MAX <==> out == Err::<String, ChunkError>(ChunkError::IndexTooLarge),
        index <= u32::MAX && !sealable(data@) <==> out == Err::<String, ChunkError>(
            ChunkError::SealFailed,
        ),
        out matches Ok(line) ==> {
            let sealed = chunk_sealed(
                group_id@,
                epoch,
                sender_id@,
                transfer_id@,
                index,
                total_chunks,
                data@,
                file_key@,
                nonce_base@,
            );
            &&& line@ == chunk_view_line(sealed)
            &&& chunk_opened(sealed, file_key@, nonce_base@) == Some(data@)
            &&& group_id@.len() > 0 && sender_id@.len() > 0 && is_word(transfer_id@)
                ==> chunk2_parts(line@) == Some(
                (
                    sealed.group_id,
                    sealed.epoch,
                    sealed.sender_id,
                    sealed.transfer_id,
                    sealed.index,
                    sealed.total_chunks,
                    sealed.ciphertext,
                ),
            )
            &&& group_id@.len() > 0 && sender_id@.len() > 0 && is_word(transfer_id@) ==> frame_of(
                line@,
            ) == Some(FrameView::EncryptedChunk(sealed))
        },
        !(out matches Err(ChunkError::OpenFailed)),
{
    if index > u32::MAX as usize {
        return Err(ChunkError::IndexTooLarge);
    }
    let nonce = chunk_nonce_of(nonce_base, index as u32);
    let aad = chunk_aad_of(group_id, epoch, sender_id, transfer_id, index, total_chunks);
    match chacha_seal(file_key, &nonce, aad.as_slice(), data) {
        None => Err(ChunkError::SealFailed),
        Some(ciphertext) => {
            let line = chunk2_text(
                group_id,
                epoch,
                sender_id,
                transfer_id,
                index,
                total_chunks,
                ciphertext.as_slice(),
            );
            proof {
                if group_id@.len() > 0 && sender_id@.len() > 0 && is_word(transfer_id@) {
                    reveal_strlit("/FILECHUNK2");
                    reveal_strlit("/FILEMANIFEST2");
                    assert("/FILECHUNK2"@.len() == 11);
                    assert("/FILEMANIFEST2"@.len() == 14);
                    assert(words(line@)[0] == "/FILECHUNK2"@);
                }
            }
            Ok(line)
        },
    }
}

/// Decrypts a piece.
pub fn decrypt_file_chunk2(
    chunk: &EncryptedAttachmentChunk,
    file_key: &[u8; 32],
    nonce_base: &[u8; 8],
) -> (out: Result<Vec<u8>, ChunkError>)
    ensures
        match (out, chunk_opened(chunk@, file_key@, nonce_base@)) {
            (Ok(data), Some(v)) => data@ == v,
            (Err(e), None) => e == (if chunk.index > u32::MAX {
                ChunkError::IndexTooLarge
            } else {
                ChunkError::OpenFailed
            }),
            _ => false,
        },
{
    if chunk.index > u32::MAX as usize {
        return Err(ChunkError::IndexTooLarge);
    }
    let nonce = chunk_nonce_of(nonce_base, chunk.index as u32);
    let aad = chunk_aad_of(
        chunk.group_id.as_str(),
        chunk.epoch,
        chunk.sender_id.as_str(),
        chunk.transfer_id.as_str(),
        chunk.index,
        chunk.total_chunks,
    );
    match chacha_open(file_key, &nonce, aad.as_slice(), chunk.ciphertext.as_slice()) {
        Some(data) => Ok(data),
        None => Err(ChunkError::OpenFailed),
    }
}

/// Different pieces of an attachment have different nonces.
pub proof fn law_chunk_nonces_differ(base: Seq<u8>, i: u32, j: u32)
    requires
        i != j,
    ensures
        chunk_nonce(base, i) != chunk_nonce(base, j),
{
    assert(chunk_nonce(base, i).skip(base.len() as int) =~= be_bytes4(i));
    assert(chunk_nonce(base, j).skip(base.len() as int) =~= be_bytes4(j));
    if be_bytes4(i) == be_bytes4(j) {
        lemma_be_bytes4_injective(i, j);
    }
}

/// A piece is bound to its group, epoch, sender, transfer and place: where one of them differs, so
/// does the data that is authenticated with it.
pub proof fn law_chunk_is_bound_to_its_place(
    group_id: Seq<char>,
    epoch: u64,
    sender_id: Seq<char>,
    transfer_id: Seq<char>,
    index: usize,
    total_chunks: usize,
    group_id2: Seq<char>,
    epoch2: u64,
    sender_id2: Seq<char>,
    transfer_id2: Seq<char>,
    index2: usize,
    total_chunks2: usize,
)
    requires
        encode_utf8(group_id).len() <= u64::MAX,
        encode_utf8(sender_id).len() <= u64::MAX,
        encode_utf8(transfer_id).len() <= u64::MAX,
        encode_utf8(group_id2).len() <= u64::MAX,
        encode_utf8(sender_id2).len() <= u64::MAX,
        encode_utf8(transfer_id2).len() <= u64::MAX,
        chunk_aad(group_id, epoch, sender_id, transfer_id, index, total_chunks) == chunk_aad(
            group_id2,
            epoch2,
            sender_id2,
            transfer_id2,
            index2,
            total_chunks2,
        ),
    ensures
        group_id == group_id2,
        epoch == epoch2,
        sender_id == sender_id2,
        transfer_id == transfer_id2,
        index == index2,
        total_chunks == total_chunks2,
{
    let a = seq![
        encode_utf8(group_id),
        be_bytes(epoch),
        encode_utf8(sender_id),
        encode_utf8(transfer_id),
        be_bytes(index as u64),
        be_bytes(total_chunks as u64),
    ];
    let b = seq![
        encode_utf8(group_id2),
        be_bytes(epoch2),
        encode_utf8(sender_id2),
        encode_utf8(transfer_id2),
        be_bytes(index2 as u64),
        be_bytes(total_chunks2 as u64),
    ];
    law_canonical_bytes_tell_fields_apart(a, b);
    assert(a[0] == b[0] && a[1] == b[1] && a[2] == b[2] && a[3] == b[3] && a[4] == b[4] && a[5]
        == b[5]);
    encode_utf8_decode_utf8(group_id);
    encode_utf8_decode_utf8(group_id2);
    encode_utf8_decode_utf8(sender_id);
    encode_utf8_decode_utf8(sender_id2);
    encode_utf8_decode_utf8(transfer_id);
    encode_utf8_decode_utf8(transfer_id2);
    lemma_be_value(epoch);
    lemma_be_value(epoch2);
    lemma_be_value(index as u64);
    lemma_be_value(index2 as u64);
    lemma_be_value(total_chunks as u64);
    lemma_be_value(total_chunks2 as u64);
}

} // verus!
