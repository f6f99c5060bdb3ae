//! Sending attachments: an announcement first, then pieces, a few of them under way at a time.
use crate::attachments::kind::{kind_of, kind_of_file};
use crate::attachments::receiver::whole;
use crate::crypto::aead::sealable;
use crate::crypto::error::CryptoError;
use crate::crypto::group::{encrypted, GroupCryptoState, GroupView};
use crate::crypto::messages::{message_tree, SecureMessageType};
use crate::crypto::secure::encrypt_message_at;
use crate::outside::digest::{sha256, sha256_digest};
use crate::outside::encoding::{hex_encode, hex_text};
use crate::outside::json::json_bytes;
use crate::outside::path::path_file_name;
use crate::outside::random::{fresh_id, lower_hex, random_bytes, random_bytes32};
use crate::protocol::attachment::{
    build_file_chunk2_line, build_file_manifest2_line, chunk_sealed, chunk_view_line,
    manifest2_line, AttachmentKind, ChunkError,
};
use crate::protocol::line::{build_rmsg_line, tagged_line};
use crate::protocol::local_event::{
    build_local_echo_attachment_line, build_local_notice_line, build_local_transfer_begin_line,
    build_local_transfer_done_line, build_local_transfer_failed_line,
    build_local_transfer_progress_line, echo_attachment_line, local_event_of, transfer_begin_line,
    transfer_done_line, transfer_failed_line, transfer_progress_line, LocalEventView,
};
use crate::transport::packet::{AckRegistry, AckView, PACKET_ACK_TIMEOUT_MS, PACKET_RETRY_LIMIT};
use crate::util::path::{may_be_name, name_or_default, named_or_default};
use crate::util::text::{decimal, decimal_text, joined, opt_text, views};
use vstd::prelude::*;
use vstd::utf8::encode_utf8;

verus! {

/// How long a piece of an attachment is; the last may be shorter.
pub const ATTACHMENT_CHUNK_SIZE: usize = 32768;

/// How many pieces are under way at a time.
pub const ATTACHMENT_WINDOW_SIZE: usize = 3;

/// How often a packet is sent at most.
pub open spec fn max_attempts() -> int {
    PACKET_RETRY_LIMIT + 1
}

/// How many pieces a number of bytes makes.
pub open spec fn chunk_count(size: nat) -> nat {
    if size == 0 {
        0
    } else {
        ((size - 1) / (ATTACHMENT_CHUNK_SIZE as int) + 1) as nat
    }
}

/// The piece `i` of an attachment.
pub open spec fn piece(bytes: Seq<u8>, i: int) -> Seq<u8> {
    let from = i * ATTACHMENT_CHUNK_SIZE;
    let to = from + ATTACHMENT_CHUNK_SIZE;
    bytes.subrange(
        from,
        if to < bytes.len() {
            to
        } else {
            bytes.len() as int
        },
    )
}

/// The first `n` pieces of an attachment, all of them there.
pub open spec fn pieces(bytes: Seq<u8>, n: nat) -> Seq<Option<Seq<u8>>> {
    Seq::new(n, |i: int| Some(piece(bytes, i)))
}

proof fn lemma_pieces(bytes: Seq<u8>, n: nat)
    requires
        n <= chunk_count(bytes.len()),
    ensures
        whole(pieces(bytes, n)) == bytes.take(
            if n * ATTACHMENT_CHUNK_SIZE < bytes.len() {
                n * ATTACHMENT_CHUNK_SIZE
            } else {
                bytes.len() as int
            },
        ),
    decreases n,
{
    if n == 0 {
        assert(pieces(bytes, 0) =~= Seq::<Option<Seq<u8>>>::empty());
        assert(bytes.take(0) =~= Seq::<u8>::empty());
    } else {
        let m = (n - 1) as nat;
        lemma_pieces(bytes, m);
        assert(pieces(bytes, n).drop_last() =~= pieces(bytes, m));
        assert(pieces(bytes, n).last() == Some(piece(bytes, m as int)));
        assert(m * ATTACHMENT_CHUNK_SIZE < bytes.len());
        let to = if n * ATTACHMENT_CHUNK_SIZE < bytes.len() {
            n * ATTACHMENT_CHUNK_SIZE
        } else {
            bytes.len() as int
        };
        assert(bytes.take(m * ATTACHMENT_CHUNK_SIZE) + bytes.subrange(
            m * ATTACHMENT_CHUNK_SIZE,
            to,
        ) =~= bytes.take(to));
    }
}

/// The pieces of an attachment, put together, are the attachment.
pub proof fn law_pieces_make_the_whole(bytes: Seq<u8>)
    ensures
        whole(pieces(bytes, chunk_count(bytes.len()))) == bytes,
{
    lemma_pieces(bytes, chunk_count(bytes.len()));
    assert(bytes.take(bytes.len() as int) =~= bytes);
}

/// Every piece but the last has the full length, and none is empty.
pub proof fn law_pieces_are_full(bytes: Seq<u8>, i: int)
    requires
        0 <= i < chunk_count(bytes.len()),
    ensures
        0 < piece(bytes, i).len() <= ATTACHMENT_CHUNK_SIZE,
        i + 1 < chunk_count(bytes.len()) ==> piece(bytes, i).len() == ATTACHMENT_CHUNK_SIZE,
{
}

/// How many pieces a number of bytes makes.
pub fn chunk_count_of(size: usize) -> (n: usize)
    ensures
        n == chunk_count(size as nat),
{
    if size == 0 {
        0
    } else {
        (size - 1) / ATTACHMENT_CHUNK_SIZE + 1
    }
}

/// Which group and epoch an attachment is sent in, and by whom.
#[derive(Debug)]
pub struct AttachmentContext {
    pub group_id: String,
    pub epoch: u64,
    pub sender_id: String,
}

/// Which group and epoch an attachment is sent in, and by whom.
#[verifier::ext_equal]
pub ghost struct SendContext {
    pub group_id: Seq<char>,
    pub epoch: u64,
    pub sender_id: Seq<char>,
}

impl View for AttachmentContext {
    type V = SendContext;

    open spec fn view(&self) -> SendContext {
        SendContext { group_id: self.group_id@, epoch: self.epoch, sender_id: self.sender_id@ }
    }
}

/// A piece that is under way.
#[derive(Debug)]
pub struct InFlightChunk {
    pub packet_id: String,
    pub chunk_line: String,
    pub chunk_index: usize,
    pub attempts: usize,
    /// When it was last sent, in milliseconds.
    pub last_sent_at: u64,
}

/// A piece that is under way.
#[verifier::ext_equal]
pub ghost struct FlightView {
    pub packet_id: Seq<char>,
    pub chunk_line: Seq<char>,
    pub chunk_index: usize,
    pub attempts: usize,
    pub last_sent_at: u64,
}

impl View for InFlightChunk {
    type V = FlightView;

    open spec fn view(&self) -> FlightView {
        FlightView {
            packet_id: self.packet_id@,
            chunk_line: self.chunk_line@,
            chunk_index: self.chunk_index,
            attempts: self.attempts,
            last_sent_at: self.last_sent_at,
        }
    }
}

pub open spec fn flight_views(v: Seq<InFlightChunk>) -> Seq<FlightView> {
    v.map_values(|c: InFlightChunk| c@)
}

/// Where the bytes of an attachment come from.
#[derive(Debug)]
pub enum AttachmentSource {
    File { path: String },
    Memory { bytes: Vec<u8>, offset: usize },
}

/// How much of what remains in memory fits.
pub open spec fn read_len(len: nat, offset: nat, room: nat) -> nat {
    let remaining = (len - offset) as nat;
    if remaining < room {
        remaining
    } else {
        room
    }
}

impl AttachmentSource {
    /// What has been read lies within the bytes.
    pub open spec fn wf(&self) -> bool {
        match self {
            AttachmentSource::File { .. } => true,
            AttachmentSource::Memory { bytes, offset } => *offset <= bytes@.len(),
        }
    }

    /// Reads on from memory into a buffer: how many bytes were read. Bytes on disk are read
    /// elsewhere.
    pub fn read_chunk(&mut self, buf: &mut [u8]) -> (read: Option<usize>)
        requires
            old(self).wf(),
        ensures
            final(self).wf(),
            final(buf)@.len() == old(buf)@.len(),
            match (*old(self), read) {
                (AttachmentSource::Memory { bytes, offset }, Some(n)) => {
                    &&& n == read_len(bytes@.len(), offset as nat, old(buf)@.len())
                    &&& final(buf)@ == bytes@.subrange(offset as int, offset + n) + old(buf)@.skip(
                        n as int,
                    )
                    &&& *final(self) matches AttachmentSource::Memory { bytes: b2, offset: o2 }
                    &&& b2@ == bytes@
                    &&& o2 == offset + n
                },
                (AttachmentSource::File { .. }, None) => *final(self) == *old(self) && final(buf)@
                    == old(buf)@,
                _ => false,
            },
    {
        match self {
            AttachmentSource::File { .. } => None,
            AttachmentSource::Memory { bytes, offset } => {
                let len: usize = bytes.len();
                let remaining: usize = len - *offset;
                let read: usize = if remaining < buf.len() {
                    remaining
                } else {
                    buf.len()
                };
                let ghost b0 = buf@;
                let ghost from = *offset as int;
                let start: usize = *offset;
                let mut i: usize = 0;
                while i < read
                    invariant
                        i <= read,
                        buf@.len() == b0.len(),
                        read <= b0.len(),
                        start == from,
                        from + read <= bytes@.len(),
                        len == bytes@.len(),
                        buf@ == bytes@.subrange(from, from + i) + b0.skip(i as int),
                    decreases read - i,
                {
                    buf[i] = bytes[start + i];
                    assert(buf@ =~= bytes@.subrange(from, from + i + 1) + b0.skip(i + 1));
                    i += 1;
                }
                assert(read == 0 ==> buf@ =~= bytes@.subrange(from, from + 0) + b0.skip(0));
                *offset = start + read;
                Some(read)
            },
        }
    }
}

/// An attachment that waits to be sent.
#[derive(Debug)]
pub enum QueuedAttachment {
    Path(String),
    Memory { file_name: String, bytes: Vec<u8>, kind: AttachmentKind },
}

impl QueuedAttachment {
    /// What an attachment is called while it is prepared.
    pub open spec fn label_text(&self) -> Seq<char> {
        match self {
            QueuedAttachment::Path(path) => path@,
            QueuedAttachment::Memory { file_name, .. } => file_name@,
        }
    }

    pub fn label(&self) -> (label: String)
        ensures
            label@ == self.label_text(),
    {
        match self {
            QueuedAttachment::Path(path) => path.clone(),
            QueuedAttachment::Memory { file_name, .. } => file_name.clone(),
        }
    }
}

/// An attachment that is being sent.
#[derive(Debug)]
pub struct AttachmentJob {
    pub source: AttachmentSource,
    pub source_label: String,
    pub transfer_id: String,
    pub file_name: String,
    pub kind: AttachmentKind,
    pub total_size: u64,
    pub total_chunks: usize,
    pub sha256_hex: String,
    pub next_chunk_index: usize,
    pub acked_chunks: usize,
    pub meta_sent: bool,
    pub meta_packet_id: String,
    pub manifest_plain_line: Option<String>,
    pub manifest_secure_line: Option<String>,
    pub manifest_context: Option<AttachmentContext>,
    pub meta_attempts: usize,
    /// When the announcement was last sent, in milliseconds.
    pub meta_last_sent_at: Option<u64>,
    pub file_key: [u8; 32],
    pub nonce_base: [u8; 8],
    pub in_flight: Vec<InFlightChunk>,
}

/// The progress of an attachment that is being sent.
#[verifier::ext_equal]
pub ghost struct JobView {
    pub transfer_id: Seq<char>,
    pub file_name: Seq<char>,
    pub kind: AttachmentKind,
    pub total_size: u64,
    pub total_chunks: usize,
    pub sha256_hex: Seq<char>,
    pub next: usize,
    pub acked: usize,
    pub meta_sent: bool,
    pub meta_packet_id: Seq<char>,
    pub plain: Option<Seq<char>>,
    pub secure: Option<Seq<char>>,
    pub context: Option<SendContext>,
    pub meta_attempts: usize,
    pub meta_last: Option<u64>,
    pub file_key: Seq<u8>,
    pub nonce_base: Seq<u8>,
    pub in_flight: Seq<FlightView>,
}

impl View for AttachmentJob {
    type V = JobView;

    open spec fn view(&self) -> JobView {
        JobView {
            transfer_id: self.transfer_id@,
            file_name: self.file_name@,
            kind: self.kind,
            total_size: self.total_size,
            total_chunks: self.total_chunks,
            sha256_hex: self.sha256_hex@,
            next: self.next_chunk_index,
            acked: self.acked_chunks,
            meta_sent: self.meta_sent,
            meta_packet_id: self.meta_packet_id@,
            plain: opt_text(self.manifest_plain_line),
            secure: opt_text(self.manifest_secure_line),
            context: match self.manifest_context {
                Some(c) => Some(c@),
                None => None,
            },
            meta_attempts: self.meta_attempts,
            meta_last: self.meta_last_sent_at,
            file_key: self.file_key@,
            nonce_base: self.nonce_base@,
            in_flight: flight_views(self.in_flight@),
        }
    }
}

/// The state of a job is sound: every piece that was taken up is either acknowledged or under way,
/// at most a window of them is under way, and nothing is sent too often.
pub open spec fn job_wf(j: JobView) -> bool {
    &&& j.next <= j.total_chunks
    &&& j.acked + j.in_flight.len() == j.next
    &&& j.in_flight.len() <= ATTACHMENT_WINDOW_SIZE
    &&& j.meta_attempts <= max_attempts()
    &&& j.meta_last is None <==> j.meta_attempts == 0
    &&& flights_wf(j.in_flight, j.next)
}

/// Pieces under way have been taken up, and sent at least once and not too often.
pub open spec fn flights_wf(flights: Seq<FlightView>, next: usize) -> bool {
    forall|i: int|
        0 <= i < flights.len() ==> (#[trigger] flights[i]).chunk_index < next && 1
            <= flights[i].attempts <= max_attempts()
}

/// The packet that carries the announcement.
pub open spec fn meta_packet_id(transfer_id: Seq<char>) -> Seq<char> {
    "att-"@ + transfer_id + "-meta"@
}

/// The packet that carries a piece.
pub open spec fn chunk_packet_id(transfer_id: Seq<char>, index: usize) -> Seq<char> {
    "att-"@ + transfer_id + "-chunk-"@ + decimal(index as nat)
}

pub fn packet_id_for_attachment_meta(transfer_id: &str) -> (id: String)
    ensures
        id@ == meta_packet_id(transfer_id@),
{
    let mut id = joined("att-", transfer_id);
    id.append("-meta");
    id
}

pub fn packet_id_for_attachment_chunk(transfer_id: &str, index: usize) -> (id: String)
    ensures
        id@ == chunk_packet_id(transfer_id@, index),
{
    let mut id = joined("att-", transfer_id);
    id.append("-chunk-");
    let n = decimal_text(index as u64);
    id.append(n.as_str());
    id
}

/// The checksum of an attachment.
pub fn hash_bytes(bytes: &[u8]) -> (text: String)
    ensures
        text@ == hex_text(sha256(bytes@)),
        sha256(bytes@).len() == 32,
{
    hex_encode(sha256_digest(bytes).as_slice())
}

/// The random parts of a transfer.
#[derive(Debug)]
pub struct TransferKeys {
    pub transfer_id: String,
    pub file_key: [u8; 32],
    pub nonce_base: [u8; 8],
}

/// Fresh random parts for a transfer.
pub fn fresh_transfer_keys() -> (keys: TransferKeys)
    ensures
        keys.transfer_id@.len() == 32,
        lower_hex(keys.transfer_id@),
{
    let transfer_id = fresh_id();
    let file_key = random_bytes32();
    let b = random_bytes(8);
    let nonce_base: [u8; 8] = [b[0], b[1], b[2], b[3], b[4], b[5], b[6], b[7]];
    TransferKeys { transfer_id, file_key, nonce_base }
}

/// A job of which nothing has been sent.
pub open spec fn new_job_view(
    transfer_id: Seq<char>,
    file_name: Seq<char>,
    kind: AttachmentKind,
    total_size: u64,
    sha256_hex: Seq<char>,
    file_key: Seq<u8>,
    nonce_base: Seq<u8>,
) -> JobView {
    JobView {
        transfer_id,
        file_name,
        kind,
        total_size,
        total_chunks: chunk_count(total_size as nat) as usize,
        sha256_hex,
        next: 0,
        acked: 0,
        meta_sent: false,
        meta_packet_id: meta_packet_id(transfer_id),
        plain: None,
        secure: None,
        context: None,
        meta_attempts: 0,
        meta_last: None,
        file_key,
        nonce_base,
        in_flight: Seq::empty(),
    }
}

fn new_job(
    source: AttachmentSource,
    source_label: String,
    file_name: String,
    kind: AttachmentKind,
    size: usize,
    sha256_hex: String,
    keys: TransferKeys,
) -> (job: AttachmentJob)
    requires
        source.wf(),
    ensures
        job@ == new_job_view(
            keys.transfer_id@,
            file_name@,
            kind,
            size as u64,
            sha256_hex@,
            keys.file_key@,
            keys.nonce_base@,
        ),
        job_wf(job@),
        job.source == source,
        job.source_label == source_label,
{
    let job = AttachmentJob {
        source,
        source_label,
        meta_packet_id: packet_id_for_attachment_meta(keys.transfer_id.as_str()),
        transfer_id: keys.transfer_id,
        file_name,
        kind,
        total_size: size as u64,
        total_chunks: chunk_count_of(size),
        sha256_hex,
        next_chunk_index: 0,
        acked_chunks: 0,
        meta_sent: false,
        manifest_plain_line: None,
        manifest_secure_line: None,
        manifest_context: None,
        meta_attempts: 0,
        meta_last_sent_at: None,
        file_key: keys.file_key,
        nonce_base: keys.nonce_base,
        in_flight: Vec::new(),
    };
    assert(job@.in_flight =~= Seq::<FlightView>::empty());
    job
}

/// A job for bytes in memory, with given random parts.
pub fn initialize_memory_attachment_job_with(
    file_name: String,
    bytes: Vec<u8>,
    kind: AttachmentKind,
    keys: TransferKeys,
) -> (job: AttachmentJob)
    ensures
        job@ == new_job_view(
            keys.transfer_id@,
            file_name@,
            kind,
            bytes@.len() as u64,
            hex_text(sha256(bytes@)),
            keys.file_key@,
            keys.nonce_base@,
        ),
        job_wf(job@),
        job.source matches AttachmentSource::Memory { bytes: b, offset } && b@ == bytes@ && offset
            == 0,
        job.source_label@ == file_name@,
{
    let sha256_hex = hash_bytes(bytes.as_slice());
    let size = bytes.len();
    let label = file_name.clone();
    new_job(
        AttachmentSource::Memory { bytes, offset: 0 },
        label,
        file_name,
        kind,
        size,
        sha256_hex,
        keys,
    )
}

/// A job for bytes in memory.
pub fn initialize_memory_attachment_job(
    file_name: String,
    bytes: Vec<u8>,
    kind: AttachmentKind,
) -> (job: AttachmentJob)
    ensures
        job@ == new_job_view(
            job@.transfer_id,
            file_name@,
            kind,
            bytes@.len() as u64,
            hex_text(sha256(bytes@)),
            job@.file_key,
            job@.nonce_base,
        ),
        job@.transfer_id.len() == 32,
        lower_hex(job@.transfer_id),
        job_wf(job@),
        job.source matches AttachmentSource::Memory { bytes: b, offset } && b@ == bytes@ && offset
            == 0,
        job.source_label@ == file_name@,
{
    let keys = fresh_transfer_keys();
    initialize_memory_attachment_job_with(file_name, bytes, kind, keys)
}

/// A job for a file on disk, given its name, its size and its checksum; none when the file is too
/// large for this machine.
pub fn named_file_attachment_job(
    path: String,
    base: Option<String>,
    total_size: u64,
    sha256_hex: String,
    keys: TransferKeys,
) -> (job: Option<AttachmentJob>)
    ensures
        job is Some <==> total_size <= usize::MAX,
        job matches Some(j) ==> {
            &&& j@ == new_job_view(
                keys.transfer_id@,
                name_or_default(opt_text(base)),
                kind_of(opt_text(base)),
                total_size,
                sha256_hex@,
                keys.file_key@,
                keys.nonce_base@,
            )
            &&& job_wf(j@)
            &&& j.source matches AttachmentSource::File { path: p } && p@ == path@
            &&& j.source_label@ == path@
        },
{
    if total_size > usize::MAX as u64 {
        return None;
    }
    let kind = kind_of_file(&base);
    let file_name = named_or_default(base);
    let label = path.clone();
    Some(
        new_job(
            AttachmentSource::File { path },
            label,
            file_name,
            kind,
            total_size as usize,
            sha256_hex,
            keys,
        ),
    )
}

/// A job for a file on disk, given its size and its checksum; none when the file is too large for
/// this machine.
pub fn initialize_file_attachment_job_with(
    path: String,
    total_size: u64,
    sha256_hex: String,
    keys: TransferKeys,
) -> (job: Option<AttachmentJob>)
    ensures
        job is Some <==> total_size <= usize::MAX,
        job matches Some(j) ==> {
            &&& exists|base: Option<Seq<char>>|
                may_be_name(path@, base) && j@ == new_job_view(
                    keys.transfer_id@,
                    #[trigger] name_or_default(base),
                    kind_of(base),
                    total_size,
                    sha256_hex@,
                    keys.file_key@,
                    keys.nonce_base@,
                )
            &&& job_wf(j@)
            &&& j.source matches AttachmentSource::File { path: p } && p@ == path@
            &&& j.source_label@ == path@
        },
{
    let base = path_file_name(path.as_str());
    let ghost b = opt_text(base);
    assert(name_or_default(b) == name_or_default(b));
    named_file_attachment_job(path, base, total_size, sha256_hex, keys)
}

/// Why a transfer failed.
#[derive(Debug)]
pub enum SendError {
    MetaTimeout,
    NoEpochSecret,
    Crypto(CryptoError),
    ChunkTimeout { index: usize, total: usize },
    NoContext,
    UnexpectedEof(String),
    Chunk(ChunkError),
}

/// Why a transfer failed.
pub ghost enum SendFault {
    MetaTimeout,
    NoEpochSecret,
    Crypto(CryptoError),
    ChunkTimeout { index: usize, total: usize },
    NoContext,
    UnexpectedEof(Seq<char>),
    Chunk(ChunkError),
}

impl View for SendError {
    type V = SendFault;

    open spec fn view(&self) -> SendFault {
        match self {
            SendError::MetaTimeout => SendFault::MetaTimeout,
            SendError::NoEpochSecret => SendFault::NoEpochSecret,
            SendError::Crypto(e) => SendFault::Crypto(*e),
            SendError::ChunkTimeout { index, total } => SendFault::ChunkTimeout {
                index: *index,
                total: *total,
            },
            SendError::NoContext => SendFault::NoContext,
            SendError::UnexpectedEof(label) => SendFault::UnexpectedEof(label@),
            SendError::Chunk(e) => SendFault::Chunk(*e),
        }
    }
}

/// The text shown to the user.
pub open spec fn send_fault_text(fault: SendFault) -> Seq<char> {
    match fault {
        SendFault::MetaTimeout => "ACK timeout for attachment metadata"@,
        SendFault::NoEpochSecret => "Current epoch secret unavailable"@,
        SendFault::Crypto(e) => e.message_text(),
        SendFault::ChunkTimeout { index, total } => "ACK timeout for chunk "@ + decimal(
            (index + 1) as nat,
        ) + " of "@ + decimal(total as nat),
        SendFault::NoContext => "Attachment manifest context is unavailable"@,
        SendFault::UnexpectedEof(label) => "Unexpected EOF while reading attachment "@ + label,
        SendFault::Chunk(e) => e.message_text(),
    }
}

impl SendError {
    pub fn message(&self) -> (text: String)
        requires
            self matches SendError::ChunkTimeout { index, .. } ==> index < usize::MAX,
        ensures
            text@ == send_fault_text(self@),
    {
        match self {
            SendError::MetaTimeout => "ACK timeout for attachment metadata".to_owned(),
            SendError::NoEpochSecret => "Current epoch secret unavailable".to_owned(),
            SendError::Crypto(e) => e.message().to_owned(),
            SendError::ChunkTimeout { index, total } => {
                let a = decimal_text((*index + 1) as u64);
                let b = decimal_text(*total as u64);
                let mut text = joined("ACK timeout for chunk ", a.as_str());
                text.append(" of ");
                text.append(b.as_str());
                text
            },
            SendError::NoContext => "Attachment manifest context is unavailable".to_owned(),
            SendError::UnexpectedEof(label) => {
                joined("Unexpected EOF while reading attachment ", label.as_str())
            },
            SendError::Chunk(e) => e.message().to_owned(),
        }
    }
}

/// Whether the acknowledgement of what was sent at `last` is overdue.
pub open spec fn overdue(last: u64, now_ms: u64) -> bool {
    now_ms - last >= PACKET_ACK_TIMEOUT_MS
}

fn is_overdue(last: u64, now_ms: u64) -> (yes: bool)
    ensures
        yes == overdue(last, now_ms),
{
    now_ms >= last && now_ms - last >= PACKET_ACK_TIMEOUT_MS
}

/// What to do about the announcement.
#[derive(Debug)]
pub enum MetaStep {
    Acked,
    Wait,
    Send { packet_id: String, line: String },
}

/// What to do about the announcement.
pub ghost enum MetaAction {
    Acked,
    Wait,
    Send { packet_id: Seq<char>, line: Seq<char> },
}

impl View for MetaStep {
    type V = MetaAction;

    open spec fn view(&self) -> MetaAction {
        match self {
            MetaStep::Acked => MetaAction::Acked,
            MetaStep::Wait => MetaAction::Wait,
            MetaStep::Send { packet_id, line } => MetaAction::Send {
                packet_id: packet_id@,
                line: line@,
            },
        }
    }
}

/// The acknowledgements without a packet.
pub open spec fn finished_acks(acks: AckView, id: Seq<char>) -> AckView {
    AckView { waiting: acks.waiting.remove(id), acked: acks.acked.remove(id) }
}

/// The announcement of a job in a group.
pub open spec fn manifest_of(j: JobView, g: GroupView) -> Seq<char> {
    manifest2_line(
        g.group_id,
        g.epoch,
        g.me,
        j.transfer_id,
        j.kind,
        j.file_name,
        j.total_size,
        j.total_chunks,
        j.sha256_hex,
        j.file_key,
        j.nonce_base,
    )
}

/// A job whose announcement is sent once more.
pub open spec fn meta_sent_once_more(j: JobView, now_ms: u64) -> JobView {
    JobView { meta_attempts: (j.meta_attempts + 1) as usize, meta_last: Some(now_ms), ..j }
}

/// What a look at the announcement does, and what is to be done.
pub open spec fn meta_stepped(
    j: JobView,
    acks: AckView,
    g: GroupView,
    now_ms: u64,
    now: i64,
) -> (JobView, AckView, GroupView, Result<MetaAction, SendFault>) {
    if acks.acked.contains(j.meta_packet_id) {
        (
            JobView { meta_sent: true, ..j },
            finished_acks(acks, j.meta_packet_id),
            g,
            Ok(MetaAction::Acked),
        )
    } else if j.meta_last is Some && !overdue(j.meta_last->0, now_ms) {
        (j, acks, g, Ok(MetaAction::Wait))
    } else if j.meta_last is Some && j.meta_attempts >= max_attempts() {
        (j, finished_acks(acks, j.meta_packet_id), g, Err(SendFault::MetaTimeout))
    } else {
        let waiting = AckView { waiting: acks.waiting.insert(j.meta_packet_id), ..acks };
        if j.plain is Some && j.secure is Some {
            (
                meta_sent_once_more(j, now_ms),
                waiting,
                g,
                Ok(MetaAction::Send { packet_id: j.meta_packet_id, line: j.secure->0 }),
            )
        } else if g.sender is None {
            (j, waiting, g, Err(SendFault::NoEpochSecret))
        } else {
            let plain = manifest_of(j, g);
            let e = encrypted(g, SecureMessageType::FileManifest, encode_utf8(plain), now);
            match e.0 {
                Err(fault) => (j, waiting, e.1, Err(SendFault::Crypto(fault))),
                Ok(message) => {
                    let line = tagged_line("/RMSG"@, json_bytes(message_tree(message)));
                    (
                        meta_sent_once_more(
                            JobView {
                                plain: Some(plain),
                                secure: Some(line),
                                context: Some(
                                    SendContext {
                                        group_id: g.group_id,
                                        epoch: g.epoch,
                                        sender_id: g.me,
                                    },
                                ),
                                ..j
                            },
                            now_ms,
                        ),
                        waiting,
                        e.1,
                        Ok(MetaAction::Send { packet_id: j.meta_packet_id, line }),
                    )
                },
            }
        }
    }
}

/// Looks after the announcement: sends it until it is acknowledged, a few times at most. It is
/// encrypted for the group once, and sent the same each time.
pub fn process_attachment_meta(
    job: &mut AttachmentJob,
    acks: &mut AckRegistry,
    group: &mut GroupCryptoState,
    now_ms: u64,
    now: i64,
) -> (out: Result<MetaStep, SendError>)
    requires
        job_wf(old(job)@),
        old(acks).wf(),
        old(group).wf(),
    ensures
        job_wf(final(job)@),
        final(acks).wf(),
        final(group).wf(),
        final(job).source == old(job).source,
        final(job).source_label == old(job).source_label,
        ({
            let r = meta_stepped(old(job)@, old(acks)@, old(group)@, now_ms, now);
            &&& final(job)@ == r.0
            &&& final(acks)@ == r.1
            &&& final(group)@ == r.2
            &&& match (out, r.3) {
                (Ok(o), Ok(v)) => o@ == v,
                (Err(e), Err(v)) => e@ == v,
                _ => false,
            }
        }),
{
    if acks.is_acked(job.meta_packet_id.as_str()) {
        acks.finish(job.meta_packet_id.as_str());
        job.meta_sent = true;
        return Ok(MetaStep::Acked);
    }
    match job.meta_last_sent_at {
        Some(last) => {
            if !is_overdue(last, now_ms) {
                return Ok(MetaStep::Wait);
            }
            if job.meta_attempts >= PACKET_RETRY_LIMIT + 1 {
                acks.finish(job.meta_packet_id.as_str());
                return Err(SendError::MetaTimeout);
            }
        },
        None => {},
    }
    acks.subscribe(job.meta_packet_id.as_str());
    if job.manifest_secure_line.is_none() || job.manifest_plain_line.is_none() {
        if group.my_sender_chain.is_none() {
            return Err(SendError::NoEpochSecret);
        }
        let context = AttachmentContext {
            group_id: group.group_id.clone(),
            epoch: group.epoch,
            sender_id: group.my_member_id.clone(),
        };
        let plain_line = match build_file_manifest2_line(
            context.group_id.as_str(),
            context.epoch,
            context.sender_id.as_str(),
            job.transfer_id.as_str(),
            job.kind,
            job.file_name.as_str(),
            job.total_size,
            job.total_chunks,
            job.sha256_hex.as_str(),
            &job.file_key,
            &job.nonce_base,
        ) {
            Ok(line) => line,
            Err(e) => {
                assert(false);
                return Err(SendError::Chunk(e));
            },
        };
        let message = match encrypt_message_at(
            group,
            SecureMessageType::FileManifest,
            plain_line.as_str().as_bytes(),
            now,
        ) {
            Ok(message) => message,
            Err(e) => {
                return Err(SendError::Crypto(e));
            },
        };
        let secure_line = match build_rmsg_line(&message) {
            Ok(line) => line,
            Err(e) => {
                assert(false);
                return Err(SendError::Crypto(e));
            },
        };
        job.manifest_context = Some(context);
        job.manifest_plain_line = Some(plain_line);
        job.manifest_secure_line = Some(secure_line);
    }
    let line = match &job.manifest_secure_line {
        Some(line) => line.clone(),
        None => {
            assert(false);
            String::new()
        },
    };
    job.meta_attempts = job.meta_attempts + 1;
    job.meta_last_sent_at = Some(now_ms);
    Ok(MetaStep::Send { packet_id: job.meta_packet_id.clone(), line })
}

/// What a look at the pieces under way finds.
#[verifier::ext_equal]
pub ghost struct ScanView {
    /// The pieces that stay under way.
    pub kept: Seq<FlightView>,
    /// The packets that have been acknowledged.
    pub confirmed: Seq<Seq<char>>,
    /// The packets to send again, with their lines.
    pub resent: Seq<(Seq<char>, Seq<char>)>,
    /// The piece that was sent too often.
    pub failed: Option<usize>,
}

/// What a look at the pieces under way finds: those acknowledged are done, those overdue are sent
/// again, and the first that was sent too often ends the transfer.
pub open spec fn scanned(flights: Seq<FlightView>, acked: Set<Seq<char>>, now_ms: u64) -> ScanView
    decreases flights.len(),
{
    if flights.len() == 0 {
        ScanView {
            kept: Seq::empty(),
            confirmed: Seq::empty(),
            resent: Seq::empty(),
            failed: None,
        }
    } else {
        let f = flights[0];
        let rest = flights.drop_first();
        if acked.contains(f.packet_id) {
            let r = scanned(rest, acked.remove(f.packet_id), now_ms);
            ScanView { confirmed: seq![f.packet_id] + r.confirmed, ..r }
        } else if !overdue(f.last_sent_at, now_ms) {
            let r = scanned(rest, acked, now_ms);
            ScanView { kept: seq![f] + r.kept, ..r }
        } else if f.attempts >= max_attempts() {
            ScanView {
                kept: flights,
                confirmed: Seq::empty(),
                resent: Seq::empty(),
                failed: Some(f.chunk_index),
            }
        } else {
            let again = FlightView {
                attempts: (f.attempts + 1) as usize,
                last_sent_at: now_ms,
                ..f
            };
            let r = scanned(rest, acked, now_ms);
            ScanView {
                kept: seq![again] + r.kept,
                resent: seq![(f.packet_id, f.chunk_line)] + r.resent,
                ..r
            }
        }
    }
}

/// One finding after another.
pub open spec fn then_scan(a: ScanView, b: ScanView) -> ScanView {
    ScanView {
        kept: a.kept + b.kept,
        confirmed: a.confirmed + b.confirmed,
        resent: a.resent + b.resent,
        failed: b.failed,
    }
}

/// The acknowledgements without some packets.
pub open spec fn finished_all(acks: AckView, ids: Seq<Seq<char>>) -> AckView
    decreases ids.len(),
{
    if ids.len() == 0 {
        acks
    } else {
        finished_acks(finished_all(acks, ids.drop_last()), ids.last())
    }
}

/// Every piece that was under way still is, or has been acknowledged.
pub proof fn law_scan_loses_no_piece(flights: Seq<FlightView>, acked: Set<Seq<char>>, now_ms: u64)
    ensures
        scanned(flights, acked, now_ms).kept.len() + scanned(
            flights,
            acked,
            now_ms,
        ).confirmed.len() == flights.len(),
    decreases flights.len(),
{
    if flights.len() > 0 {
        let f = flights[0];
        law_scan_loses_no_piece(flights.drop_first(), acked.remove(f.packet_id), now_ms);
        law_scan_loses_no_piece(flights.drop_first(), acked, now_ms);
    }
}

proof fn lemma_scan_wf(flights: Seq<FlightView>, acked: Set<Seq<char>>, now_ms: u64, next: usize)
    requires
        flights_wf(flights, next),
    ensures
        flights_wf(scanned(flights, acked, now_ms).kept, next),
        scanned(flights, acked, now_ms).failed matches Some(i) ==> i < next,
    decreases flights.len(),
{
    if flights.len() > 0 {
        let f = flights[0];
        let rest = flights.drop_first();
        assert(flights_wf(rest, next)) by {
            assert forall|i: int| 0 <= i < rest.len() implies (#[trigger] rest[i]).chunk_index
                < next && 1 <= rest[i].attempts <= max_attempts() by {
                assert(rest[i] == flights[i + 1]);
            }
        }
        lemma_scan_wf(rest, acked.remove(f.packet_id), now_ms, next);
        lemma_scan_wf(rest, acked, now_ms, next);
        let kept = scanned(flights, acked, now_ms).kept;
        assert forall|i: int| 0 <= i < kept.len() implies (#[trigger] kept[i]).chunk_index < next
            && 1 <= kept[i].attempts <= max_attempts() by {
            if acked.contains(f.packet_id) {
                assert(kept[i] == scanned(rest, acked.remove(f.packet_id), now_ms).kept[i]);
            } else if overdue(f.last_sent_at, now_ms) && f.attempts >= max_attempts() {
                assert(kept[i] == flights[i]);
            } else if i > 0 {
                assert(kept[i] == scanned(rest, acked, now_ms).kept[i - 1]);
            }
        }
    }
}

/// What is to be done about the pieces under way.
#[derive(Debug)]
pub struct WindowScan {
    /// What the display is told of the pieces that have been acknowledged.
    pub progress: Vec<String>,
    /// The packets to send again, with their lines.
    pub resend: Vec<(String, String)>,
    /// Why the transfer ends.
    pub error: Option<SendError>,
}

pub open spec fn pair_views(v: Seq<(String, String)>) -> Seq<(Seq<char>, Seq<char>)> {
    v.map_values(|p: (String, String)| (p.0@, p.1@))
}

/// What the display is told when some more pieces have been acknowledged.
pub open spec fn progress_lines(j: JobView, n: nat) -> Seq<Seq<char>> {
    Seq::new(
        n,
        |i: int|
            transfer_progress_line(j.transfer_id, (j.acked + i + 1) as usize, j.total_chunks),
    )
}

/// A job after a look at the pieces under way.
pub open spec fn window_scanned(j: JobView, s: ScanView) -> JobView {
    JobView {
        in_flight: s.kept,
        acked: (j.acked + s.confirmed.len()) as usize,
        ..j
    }
}

/// Looks after the pieces under way.
pub fn scan_attachment_window(job: &mut AttachmentJob, acks: &mut AckRegistry, now_ms: u64) -> (out:
    WindowScan)
    requires
        job_wf(old(job)@),
        old(acks).wf(),
    ensures
        job_wf(final(job)@),
        final(acks).wf(),
        final(job).source == old(job).source,
        final(job).source_label == old(job).source_label,
        ({
            let s = scanned(old(job)@.in_flight, old(acks)@.acked, now_ms);
            &&& final(job)@ == window_scanned(old(job)@, s)
            &&& final(acks)@ == finished_all(old(acks)@, s.confirmed)
            &&& views(out.progress@) == progress_lines(old(job)@, s.confirmed.len())
            &&& pair_views(out.resend@) == s.resent
            &&& match (out.error, s.failed) {
                (Some(e), Some(i)) => e@ == (SendFault::ChunkTimeout {
                    index: i,
                    total: old(job)@.total_chunks,
                }) && i < old(job)@.total_chunks,
                (None, None) => true,
                _ => false,
            }
        }),
{
    let ghost j = job@;
    let ghost a0 = acks@;
    let ghost s = scanned(j.in_flight, a0.acked, now_ms);
    let mut rest: Vec<InFlightChunk> = Vec::new();
    std::mem::swap(&mut rest, &mut job.in_flight);
    let mut progress: Vec<String> = Vec::new();
    let mut resend: Vec<(String, String)> = Vec::new();
    let mut failed: Option<usize> = None;
    let ghost mut done = ScanView {
        kept: Seq::empty(),
        confirmed: Seq::empty(),
        resent: Seq::empty(),
        failed: None,
    };
    proof {
        law_scan_loses_no_piece(j.in_flight, a0.acked, now_ms);
        lemma_scan_wf(j.in_flight, a0.acked, now_ms, j.next);
        assert(then_scan(done, s) =~= s);
        assert(views(progress@) =~= progress_lines(j, 0));
        assert(pair_views(resend@) =~= Seq::<(Seq<char>, Seq<char>)>::empty());
        assert(flight_views(job.in_flight@) =~= Seq::<FlightView>::empty());
    }
    while rest.len() > 0 && failed.is_none()
        invariant
            acks.wf(),
            job_wf(j),
            job.source == old(job).source,
            job.source_label == old(job).source_label,
            failed is None ==> then_scan(
                done,
                scanned(flight_views(rest@), acks@.acked, now_ms),
            ) == s,
            failed is Some ==> done == s && rest@.len() == 0,
            done.failed == failed,
            job@ == window_scanned(j, done),
            acks@ == finished_all(a0, done.confirmed),
            views(progress@) == progress_lines(j, done.confirmed.len()),
            pair_views(resend@) == done.resent,
            done.confirmed.len() + done.kept.len() + rest@.len() == j.in_flight.len(),
        decreases rest.len(),
    {
        let ghost flights = flight_views(rest@);
        let ghost before = rest@;
        let ghost acked0 = acks@.acked;
        let ghost prev = done;
        let ghost tail = scanned(flights.drop_first(), acked0, now_ms);
        let mut item = rest.remove(0);
        let ghost f = item@;
        proof {
            assert(flights[0] == f);
            assert(flight_views(rest@) =~= flights.drop_first());
        }
        if acks.is_acked(item.packet_id.as_str()) {
            acks.finish(item.packet_id.as_str());
            job.acked_chunks = job.acked_chunks + 1;
            let line = build_local_transfer_progress_line(
                job.transfer_id.as_str(),
                job.acked_chunks,
                job.total_chunks,
            );
            let ghost shown = progress@;
            progress.push(line);
            proof {
                done = ScanView { confirmed: prev.confirmed.push(f.packet_id), ..prev };
                let r = scanned(flights.drop_first(), acked0.remove(f.packet_id), now_ms);
                assert(then_scan(done, r) =~= then_scan(
                    prev,
                    scanned(flights, acked0, now_ms),
                ));
                assert(done.confirmed.drop_last() =~= prev.confirmed);
                assert(progress_lines(j, done.confirmed.len()) =~= progress_lines(
                    j,
                    prev.confirmed.len(),
                ).push(line@));
                assert(views(progress@) =~= views(shown).push(line@));
            }
        } else if !is_overdue(item.last_sent_at, now_ms) {
            let ghost held = job.in_flight@;
            job.in_flight.push(item);
            proof {
                done = ScanView { kept: prev.kept.push(f), ..prev };
                assert(flight_views(job.in_flight@) =~= flight_views(held).push(f));
                assert(then_scan(done, tail) =~= then_scan(
                    prev,
                    scanned(flights, acked0, now_ms),
                ));
            }
        } else if item.attempts >= PACKET_RETRY_LIMIT + 1 {
            failed = Some(item.chunk_index);
            let ghost held = job.in_flight@;
            job.in_flight.push(item);
            job.in_flight.append(&mut rest);
            proof {
                done = ScanView {
                    kept: prev.kept + flights,
                    failed: Some(f.chunk_index),
                    ..prev
                };
                assert(flight_views(job.in_flight@) =~= flight_views(held) + flights);
                assert(done =~= then_scan(prev, scanned(flights, acked0, now_ms)));
            }
        } else {
            item.attempts = item.attempts + 1;
            item.last_sent_at = now_ms;
            let ghost sent = resend@;
            let ghost held = job.in_flight@;
            let ghost again = item@;
            resend.push((item.packet_id.clone(), item.chunk_line.clone()));
            job.in_flight.push(item);
            proof {
                done = ScanView {
                    kept: prev.kept.push(again),
                    resent: prev.resent.push((f.packet_id, f.chunk_line)),
                    ..prev
                };
                assert(flight_views(job.in_flight@) =~= flight_views(held).push(again));
                assert(pair_views(resend@) =~= pair_views(sent).push((f.packet_id, f.chunk_line)));
                assert(then_scan(done, tail) =~= then_scan(
                    prev,
                    scanned(flights, acked0, now_ms),
                ));
            }
        }
    }
    proof {
        if failed is None {
            let r = scanned(flight_views(rest@), acks@.acked, now_ms);
            assert(then_scan(done, r) =~= done);
        }
    }
    let error = match failed {
        Some(index) => Some(SendError::ChunkTimeout { index, total: job.total_chunks }),
        None => None,
    };
    WindowScan { progress, resend, error }
}

/// Whether another piece is to be taken up.
pub open spec fn takes_another(j: JobView) -> bool {
    j.in_flight.len() < ATTACHMENT_WINDOW_SIZE && j.next < j.total_chunks
}

pub fn wants_chunk(job: &AttachmentJob) -> (yes: bool)
    ensures
        yes == takes_another(job@),
{
    job.in_flight.len() < ATTACHMENT_WINDOW_SIZE && job.next_chunk_index < job.total_chunks
}

/// A job that has taken up another piece.
pub open spec fn with_piece(j: JobView, c: SendContext, data: Seq<u8>, now_ms: u64) -> JobView {
    JobView {
        next: (j.next + 1) as usize,
        in_flight: j.in_flight.push(
            FlightView {
                packet_id: chunk_packet_id(j.transfer_id, j.next),
                chunk_line: chunk_view_line(
                    chunk_sealed(
                        c.group_id,
                        c.epoch,
                        c.sender_id,
                        j.transfer_id,
                        j.next,
                        j.total_chunks,
                        data,
                        j.file_key,
                        j.nonce_base,
                    ),
                ),
                chunk_index: j.next,
                attempts: 1,
                last_sent_at: now_ms,
            },
        ),
        ..j
    }
}

/// Why another piece cannot be taken up: the announcement is missing, nothing could be read, or
/// the piece cannot be encrypted.
pub open spec fn piece_fault(j: JobView, label: Seq<char>, data: Seq<u8>) -> Option<SendFault> {
    if j.context is None {
        Some(SendFault::NoContext)
    } else if data.len() == 0 {
        Some(SendFault::UnexpectedEof(label))
    } else if j.next > u32::MAX {
        Some(SendFault::Chunk(ChunkError::IndexTooLarge))
    } else if !sealable(data) {
        Some(SendFault::Chunk(ChunkError::SealFailed))
    } else {
        None
    }
}

/// Takes up another piece: the packet to send, and its line.
pub fn take_up_chunk(job: &mut AttachmentJob, data: &[u8], now_ms: u64) -> (out: Result<
    (String, String),
    SendError,
>)
    requires
        job_wf(old(job)@),
        takes_another(old(job)@),
    ensures
        job_wf(final(job)@),
        final(job).source == old(job).source,
        final(job).source_label == old(job).source_label,
        match (out, piece_fault(old(job)@, old(job).source_label@, data@)) {
            (Ok(p), None) => {
                let next = with_piece(old(job)@, old(job)@.context->0, data@, now_ms);
                &&& final(job)@ == next
                &&& p.0@ == next.in_flight.last().packet_id
                &&& p.1@ == next.in_flight.last().chunk_line
            },
            (Err(e), Some(v)) => e@ == v && *final(job) == *old(job),
            _ => false,
        },
{
    let context = match &job.manifest_context {
        Some(context) => context,
        None => {
            return Err(SendError::NoContext);
        },
    };
    if data.len() == 0 {
        return Err(SendError::UnexpectedEof(job.source_label.clone()));
    }
    let line = match build_file_chunk2_line(
        context.group_id.as_str(),
        context.epoch,
        context.sender_id.as_str(),
        job.transfer_id.as_str(),
        job.next_chunk_index,
        job.total_chunks,
        data,
        &job.file_key,
        &job.nonce_base,
    ) {
        Ok(line) => line,
        Err(e) => {
            return Err(SendError::Chunk(e));
        },
    };
    let packet_id = packet_id_for_attachment_chunk(job.transfer_id.as_str(), job.next_chunk_index);
    let ghost before = job.in_flight@;
    let item = InFlightChunk {
        packet_id: packet_id.clone(),
        chunk_line: line.clone(),
        chunk_index: job.next_chunk_index,
        attempts: 1,
        last_sent_at: now_ms,
    };
    let ghost f = item@;
    job.in_flight.push(item);
    job.next_chunk_index = job.next_chunk_index + 1;
    proof {
        assert(flight_views(job.in_flight@) =~= flight_views(before).push(f));
        let flights = job@.in_flight;
        assert forall|i: int| 0 <= i < flights.len() implies (#[trigger] flights[i]).chunk_index
            < job@.next && 1 <= flights[i].attempts <= max_attempts() by {
            if i < before.len() {
                assert(flights[i] == flight_views(before)[i]);
            }
        }
    }
    Ok((packet_id, line))
}

/// Whether every piece has been acknowledged.
pub open spec fn job_done(j: JobView) -> bool {
    j.acked >= j.total_chunks && j.next >= j.total_chunks && j.in_flight.len() == 0
}

pub fn is_done(job: &AttachmentJob) -> (yes: bool)
    ensures
        yes == job_done(job@),
{
    job.acked_chunks >= job.total_chunks && job.next_chunk_index >= job.total_chunks
        && job.in_flight.len() == 0
}

/// A job is done just when all its pieces have been acknowledged.
pub proof fn law_job_is_done_when_all_is_acknowledged(j: JobView)
    requires
        job_wf(j),
    ensures
        job_done(j) <==> j.acked == j.total_chunks,
{
}

/// A job that is not done has a piece under way or takes up another.
pub proof fn law_job_goes_on(j: JobView)
    requires
        job_wf(j),
        !job_done(j),
    ensures
        j.in_flight.len() > 0 || takes_another(j),
{
}

/// Whatever is acknowledged or overdue, and whatever piece is taken up, never more than a window of
/// pieces is under way, and none is sent more than three times.
pub proof fn law_window_stays_in_bounds(
    j: JobView,
    acked: Set<Seq<char>>,
    c: SendContext,
    data: Seq<u8>,
    now_ms: u64,
)
    requires
        job_wf(j),
    ensures
        job_wf(window_scanned(j, scanned(j.in_flight, acked, now_ms))),
        takes_another(j) ==> job_wf(with_piece(j, c, data, now_ms)),
        j.in_flight.len() <= 3,
        forall|i: int| 0 <= i < j.in_flight.len() ==> (#[trigger] j.in_flight[i]).attempts <= 3,
{
    law_scan_loses_no_piece(j.in_flight, acked, now_ms);
    lemma_scan_wf(j.in_flight, acked, now_ms, j.next);
    if takes_another(j) {
        let next = with_piece(j, c, data, now_ms);
        assert forall|i: int| 0 <= i < next.in_flight.len() implies (
        #[trigger] next.in_flight[i]).chunk_index < next.next && 1 <= next.in_flight[i].attempts
            <= max_attempts() by {
            if i < j.in_flight.len() {
                assert(next.in_flight[i] == j.in_flight[i]);
            }
        }
    }
}

/// Gives up all that is under way.
pub fn cleanup_attachment_window(acks: &mut AckRegistry, job: &AttachmentJob)
    requires
        old(acks).wf(),
    ensures
        final(acks).wf(),
        final(acks)@ == finished_all(
            old(acks)@,
            job@.in_flight.map_values(|f: FlightView| f.packet_id),
        ),
{
    let ghost ids = job@.in_flight.map_values(|f: FlightView| f.packet_id);
    let mut i: usize = 0;
    assert(ids.take(0) =~= Seq::<Seq<char>>::empty());
    while i < job.in_flight.len()
        invariant
            i <= job.in_flight@.len(),
            acks.wf(),
            ids == job@.in_flight.map_values(|f: FlightView| f.packet_id),
            acks@ == finished_all(old(acks)@, ids.take(i as int)),
        decreases job.in_flight.len() - i,
    {
        acks.finish(job.in_flight[i].packet_id.as_str());
        proof {
            assert(ids.take(i + 1).drop_last() =~= ids.take(i as int));
            assert(ids.take(i + 1).last() == ids[i as int]);
            assert(ids[i as int] == job.in_flight@[i as int].packet_id@);
        }
        i += 1;
    }
    assert(ids.take(ids.len() as int) =~= ids);
}

/// What the display is told when a transfer begins.
pub fn begin_line(job: &AttachmentJob) -> (line: String)
    ensures
        line@ == transfer_begin_line(
            job@.transfer_id,
            job@.file_name,
            job@.total_chunks,
            job@.total_size,
        ),
{
    build_local_transfer_begin_line(
        job.transfer_id.as_str(),
        job.file_name.as_str(),
        job.total_chunks,
        job.total_size,
    )
}

/// What the display is told when a transfer is complete.
pub fn done_line(job: &AttachmentJob) -> (line: String)
    ensures
        line@ == transfer_done_line(job@.transfer_id),
{
    build_local_transfer_done_line(job.transfer_id.as_str())
}

/// What the display is told when a transfer failed.
pub fn failed_line(job: &AttachmentJob, reason: &str) -> (line: String)
    ensures
        line@ == transfer_failed_line(job@.transfer_id, reason@),
{
    build_local_transfer_failed_line(job.transfer_id.as_str(), reason)
}

/// What the display shows of an attachment that was sent and stored.
pub fn echo_line(job: &AttachmentJob, attachment_id: &str) -> (line: String)
    ensures
        line@ == "/LOCALECHO "@ + echo_attachment_line(
            attachment_id@,
            job@.file_name,
            job@.total_size,
            job@.kind,
        ),
{
    build_local_echo_attachment_line(
        attachment_id,
        job.file_name.as_str(),
        job.total_size,
        job.kind,
    )
}

/// What the user is told when an attachment could not be prepared.
pub fn preparation_failed_line(label: &str, reason: &str) -> (line: String)
    ensures
        local_event_of(line@) == Some(
            LocalEventView::Notice("附件初始化失败 "@ + label@ + ": "@ + reason@),
        ),
{
    let mut text = joined("附件初始化失败 ", label);
    text.append(": ");
    text.append(reason);
    build_local_notice_line(text.as_str())
}

/// What the user is told when the preparation of an attachment broke off.
pub fn preparation_lost_line(label: &str, reason: &str) -> (line: String)
    ensures
        local_event_of(line@) == Some(
            LocalEventView::Notice("附件初始化任务失败 "@ + label@ + ": "@ + reason@),
        ),
{
    let mut text = joined("附件初始化任务失败 ", label);
    text.append(": ");
    text.append(reason);
    build_local_notice_line(text.as_str())
}

/// What the user is told when one's own attachment cannot be shown.
pub fn echo_failed_line(reason: &str) -> (line: String)
    ensures
        local_event_of(line@) == Some(LocalEventView::Notice("附件本地回显失败: "@ + reason@)),
{
    let text = joined("附件本地回显失败: ", reason);
    build_local_notice_line(text.as_str())
}

/// What to do next about sending attachments.
#[derive(Debug, Clone, Copy, PartialEq, Eq, Structural)]
pub enum PumpStep {
    /// Nothing can be done now.
    Idle,
    /// An attachment has been prepared.
    Collect,
    /// The next attachment is to be prepared.
    Prepare,
    /// The announcement of the current attachment is under way.
    Meta,
    /// The pieces of the current attachment are under way.
    Window,
}

/// What to do next, given whether the announcement of the current attachment was acknowledged,
/// whether the preparation of another is over, and whether more wait.
pub open spec fn pump_step(
    active_meta_sent: Option<bool>,
    preparation_over: Option<bool>,
    more_wait: bool,
) -> PumpStep {
    match active_meta_sent {
        Some(true) => PumpStep::Window,
        Some(false) => PumpStep::Meta,
        None => match preparation_over {
            Some(false) => PumpStep::Idle,
            Some(true) => PumpStep::Collect,
            None => if more_wait {
                PumpStep::Prepare
            } else {
                PumpStep::Idle
            },
        },
    }
}

pub fn next_pump_step(
    active_meta_sent: Option<bool>,
    preparation_over: Option<bool>,
    more_wait: bool,
) -> (step: PumpStep)
    ensures
        step == pump_step(active_meta_sent, preparation_over, more_wait),
{
    match active_meta_sent {
        Some(meta_sent) => {
            if meta_sent {
                PumpStep::Window
            } else {
                PumpStep::Meta
            }
        },
        None => match preparation_over {
            Some(over) => {
                if over {
                    PumpStep::Collect
                } else {
                    PumpStep::Idle
                }
            },
            None => {
                if more_wait {
                    PumpStep::Prepare
                } else {
                    PumpStep::Idle
                }
            },
        },
    }
}

/// What follows the collection of a prepared attachment: the next one is prepared at once, unless
/// the preparation failed or none waits.
pub fn after_collect(prepared: bool, more_wait: bool) -> (step: PumpStep)
    ensures
        step == (if prepared && more_wait {
            PumpStep::Prepare
        } else {
            PumpStep::Idle
        }),
{
    if prepared && more_wait {
        PumpStep::Prepare
    } else {
        PumpStep::Idle
    }
}

} // verus!
