//! Receiving attachments: pieces come in any order and make up the whole.
use crate::attachments::store::{
    fresh_keys_shape, fresh_store_keys, with_attachment, AttachmentStore, KeysView, StoreError,
    StoreKeys, StoreView,
};
use crate::crypto::aead::sealable;
use crate::crypto::chain::push_bytes;
use crate::outside::digest::{sha256, sha256_digest};
use crate::outside::encoding::{hex_encode, hex_text, hex_value};
use crate::outside::path::path_file_name;
use crate::outside::random::{fresh_id, lower_hex};
use crate::protocol::attachment::{
    chunk_opened, decrypt_file_chunk2, AttachmentKind, AttachmentMeta, ChunkError, ChunkView,
    EncryptedAttachmentChunk, MetaView,
};
use crate::util::id_map::{view_map, IdMap};
use crate::util::path::{
    lemma_names_with, lemma_slash_names, path_rule, safe_file_name, safe_name, slash_names,
    PathNames,
};
use crate::util::text::{chars_of, decimal, decimal_text, joined, opt_text, same_text};
use vstd::prelude::*;

verus! {

/// An attachment that is being received.
#[derive(Debug)]
pub struct IncomingAttachment {
    pub sender: String,
    pub file_name: String,
    pub total_size: u64,
    pub total_chunks: usize,
    pub sha256_hex: String,
    pub kind: AttachmentKind,
    pub file_key: [u8; 32],
    pub nonce_base: [u8; 8],
    pub chunks: Vec<Option<Vec<u8>>>,
    pub received_chunks: usize,
}

/// An attachment that is being received.
#[verifier::ext_equal]
pub ghost struct IncomingView {
    pub sender: Seq<char>,
    pub file_name: Seq<char>,
    pub total_size: u64,
    pub sha256_hex: Seq<char>,
    pub kind: AttachmentKind,
    pub file_key: Seq<u8>,
    pub nonce_base: Seq<u8>,
    pub chunks: Seq<Option<Seq<u8>>>,
}

pub open spec fn chunk_view(c: Option<Vec<u8>>) -> Option<Seq<u8>> {
    match c {
        Some(v) => Some(v@),
        None => None,
    }
}

pub open spec fn chunk_views(chunks: Seq<Option<Vec<u8>>>) -> Seq<Option<Seq<u8>>> {
    chunks.map_values(|c: Option<Vec<u8>>| chunk_view(c))
}

impl View for IncomingAttachment {
    type V = IncomingView;

    open spec fn view(&self) -> IncomingView {
        IncomingView {
            sender: self.sender@,
            file_name: self.file_name@,
            total_size: self.total_size,
            sha256_hex: self.sha256_hex@,
            kind: self.kind,
            file_key: self.file_key@,
            nonce_base: self.nonce_base@,
            chunks: chunk_views(self.chunks@),
        }
    }
}

/// How many pieces have come.
pub open spec fn arrived(chunks: Seq<Option<Seq<u8>>>) -> nat
    decreases chunks.len(),
{
    if chunks.len() == 0 {
        0
    } else {
        arrived(chunks.drop_last()) + if chunks.last() is Some {
            1nat
        } else {
            0nat
        }
    }
}

impl IncomingAttachment {
    /// There is a place for each piece, and the pieces that have come are counted.
    pub open spec fn wf(&self) -> bool {
        self.chunks@.len() == self.total_chunks && self.received_chunks == arrived(self@.chunks)
    }
}

pub proof fn lemma_arrived(chunks: Seq<Option<Seq<u8>>>)
    ensures
        arrived(chunks) <= chunks.len(),
        arrived(chunks) == chunks.len() <==> forall|i: int|
            0 <= i < chunks.len() ==> (#[trigger] chunks[i]) is Some,
    decreases chunks.len(),
{
    if chunks.len() > 0 {
        let rest = chunks.drop_last();
        lemma_arrived(rest);
        if arrived(chunks) == chunks.len() {
            assert forall|i: int| 0 <= i < chunks.len() implies (#[trigger] chunks[i]) is Some by {
                if i < rest.len() {
                    assert(rest[i] == chunks[i]);
                }
            }
        }
        if forall|i: int| 0 <= i < chunks.len() ==> (#[trigger] chunks[i]) is Some {
            assert forall|i: int| 0 <= i < rest.len() implies (#[trigger] rest[i]) is Some by {
                assert(rest[i] == chunks[i]);
            }
            assert(chunks[chunks.len() - 1] is Some);
        }
    }
}

proof fn lemma_arrived_update(chunks: Seq<Option<Seq<u8>>>, i: int, data: Seq<u8>)
    requires
        0 <= i < chunks.len(),
        chunks[i] is None,
    ensures
        arrived(chunks.update(i, Some(data))) == arrived(chunks) + 1,
    decreases chunks.len(),
{
    let next = chunks.update(i, Some(data));
    if i == chunks.len() - 1 {
        assert(next.drop_last() =~= chunks.drop_last());
    } else {
        lemma_arrived_update(chunks.drop_last(), i, data);
        assert(next.drop_last() =~= chunks.drop_last().update(i, Some(data)));
    }
}

proof fn lemma_arrived_none(n: nat)
    ensures
        arrived(Seq::new(n, |i: int| None::<Seq<u8>>)) == 0,
    decreases n,
{
    let s = Seq::new(n, |i: int| None::<Seq<u8>>);
    if n > 0 {
        lemma_arrived_none((n - 1) as nat);
        assert(s.drop_last() =~= Seq::new((n - 1) as nat, |i: int| None::<Seq<u8>>));
    }
}

/// What is being received, by transfer.
#[derive(Debug)]
pub struct AttachmentReceiveState {
    pub incoming: IdMap<IncomingAttachment>,
}

/// What is being received, by transfer.
pub type IncomingMap = Map<Seq<char>, IncomingView>;

impl View for AttachmentReceiveState {
    type V = IncomingMap;

    open spec fn view(&self) -> IncomingMap {
        view_map(self.incoming.map())
    }
}

impl AttachmentReceiveState {
    pub open spec fn wf(&self) -> bool {
        self.incoming.wf() && forall|id: Seq<char>|
            self.incoming.map().contains_key(id) ==> (#[trigger] self.incoming.map()[id]).wf()
    }

    pub fn new() -> (state: Self)
        ensures
            state.wf(),
            state@ == IncomingMap::empty(),
    {
        let state = AttachmentReceiveState { incoming: IdMap::new() };
        assert(state@ =~= IncomingMap::empty());
        state
    }
}

impl Default for AttachmentReceiveState {
    fn default() -> (state: Self)
        ensures
            state.wf(),
            state@ == IncomingMap::empty(),
    {
        AttachmentReceiveState::new()
    }
}

/// An attachment that has come in whole.
#[derive(Debug)]
pub struct CompletedAttachment {
    pub transfer_id: String,
    pub attachment_id: String,
    pub sender: String,
    pub file_name: String,
    pub total_size: u64,
    pub kind: AttachmentKind,
}

/// An attachment that has come in whole.
#[verifier::ext_equal]
pub ghost struct CompletedView {
    pub transfer_id: Seq<char>,
    pub attachment_id: Seq<char>,
    pub sender: Seq<char>,
    pub file_name: Seq<char>,
    pub total_size: u64,
    pub kind: AttachmentKind,
}

impl View for CompletedAttachment {
    type V = CompletedView;

    open spec fn view(&self) -> CompletedView {
        CompletedView {
            transfer_id: self.transfer_id@,
            attachment_id: self.attachment_id@,
            sender: self.sender@,
            file_name: self.file_name@,
            total_size: self.total_size,
            kind: self.kind,
        }
    }
}

/// What is told of a transfer.
#[derive(Debug)]
pub enum AttachmentReceiveEvent {
    Begin { transfer_id: String, file_name: String, total_chunks: usize, total_size: u64 },
    Progress { transfer_id: String, received_chunks: usize, total_chunks: usize },
    Complete(CompletedAttachment),
}

/// What is told of a transfer.
pub ghost enum ReceiveEventView {
    Begin { transfer_id: Seq<char>, file_name: Seq<char>, total_chunks: nat, total_size: u64 },
    Progress { transfer_id: Seq<char>, received_chunks: nat, total_chunks: nat },
    Complete(CompletedView),
}

impl View for AttachmentReceiveEvent {
    type V = ReceiveEventView;

    open spec fn view(&self) -> ReceiveEventView {
        match self {
            AttachmentReceiveEvent::Begin { transfer_id, file_name, total_chunks, total_size } => {
                ReceiveEventView::Begin {
                    transfer_id: transfer_id@,
                    file_name: file_name@,
                    total_chunks: *total_chunks as nat,
                    total_size: *total_size,
                }
            },
            AttachmentReceiveEvent::Progress { transfer_id, received_chunks, total_chunks } => {
                ReceiveEventView::Progress {
                    transfer_id: transfer_id@,
                    received_chunks: *received_chunks as nat,
                    total_chunks: *total_chunks as nat,
                }
            },
            AttachmentReceiveEvent::Complete(c) => ReceiveEventView::Complete(c@),
        }
    }
}

pub open spec fn event_views(events: Seq<AttachmentReceiveEvent>) -> Seq<ReceiveEventView> {
    events.map_values(|e: AttachmentReceiveEvent| e@)
}

/// Why an attachment was refused.
#[derive(Debug)]
pub enum ReceiveError {
    NoChunksForBytes,
    ChunksForNoBytes,
    BadChecksumText,
    ChunkOutOfRange(usize),
    SizeMismatch { expected: u64, got: u64 },
    ChecksumMismatch(String),
    Chunk(ChunkError),
    Store(StoreError),
    /// The attachment was complete and could not be written, with the reason.
    NotWritten(String),
}

/// Why an attachment was refused.
pub ghost enum ReceiveFault {
    NoChunksForBytes,
    ChunksForNoBytes,
    BadChecksumText,
    ChunkOutOfRange(usize),
    SizeMismatch { expected: u64, got: u64 },
    ChecksumMismatch(Seq<char>),
    Chunk(ChunkError),
    Store(StoreError),
    NotWritten(Seq<char>),
}

impl View for ReceiveError {
    type V = ReceiveFault;

    open spec fn view(&self) -> ReceiveFault {
        match self {
            ReceiveError::NoChunksForBytes => ReceiveFault::NoChunksForBytes,
            ReceiveError::ChunksForNoBytes => ReceiveFault::ChunksForNoBytes,
            ReceiveError::BadChecksumText => ReceiveFault::BadChecksumText,
            ReceiveError::ChunkOutOfRange(i) => ReceiveFault::ChunkOutOfRange(*i),
            ReceiveError::SizeMismatch { expected, got } => ReceiveFault::SizeMismatch {
                expected: *expected,
                got: *got,
            },
            ReceiveError::ChecksumMismatch(name) => ReceiveFault::ChecksumMismatch(name@),
            ReceiveError::Chunk(e) => ReceiveFault::Chunk(*e),
            ReceiveError::Store(e) => ReceiveFault::Store(*e),
            ReceiveError::NotWritten(reason) => ReceiveFault::NotWritten(reason@),
        }
    }
}

/// The text shown to the user.
pub open spec fn fault_text(fault: ReceiveFault) -> Seq<char> {
    match fault {
        ReceiveFault::NoChunksForBytes => {
            "Attachment manifest mismatch: zero chunks with non-zero size"@
        },
        ReceiveFault::ChunksForNoBytes => {
            "Attachment manifest mismatch: non-zero chunks with zero size"@
        },
        ReceiveFault::BadChecksumText => "Attachment manifest checksum is invalid"@,
        ReceiveFault::ChunkOutOfRange(i) => "Attachment chunk out of range: "@ + decimal(i as nat),
        ReceiveFault::SizeMismatch { expected, got } => "Attachment size mismatch: expected "@
            + decimal(expected as nat) + ", got "@ + decimal(got as nat),
        ReceiveFault::ChecksumMismatch(name) => "Attachment checksum mismatch for "@ + name,
        ReceiveFault::Chunk(e) => e.message_text(),
        ReceiveFault::Store(e) => e.message_text(),
        ReceiveFault::NotWritten(reason) => reason,
    }
}

impl ReceiveError {
    pub fn message(&self) -> (text: String)
        ensures
            text@ == fault_text(self@),
    {
        match self {
            ReceiveError::NoChunksForBytes => {
                "Attachment manifest mismatch: zero chunks with non-zero size".to_owned()
            },
            ReceiveError::ChunksForNoBytes => {
                "Attachment manifest mismatch: non-zero chunks with zero size".to_owned()
            },
            ReceiveError::BadChecksumText => "Attachment manifest checksum is invalid".to_owned(),
            ReceiveError::ChunkOutOfRange(i) => {
                let n = decimal_text(*i as u64);
                joined("Attachment chunk out of range: ", n.as_str())
            },
            ReceiveError::SizeMismatch { expected, got } => {
                let a = decimal_text(*expected);
                let b = decimal_text(*got);
                let mut text = joined("Attachment size mismatch: expected ", a.as_str());
                text.append(", got ");
                text.append(b.as_str());
                text
            },
            ReceiveError::ChecksumMismatch(name) => {
                joined("Attachment checksum mismatch for ", name.as_str())
            },
            ReceiveError::Chunk(e) => e.message().to_owned(),
            ReceiveError::Store(e) => e.message().to_owned(),
            ReceiveError::NotWritten(reason) => reason.clone(),
        }
    }
}

/// Whether a text is 64 hexadecimal digits.
pub open spec fn is_checksum_text(s: Seq<char>) -> bool {
    s.len() == 64 && forall|i: int| 0 <= i < s.len() ==> hex_value(#[trigger] s[i]) is Some
}

/// What is wrong with an announcement.
pub open spec fn manifest_fault(
    total_chunks: usize,
    total_size: u64,
    sha256_hex: Seq<char>,
) -> Option<ReceiveFault> {
    if total_chunks == 0 && total_size != 0 {
        Some(ReceiveFault::NoChunksForBytes)
    } else if total_chunks > 0 && total_size == 0 {
        Some(ReceiveFault::ChunksForNoBytes)
    } else if !is_checksum_text(sha256_hex) {
        Some(ReceiveFault::BadChecksumText)
    } else {
        None
    }
}

fn checksum_text_ok(s: &str) -> (ok: bool)
    ensures
        ok == is_checksum_text(s@),
{
    let chars = chars_of(s);
    if chars.len() != 64 {
        return false;
    }
    let mut i: usize = 0;
    while i < 64
        invariant
            i <= 64,
            chars@ == s@,
            chars@.len() == 64,
            forall|k: int| 0 <= k < i ==> hex_value(#[trigger] s@[k]) is Some,
        decreases 64 - i,
    {
        let c = chars[i];
        if !(('0' <= c && c <= '9') || ('a' <= c && c <= 'f') || ('A' <= c && c <= 'F')) {
            assert(hex_value(s@[i as int]) is None);
            return false;
        }
        i += 1;
    }
    true
}

pub fn validate_manifest(meta: &AttachmentMeta) -> (out: Result<(), ReceiveError>)
    ensures
        match (out, manifest_fault(meta.total_chunks, meta.total_size, meta.sha256_hex@)) {
            (Ok(_), None) => true,
            (Err(e), Some(v)) => e@ == v,
            _ => false,
        },
{
    if meta.total_chunks == 0 && meta.total_size != 0 {
        return Err(ReceiveError::NoChunksForBytes);
    }
    if meta.total_chunks > 0 && meta.total_size == 0 {
        return Err(ReceiveError::ChunksForNoBytes);
    }
    if !checksum_text_ok(meta.sha256_hex.as_str()) {
        return Err(ReceiveError::BadChecksumText);
    }
    Ok(())
}

/// The pieces one after the other.
pub open spec fn whole(chunks: Seq<Option<Seq<u8>>>) -> Seq<u8>
    decreases chunks.len(),
{
    if chunks.len() == 0 {
        Seq::empty()
    } else {
        whole(chunks.drop_last()) + (chunks.last()->0)
    }
}

/// What is wrong with the pieces of an attachment once all have come.
pub open spec fn whole_fault(incoming: IncomingView) -> Option<ReceiveFault> {
    let bytes = whole(incoming.chunks);
    if bytes.len() != incoming.total_size {
        Some(
            ReceiveFault::SizeMismatch { expected: incoming.total_size, got: bytes.len() as u64 },
        )
    } else if hex_text(sha256(bytes)) != incoming.sha256_hex {
        Some(ReceiveFault::ChecksumMismatch(incoming.file_name))
    } else {
        None
    }
}

/// What completing an attachment does to the store, and what comes of it.
pub open spec fn finished(
    store: StoreView,
    transfer_id: Seq<char>,
    incoming: IncomingView,
    keys: KeysView,
    name_id: Seq<char>,
    names: PathNames,
) -> (StoreView, Result<CompletedView, ReceiveFault>) {
    match whole_fault(incoming) {
        Some(fault) => (store, Err(fault)),
        None => if !sealable(whole(incoming.chunks)) {
            (store, Err(ReceiveFault::Store(StoreError::Encrypt)))
        } else {
            (
                with_attachment(
                    store,
                    safe_name(names(incoming.file_name), name_id),
                    whole(incoming.chunks),
                    keys,
                ),
                Ok(
                    CompletedView {
                        transfer_id,
                        attachment_id: keys.attachment_id,
                        sender: incoming.sender,
                        file_name: safe_name(names(incoming.file_name), name_id),
                        total_size: incoming.total_size,
                        kind: incoming.kind,
                    },
                ),
            )
        },
    }
}

/// Whether a store and the outcome of completing an attachment are the expected ones.
pub open spec fn stored_as(
    store: StoreView,
    out: Result<CompletedAttachment, ReceiveError>,
    f: (StoreView, Result<CompletedView, ReceiveFault>),
) -> bool {
    &&& store == f.0
    &&& match (out, f.1) {
        (Ok(o), Ok(v)) => o@ == v,
        (Err(e), Err(v)) => e@ == v,
        _ => false,
    }
}

/// Puts the pieces together and checks the whole.
fn finalize_attachment(
    transfer_id: String,
    incoming: IncomingAttachment,
    store: &mut AttachmentStore,
    keys: &StoreKeys,
    name_id: &str,
) -> (out: Result<CompletedAttachment, ReceiveError>)
    requires
        old(store).wf(),
        incoming.wf(),
        incoming.received_chunks == incoming.total_chunks,
    ensures
        final(store).wf(),
        exists|names: PathNames|
            path_rule(names) && stored_as(
                final(store)@,
                out,
                #[trigger] finished(
                    old(store)@,
                    transfer_id@,
                    incoming@,
                    keys@,
                    name_id@,
                    names,
                ),
            ),
{
    let ghost all = incoming@.chunks;
    let ghost f0 = finished(
        store@,
        transfer_id@,
        incoming@,
        keys@,
        name_id@,
        slash_names(),
    );
    proof {
        lemma_arrived(all);
        lemma_slash_names();
    }
    let mut bytes: Vec<u8> = Vec::new();
    let mut i: usize = 0;
    assert(all.take(0) =~= Seq::<Option<Seq<u8>>>::empty());
    while i < incoming.chunks.len()
        invariant
            i <= incoming.chunks@.len(),
            all == chunk_views(incoming.chunks@),
            forall|k: int| 0 <= k < all.len() ==> (#[trigger] all[k]) is Some,
            bytes@ == whole(all.take(i as int)),
        decreases incoming.chunks.len() - i,
    {
        assert(all[i as int] is Some);
        match &incoming.chunks[i] {
            Some(chunk) => {
                push_bytes(&mut bytes, chunk.as_slice());
                proof {
                    assert(all[i as int] == Some(chunk@));
                    assert(all.take(i + 1).drop_last() =~= all.take(i as int));
                    assert(all.take(i + 1).last() == all[i as int]);
                }
            },
            None => {
                assert(false);
            },
        }
        i += 1;
    }
    assert(all.take(all.len() as int) =~= all);
    let got: u64 = bytes.len() as u64;
    if got != incoming.total_size {
        return Err(ReceiveError::SizeMismatch { expected: incoming.total_size, got });
    }
    let digest = hex_encode(sha256_digest(bytes.as_slice()).as_slice());
    if !same_text(digest.as_str(), incoming.sha256_hex.as_str()) {
        return Err(ReceiveError::ChecksumMismatch(incoming.file_name));
    }
    let base = path_file_name(incoming.file_name.as_str());
    let ghost names = lemma_names_with(incoming.file_name@, opt_text(base));
    let ghost f1 = finished(store@, transfer_id@, incoming@, keys@, name_id@, names);
    let name = safe_file_name(base, name_id);
    match store.store_attachment_with(name.as_str(), bytes.as_slice(), keys) {
        Ok(_) => Ok(
            CompletedAttachment {
                transfer_id,
                attachment_id: keys.attachment_id.clone(),
                sender: incoming.sender,
                file_name: name,
                total_size: got,
                kind: incoming.kind,
            },
        ),
        Err(e) => Err(ReceiveError::Store(e)),
    }
}

/// What an announcement starts.
pub open spec fn started(sender: Seq<char>, meta: MetaView) -> IncomingView {
    IncomingView {
        sender,
        file_name: meta.file_name,
        total_size: meta.total_size,
        sha256_hex: meta.sha256_hex,
        kind: meta.kind,
        file_key: meta.file_key,
        nonce_base: meta.nonce_base,
        chunks: Seq::new(meta.total_chunks as nat, |i: int| None),
    }
}

/// What an announcement does, and what is told of it.
pub open spec fn registered(
    m: IncomingMap,
    store: StoreView,
    sender: Seq<char>,
    meta: MetaView,
    keys: KeysView,
    name_id: Seq<char>,
    names: PathNames,
) -> (IncomingMap, StoreView, Result<Seq<ReceiveEventView>, ReceiveFault>) {
    match manifest_fault(meta.total_chunks, meta.total_size, meta.sha256_hex) {
        Some(fault) => (m, store, Err(fault)),
        None => {
            let begin = ReceiveEventView::Begin {
                transfer_id: meta.transfer_id,
                file_name: meta.file_name,
                total_chunks: meta.total_chunks as nat,
                total_size: meta.total_size,
            };
            if meta.total_chunks == 0 {
                let f = finished(
                    store,
                    meta.transfer_id,
                    started(sender, meta),
                    keys,
                    name_id,
                    names,
                );
                (
                    m,
                    f.0,
                    match f.1 {
                        Ok(c) => Ok(seq![begin, ReceiveEventView::Complete(c)]),
                        Err(fault) => Err(fault),
                    },
                )
            } else {
                (
                    m.insert(meta.transfer_id, started(sender, meta)),
                    store,
                    Ok(seq![begin]),
                )
            }
        },
    }
}

/// Whether events or a fault are the expected ones.
pub open spec fn receive_result_is(
    out: Result<Vec<AttachmentReceiveEvent>, ReceiveError>,
    v: Result<Seq<ReceiveEventView>, ReceiveFault>,
) -> bool {
    match (out, v) {
        (Ok(o), Ok(x)) => event_views(o@) == x,
        (Err(e), Err(x)) => e@ == x,
        _ => false,
    }
}

/// Whether what is being received, a store and events or a fault are the expected ones.
pub open spec fn received_as(
    m: IncomingMap,
    store: StoreView,
    out: Result<Vec<AttachmentReceiveEvent>, ReceiveError>,
    r: (IncomingMap, StoreView, Result<Seq<ReceiveEventView>, ReceiveFault>),
) -> bool {
    m == r.0 && store == r.1 && receive_result_is(out, r.2)
}

/// Takes an announcement, with given random parts for an attachment that is complete at once.
pub fn register_attachment_with(
    state: &mut AttachmentReceiveState,
    sender: String,
    meta: AttachmentMeta,
    store: &mut AttachmentStore,
    keys: &StoreKeys,
    name_id: &str,
) -> (out: Result<Vec<AttachmentReceiveEvent>, ReceiveError>)
    requires
        old(state).wf(),
        old(store).wf(),
    ensures
        final(state).wf(),
        final(store).wf(),
        exists|names: PathNames|
            path_rule(names) && received_as(
                final(state)@,
                final(store)@,
                out,
                #[trigger] registered(
                    old(state)@,
                    old(store)@,
                    sender@,
                    meta@,
                    keys@,
                    name_id@,
                    names,
                ),
            ),
{
    let ghost m0 = state@;
    let ghost s0 = store@;
    let ghost r0 = registered(m0, s0, sender@, meta@, keys@, name_id@, slash_names());
    proof {
        lemma_slash_names();
    }
    match validate_manifest(&meta) {
        Ok(_) => {},
        Err(e) => {
            return Err(e);
        },
    }
    let begin = AttachmentReceiveEvent::Begin {
        transfer_id: meta.transfer_id.clone(),
        file_name: meta.file_name.clone(),
        total_chunks: meta.total_chunks,
        total_size: meta.total_size,
    };
    let ghost begin_view = begin@;
    let mut chunks: Vec<Option<Vec<u8>>> = Vec::new();
    let mut i: usize = 0;
    while i < meta.total_chunks
        invariant
            i <= meta.total_chunks,
            chunks@.len() == i,
            forall|k: int| 0 <= k < i ==> (#[trigger] chunks@[k]) is None,
        decreases meta.total_chunks - i,
    {
        chunks.push(None);
        i += 1;
    }
    let incoming = IncomingAttachment {
        sender,
        file_name: meta.file_name.clone(),
        total_size: meta.total_size,
        total_chunks: meta.total_chunks,
        sha256_hex: meta.sha256_hex.clone(),
        kind: meta.kind,
        file_key: meta.file_key,
        nonce_base: meta.nonce_base,
        chunks,
        received_chunks: 0,
    };
    proof {
        assert(incoming@.chunks =~= Seq::new(meta.total_chunks as nat, |i: int| None));
        assert(incoming@ == started(sender@, meta@));
        lemma_arrived_none(meta.total_chunks as nat);
    }
    let mut events: Vec<AttachmentReceiveEvent> = Vec::new();
    events.push(begin);
    assert(event_views(events@) =~= seq![begin_view]);
    if meta.total_chunks == 0 {
        let done = finalize_attachment(meta.transfer_id, incoming, store, keys, name_id);
        let ghost names = choose|names: PathNames|
            path_rule(names) && stored_as(
                store@,
                done,
                #[trigger] finished(
                    s0,
                    meta.transfer_id@,
                    incoming@,
                    keys@,
                    name_id@,
                    names,
                ),
            );
        let ghost r1 = registered(m0, s0, sender@, meta@, keys@, name_id@, names);
        match done {
            Ok(complete) => {
                let ghost c = complete@;
                events.push(AttachmentReceiveEvent::Complete(complete));
                assert(event_views(events@) =~= seq![begin_view, ReceiveEventView::Complete(c)]);
                return Ok(events);
            },
            Err(e) => {
                return Err(e);
            },
        }
    }
    let ghost key = meta.transfer_id@;
    let ghost view = incoming@;
    let ghost before = state@;
    state.incoming.insert(meta.transfer_id, incoming);
    assert(state@ =~= before.insert(key, view));
    Ok(events)
}

/// Takes an announcement.
pub fn register_attachment(
    state: &mut AttachmentReceiveState,
    sender: String,
    meta: AttachmentMeta,
    store: &mut AttachmentStore,
) -> (out: Result<Vec<AttachmentReceiveEvent>, ReceiveError>)
    requires
        old(state).wf(),
        old(store).wf(),
    ensures
        final(state).wf(),
        final(store).wf(),
        exists|keys: KeysView, name_id: Seq<char>, names: PathNames|
            fresh_keys_shape(keys) && name_id.len() == 32 && lower_hex(name_id) && path_rule(names)
                && {
                let r = #[trigger] registered(
                    old(state)@,
                    old(store)@,
                    sender@,
                    meta@,
                    keys,
                    name_id,
                    names,
                );
                received_as(final(state)@, final(store)@, out, r)
            },
{
    let keys = fresh_store_keys();
    let name_id = fresh_id();
    register_attachment_with(state, sender, meta, store, &keys, name_id.as_str())
}

/// An attachment with one more piece. A piece that has come before stays as it came first.
pub open spec fn with_chunk(incoming: IncomingView, index: int, data: Seq<u8>) -> IncomingView {
    if incoming.chunks[index] is None {
        IncomingView { chunks: incoming.chunks.update(index, Some(data)), ..incoming }
    } else {
        incoming
    }
}

/// What a piece does, and what is told of it.
pub open spec fn appended(
    m: IncomingMap,
    store: StoreView,
    transfer_id: Seq<char>,
    index: usize,
    data: Seq<u8>,
    keys: KeysView,
    name_id: Seq<char>,
    names: PathNames,
) -> (IncomingMap, StoreView, Result<Seq<ReceiveEventView>, ReceiveFault>) {
    if !m.contains_key(transfer_id) {
        (m, store, Ok(Seq::empty()))
    } else if index >= m[transfer_id].chunks.len() {
        (m, store, Err(ReceiveFault::ChunkOutOfRange(index)))
    } else {
        let next = with_chunk(m[transfer_id], index as int, data);
        let progress = ReceiveEventView::Progress {
            transfer_id,
            received_chunks: arrived(next.chunks),
            total_chunks: next.chunks.len(),
        };
        if arrived(next.chunks) < next.chunks.len() {
            (m.insert(transfer_id, next), store, Ok(seq![progress]))
        } else {
            let f = finished(store, transfer_id, next, keys, name_id, names);
            (
                m.remove(transfer_id),
                f.0,
                match f.1 {
                    Ok(c) => Ok(seq![progress, ReceiveEventView::Complete(c)]),
                    Err(fault) => Err(fault),
                },
            )
        }
    }
}

/// Takes a piece, with given random parts for an attachment that it completes.
pub fn append_chunk_with(
    state: &mut AttachmentReceiveState,
    transfer_id: String,
    index: usize,
    data: Vec<u8>,
    store: &mut AttachmentStore,
    keys: &StoreKeys,
    name_id: &str,
) -> (out: Result<Vec<AttachmentReceiveEvent>, ReceiveError>)
    requires
        old(state).wf(),
        old(store).wf(),
    ensures
        final(state).wf(),
        final(store).wf(),
        exists|names: PathNames|
            path_rule(names) && received_as(
                final(state)@,
                final(store)@,
                out,
                #[trigger] appended(
                    old(state)@,
                    old(store)@,
                    transfer_id@,
                    index,
                    data@,
                    keys@,
                    name_id@,
                    names,
                ),
            ),
{
    let ghost m = state@;
    let ghost s0 = store@;
    let ghost source = state.incoming.map();
    let ghost r0 = appended(
        m,
        s0,
        transfer_id@,
        index,
        data@,
        keys@,
        name_id@,
        slash_names(),
    );
    proof {
        lemma_slash_names();
    }
    let mut events: Vec<AttachmentReceiveEvent> = Vec::new();
    assert(event_views(events@) =~= Seq::<ReceiveEventView>::empty());
    let total = match state.incoming.get(transfer_id.as_str()) {
        Some(incoming) => {
            assert(m[transfer_id@] == incoming@);
            assert(source[transfer_id@].wf());
            incoming.total_chunks
        },
        None => {
            return Ok(events);
        },
    };
    if index >= total {
        return Err(ReceiveError::ChunkOutOfRange(index));
    }
    let mut incoming = match state.incoming.remove(transfer_id.as_str()) {
        Some(incoming) => incoming,
        None => {
            assert(false);
            return Ok(events);
        },
    };
    assert(state@ =~= m.remove(transfer_id@));
    assert(source[transfer_id@] == incoming);
    let ghost before = incoming@;
    let ghost d = data@;
    let missing = match &incoming.chunks[index] {
        Some(_) => false,
        None => true,
    };
    proof {
        assert(before.chunks[index as int] == chunk_view(incoming.chunks@[index as int]));
        lemma_arrived(before.chunks);
    }
    if missing {
        proof {
            lemma_arrived_update(before.chunks, index as int, d);
            lemma_arrived(before.chunks.update(index as int, Some(d)));
        }
        incoming.chunks.set(index, Some(data));
        incoming.received_chunks = incoming.received_chunks + 1;
        assert(incoming@.chunks =~= before.chunks.update(index as int, Some(d)));
    }
    let ghost next = incoming@;
    assert(next == with_chunk(m[transfer_id@], index as int, d));
    let progress = AttachmentReceiveEvent::Progress {
        transfer_id: transfer_id.clone(),
        received_chunks: incoming.received_chunks,
        total_chunks: incoming.total_chunks,
    };
    let ghost p = progress@;
    events.push(progress);
    assert(event_views(events@) =~= seq![p]);
    if incoming.received_chunks != incoming.total_chunks {
        proof {
            lemma_arrived(next.chunks);
        }
        let ghost key = transfer_id@;
        let ghost mid = state@;
        state.incoming.insert(transfer_id, incoming);
        assert(state@ =~= mid.insert(key, next));
        assert(state@ =~= m.insert(key, next));
        return Ok(events);
    }
    let done = finalize_attachment(transfer_id, incoming, store, keys, name_id);
    let ghost names = choose|names: PathNames|
        path_rule(names) && stored_as(
            store@,
            done,
            #[trigger] finished(s0, transfer_id@, next, keys@, name_id@, names),
        );
    let ghost r1 = appended(m, s0, transfer_id@, index, d, keys@, name_id@, names);
    match done {
        Ok(complete) => {
            let ghost c = complete@;
            events.push(AttachmentReceiveEvent::Complete(complete));
            assert(event_views(events@) =~= seq![p, ReceiveEventView::Complete(c)]);
            Ok(events)
        },
        Err(e) => Err(e),
    }
}

/// Takes a piece.
pub fn append_chunk(
    state: &mut AttachmentReceiveState,
    transfer_id: String,
    index: usize,
    data: Vec<u8>,
    store: &mut AttachmentStore,
) -> (out: Result<Vec<AttachmentReceiveEvent>, ReceiveError>)
    requires
        old(state).wf(),
        old(store).wf(),
    ensures
        final(state).wf(),
        final(store).wf(),
        exists|keys: KeysView, name_id: Seq<char>, names: PathNames|
            fresh_keys_shape(keys) && name_id.len() == 32 && lower_hex(name_id) && path_rule(names)
                && {
                let r = #[trigger] appended(
                    old(state)@,
                    old(store)@,
                    transfer_id@,
                    index,
                    data@,
                    keys,
                    name_id,
                    names,
                );
                received_as(final(state)@, final(store)@, out, r)
            },
{
    let keys = fresh_store_keys();
    let name_id = fresh_id();
    append_chunk_with(state, transfer_id, index, data, store, &keys, name_id.as_str())
}

/// What an encrypted piece does, and what is told of it. A piece of an unknown transfer is ignored.
pub open spec fn appended_encrypted(
    m: IncomingMap,
    store: StoreView,
    chunk: ChunkView,
    keys: KeysView,
    name_id: Seq<char>,
    names: PathNames,
) -> (IncomingMap, StoreView, Result<Seq<ReceiveEventView>, ReceiveFault>) {
    if !m.contains_key(chunk.transfer_id) {
        (m, store, Ok(Seq::empty()))
    } else {
        let incoming = m[chunk.transfer_id];
        match chunk_opened(chunk, incoming.file_key, incoming.nonce_base) {
            Some(data) => appended(
                m,
                store,
                chunk.transfer_id,
                chunk.index,
                data,
                keys,
                name_id,
                names,
            ),
            None => (
                m,
                store,
                Err(
                    ReceiveFault::Chunk(
                        if chunk.index > u32::MAX {
                            ChunkError::IndexTooLarge
                        } else {
                            ChunkError::OpenFailed
                        },
                    ),
                ),
            ),
        }
    }
}

/// Takes an encrypted piece, with given random parts for an attachment that it completes.
pub fn append_encrypted_chunk_with(
    state: &mut AttachmentReceiveState,
    encrypted_chunk: EncryptedAttachmentChunk,
    store: &mut AttachmentStore,
    keys: &StoreKeys,
    name_id: &str,
) -> (out: Result<Vec<AttachmentReceiveEvent>, ReceiveError>)
    requires
        old(state).wf(),
        old(store).wf(),
    ensures
        final(state).wf(),
        final(store).wf(),
        exists|names: PathNames|
            path_rule(names) && received_as(
                final(state)@,
                final(store)@,
                out,
                #[trigger] appended_encrypted(
                    old(state)@,
                    old(store)@,
                    encrypted_chunk@,
                    keys@,
                    name_id@,
                    names,
                ),
            ),
{
    let ghost m0 = state@;
    let ghost s0 = store@;
    let ghost r0 = appended_encrypted(
        m0,
        s0,
        encrypted_chunk@,
        keys@,
        name_id@,
        slash_names(),
    );
    proof {
        lemma_slash_names();
    }
    let (file_key, nonce_base) = match state.incoming.get(encrypted_chunk.transfer_id.as_str()) {
        Some(incoming) => {
            assert(state@[encrypted_chunk.transfer_id@] == incoming@);
            (incoming.file_key, incoming.nonce_base)
        },
        None => {
            let events: Vec<AttachmentReceiveEvent> = Vec::new();
            assert(event_views(events@) =~= Seq::<ReceiveEventView>::empty());
            return Ok(events);
        },
    };
    match decrypt_file_chunk2(&encrypted_chunk, &file_key, &nonce_base) {
        Ok(data) => {
            let out = append_chunk_with(
                state,
                encrypted_chunk.transfer_id,
                encrypted_chunk.index,
                data,
                store,
                keys,
                name_id,
            );
            let ghost names = choose|names: PathNames|
                path_rule(names) && received_as(
                    state@,
                    store@,
                    out,
                    #[trigger] appended(
                        m0,
                        s0,
                        encrypted_chunk.transfer_id@,
                        encrypted_chunk.index,
                        data@,
                        keys@,
                        name_id@,
                        names,
                    ),
                );
            let ghost r1 = appended_encrypted(
                m0,
                s0,
                encrypted_chunk@,
                keys@,
                name_id@,
                names,
            );
            out
        },
        Err(e) => Err(ReceiveError::Chunk(e)),
    }
}

/// Takes an encrypted piece.
pub fn append_encrypted_chunk(
    state: &mut AttachmentReceiveState,
    encrypted_chunk: EncryptedAttachmentChunk,
    store: &mut AttachmentStore,
) -> (out: Result<Vec<AttachmentReceiveEvent>, ReceiveError>)
    requires
        old(state).wf(),
        old(store).wf(),
    ensures
        final(state).wf(),
        final(store).wf(),
        exists|keys: KeysView, name_id: Seq<char>, names: PathNames|
            fresh_keys_shape(keys) && name_id.len() == 32 && lower_hex(name_id) && path_rule(names)
                && {
                let r = #[trigger] appended_encrypted(
                    old(state)@,
                    old(store)@,
                    encrypted_chunk@,
                    keys,
                    name_id,
                    names,
                );
                received_as(final(state)@, final(store)@, out, r)
            },
{
    let keys = fresh_store_keys();
    let name_id = fresh_id();
    append_encrypted_chunk_with(state, encrypted_chunk, store, &keys, name_id.as_str())
}

/// A piece that has come before neither replaces the first nor is counted again.
pub proof fn law_repeated_chunk_changes_nothing(
    m: IncomingMap,
    store: StoreView,
    transfer_id: Seq<char>,
    index: usize,
    data: Seq<u8>,
    keys: KeysView,
    name_id: Seq<char>,
    names: PathNames,
)
    requires
        m.contains_key(transfer_id),
        index < m[transfer_id].chunks.len(),
        m[transfer_id].chunks[index as int] is Some,
        arrived(m[transfer_id].chunks) < m[transfer_id].chunks.len(),
    ensures
        appended(m, store, transfer_id, index, data, keys, name_id, names).0 == m,
        appended(m, store, transfer_id, index, data, keys, name_id, names).1 == store,
{
    assert(m.insert(transfer_id, m[transfer_id]) =~= m);
}

} // verus!
