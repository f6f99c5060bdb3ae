//! What sending, receiving and storing an attachment promise step by step.
use crate::attachments::receiver::{
    appended_encrypted, finished, manifest_fault, registered, whole, IncomingMap, IncomingView,
    ReceiveEventView, ReceiveFault,
};
use crate::attachments::sender::{
    chunk_packet_id, finished_all, job_wf, manifest_of, meta_packet_id, meta_stepped, new_job_view,
    piece_fault, progress_lines, pump_step, read_len, scanned, window_scanned, with_piece,
    FlightView, JobView, MetaAction, PumpStep, SendContext, SendFault,
};
use crate::attachments::store::{
    attachment_key, random_file_name, shown_extension, stored_bytes, stored_form, KeysView,
    StoreError, StoreView,
};
use crate::crypto::aead::{chacha_opened, sealable};
use crate::crypto::group::{encrypted, GroupView};
use crate::crypto::messages::{message_tree, SecureMessageType};
use crate::outside::aead::chacha_sealed;
use crate::outside::digest::{hkdf_sha256, sha256};
use crate::outside::encoding::{hex_text, hex_value};
use crate::outside::json::json_bytes;
use crate::protocol::attachment::{
    chunk_opened, chunk_sealed, chunk_view_line, AttachmentKind, ChunkView, MetaView,
};
use crate::protocol::line::tagged_line;
use crate::protocol::local_event::transfer_progress_line;
use crate::transport::packet::AckView;
use crate::util::path::{extension_of, safe_name, PathNames};
use crate::util::text::{decimal, lemma_decimal, trimmed};
use vstd::prelude::*;
use vstd::utf8::encode_utf8;

verus! {

/// An announcement is sent, waited for, sent again when it is overdue, and given up after the third
/// time. Once it is acknowledged the pieces may follow.
pub proof fn law_announcement_is_sent_until_acknowledged(
    j: JobView,
    acks: AckView,
    g: GroupView,
    now_ms: u64,
    now: i64,
)
    requires
        j.meta_last is None <==> j.meta_attempts == 0,
    ensures
        ({
            let (next, after, group, out) = meta_stepped(j, acks, g, now_ms, now);
            let id = j.meta_packet_id;
            let acked = acks.acked.contains(id);
            let waited = j.meta_last is Some && now_ms < j.meta_last->0 + 4500;
            &&& acked ==> {
                &&& out == Ok::<MetaAction, SendFault>(MetaAction::Acked)
                &&& next == (JobView { meta_sent: true, ..j })
                &&& !after.acked.contains(id)
                &&& !after.waiting.contains(id)
                &&& group == g
            }
            &&& !acked && waited ==> {
                &&& out == Ok::<MetaAction, SendFault>(MetaAction::Wait)
                &&& next == j
                &&& after == acks
                &&& group == g
            }
            &&& !acked && !waited && j.meta_attempts >= 3 ==> {
                &&& out == Err::<MetaAction, SendFault>(SendFault::MetaTimeout)
                &&& !after.waiting.contains(id)
                &&& next == j
            }
            &&& !acked && !waited && j.meta_attempts < 3 ==> {
                &&& after.waiting.contains(id)
                &&& out matches Ok(MetaAction::Send { packet_id, line }) ==> {
                    &&& packet_id == id
                    &&& next.meta_attempts == j.meta_attempts + 1
                    &&& next.meta_last == Some(now_ms)
                    &&& next.secure == Some(line)
                    &&& next.context is Some || j.plain is Some
                    &&& next.transfer_id == j.transfer_id
                    &&& next.next == j.next
                    &&& next.in_flight == j.in_flight
                    &&& !next.meta_sent || j.meta_sent
                }
                &&& out is Ok ==> out->Ok_0 is Send
            }
            &&& !acked ==> next.meta_sent == j.meta_sent
            &&& forall|other: Seq<char>|
                other != id
                    ==> (#[trigger] after.waiting.contains(other) <==> acks.waiting.contains(
                    other,
                )) && (after.acked.contains(other) <==> acks.acked.contains(other))
        }),
{
}

/// The first time the announcement is encrypted for the group; later the same line is sent again, so
/// that no further message of the group is used up.
pub proof fn law_announcement_is_encrypted_once(
    j: JobView,
    acks: AckView,
    g: GroupView,
    now_ms: u64,
    now: i64,
)
    requires
        meta_stepped(j, acks, g, now_ms, now).3 matches Ok(MetaAction::Send { .. }),
    ensures
        ({
            let (next, after, group, out) = meta_stepped(j, acks, g, now_ms, now);
            let line = out->Ok_0->line;
            &&& j.plain is Some && j.secure is Some ==> line == j.secure->0 && group == g
                && next.context == j.context
            &&& j.plain is None ==> {
                let e = encrypted(
                    g,
                    SecureMessageType::FileManifest,
                    encode_utf8(manifest_of(j, g)),
                    now,
                );
                &&& e.0 is Ok
                &&& line == tagged_line("/RMSG"@, json_bytes(message_tree(e.0->Ok_0)))
                &&& group == e.1
                &&& next.plain == Some(manifest_of(j, g))
                &&& next.context == Some(
                    SendContext { group_id: g.group_id, epoch: g.epoch, sender_id: g.me },
                )
            }
        }),
{
}

/// Whether packets have names of their own.
pub open spec fn distinct_packets(flights: Seq<FlightView>) -> bool {
    forall|i: int, j: int|
        0 <= i < j < flights.len() ==> #[trigger] flights[i].packet_id
            != #[trigger] flights[j].packet_id
}

/// A look at the pieces under way finds of each what became of it: one that was acknowledged is
/// done, one whose time is not over stays as it is, and one whose time is over is sent again.
pub proof fn law_every_piece_is_looked_at(
    flights: Seq<FlightView>,
    acked: Set<Seq<char>>,
    now_ms: u64,
    k: int,
)
    requires
        distinct_packets(flights),
        forall|i: int|
            0 <= i < flights.len() ==> (#[trigger] flights[i]).attempts < 3 || acked.contains(
                flights[i].packet_id,
            ) || now_ms < flights[i].last_sent_at + 4500,
        0 <= k < flights.len(),
    ensures
        ({
            let s = scanned(flights, acked, now_ms);
            let f = flights[k];
            let late = now_ms >= f.last_sent_at + 4500;
            &&& s.failed is None
            &&& acked.contains(f.packet_id) ==> s.confirmed.contains(f.packet_id)
            &&& !acked.contains(f.packet_id) && !late ==> s.kept.contains(f)
            &&& !acked.contains(f.packet_id) && late ==> {
                &&& s.resent.contains((f.packet_id, f.chunk_line))
                &&& s.kept.contains(
                    FlightView {
                        attempts: (f.attempts + 1) as usize,
                        last_sent_at: now_ms,
                        ..f
                    },
                )
            }
        }),
    decreases flights.len(),
{
    let s = scanned(flights, acked, now_ms);
    let f = flights[0];
    let rest = flights.drop_first();
    assert forall|i: int| 0 <= i < rest.len() implies (#[trigger] rest[i]).packet_id
        != f.packet_id by {
        assert(rest[i] == flights[i + 1]);
        assert(flights[0].packet_id != flights[i + 1].packet_id);
    }
    assert forall|i: int, j: int| 0 <= i < j < rest.len() implies #[trigger] rest[i].packet_id
        != #[trigger] rest[j].packet_id by {
        assert(flights[i + 1].packet_id != flights[j + 1].packet_id);
    }
    let left = if acked.contains(f.packet_id) {
        acked.remove(f.packet_id)
    } else {
        acked
    };
    assert forall|i: int| 0 <= i < rest.len() implies (#[trigger] rest[i]).attempts < 3
        || left.contains(rest[i].packet_id) || now_ms < rest[i].last_sent_at + 4500 by {
        assert(rest[i] == flights[i + 1]);
    }
    let r = scanned(rest, left, now_ms);
    let again = FlightView { attempts: (f.attempts + 1) as usize, last_sent_at: now_ms, ..f };
    assert(f.attempts < 3 || acked.contains(f.packet_id) || now_ms < f.last_sent_at + 4500);
    if rest.len() > 0 {
        law_every_piece_is_looked_at(
            rest,
            left,
            now_ms,
            if k > 0 {
                k - 1
            } else {
                0
            },
        );
    }
    if acked.contains(f.packet_id) {
        assert(s.confirmed =~= seq![f.packet_id] + r.confirmed);
        assert(s.confirmed[0] == f.packet_id);
    } else if now_ms < f.last_sent_at + 4500 {
        assert(s.kept =~= seq![f] + r.kept);
        assert(s.kept[0] == f);
    } else {
        assert(s.kept =~= seq![again] + r.kept);
        assert(s.kept[0] == again);
        assert(s.resent =~= seq![(f.packet_id, f.chunk_line)] + r.resent);
        assert(s.resent[0] == (f.packet_id, f.chunk_line));
    }
    if k > 0 {
        let g = flights[k];
        assert(rest[k - 1] == g);
        let g_again = FlightView {
            attempts: (g.attempts + 1) as usize,
            last_sent_at: now_ms,
            ..g
        };
        lemma_behind(r.confirmed, s.confirmed, g.packet_id);
        lemma_behind(r.kept, s.kept, g);
        lemma_behind(r.kept, s.kept, g_again);
        lemma_behind(r.resent, s.resent, (g.packet_id, g.chunk_line));
    }
}

/// What a sequence holds, a longer one that ends with it holds too.
proof fn lemma_behind<A>(part: Seq<A>, all: Seq<A>, x: A)
    requires
        part.len() <= all.len() <= part.len() + 1,
        part =~= all.skip(all.len() - part.len()),
    ensures
        part.contains(x) ==> all.contains(x),
{
    if part.contains(x) {
        let i = choose|i: int| 0 <= i < part.len() && part[i] == x;
        assert(all[i + (all.len() - part.len())] == x);
    }
}

/// A piece that was sent three times and is still not acknowledged when its time is over ends the
/// transfer.
pub proof fn law_piece_is_given_up(
    f: FlightView,
    rest: Seq<FlightView>,
    acked: Set<Seq<char>>,
    now_ms: u64,
)
    requires
        f.attempts >= 3,
        !acked.contains(f.packet_id),
        now_ms >= f.last_sent_at + 4500,
    ensures
        scanned(seq![f] + rest, acked, now_ms).failed == Some(f.chunk_index),
{
    let flights = seq![f] + rest;
    assert(flights[0] == f);
}

/// The display is told of every acknowledged piece, up to the number that are acknowledged now.
pub proof fn law_progress_reaches_what_is_acknowledged(
    j: JobView,
    acked: Set<Seq<char>>,
    now_ms: u64,
)
    requires
        job_wf(j),
        scanned(j.in_flight, acked, now_ms).confirmed.len() > 0,
        j.acked + scanned(j.in_flight, acked, now_ms).confirmed.len() <= usize::MAX,
    ensures
        ({
            let s = scanned(j.in_flight, acked, now_ms);
            let lines = progress_lines(j, s.confirmed.len());
            let next = window_scanned(j, s);
            &&& lines.len() == next.acked - j.acked
            &&& lines.last() == transfer_progress_line(
                j.transfer_id,
                next.acked,
                j.total_chunks,
            )
            &&& forall|i: int|
                0 <= i < lines.len() ==> #[trigger] lines[i] == transfer_progress_line(
                    j.transfer_id,
                    (j.acked + i + 1) as usize,
                    j.total_chunks,
                )
        }),
{
}

/// The packets of a transfer have names of their own: no two pieces share one, and the announcement
/// has another.
pub proof fn law_packets_have_names_of_their_own(transfer_id: Seq<char>, a: usize, b: usize)
    ensures
        chunk_packet_id(transfer_id, a) == chunk_packet_id(transfer_id, b) <==> a == b,
        chunk_packet_id(transfer_id, a) != meta_packet_id(transfer_id),
{
    let head = "att-"@ + transfer_id;
    let x = chunk_packet_id(transfer_id, a);
    let y = chunk_packet_id(transfer_id, b);
    let m = meta_packet_id(transfer_id);
    reveal_strlit("-chunk-");
    reveal_strlit("-meta");
    let h = head.len() as int;
    assert(x[h + 1] == 'c');
    assert(m[h + 1] == 'm');
    if x == y {
        let k = h + "-chunk-"@.len();
        assert(x.skip(k) =~= decimal(a as nat));
        assert(y.skip(k) =~= decimal(b as nat));
        lemma_decimal(a as nat);
        lemma_decimal(b as nat);
    }
}

/// A new job has nothing sent, and its pieces are just as many as its bytes ask for.
pub proof fn law_new_job_covers_its_bytes(
    transfer_id: Seq<char>,
    file_name: Seq<char>,
    kind: AttachmentKind,
    total_size: u64,
    sha256_hex: Seq<char>,
    file_key: Seq<u8>,
    nonce_base: Seq<u8>,
)
    requires
        total_size <= usize::MAX,
    ensures
        ({
            let j = new_job_view(
                transfer_id,
                file_name,
                kind,
                total_size,
                sha256_hex,
                file_key,
                nonce_base,
            );
            &&& job_wf(j)
            &&& j.total_chunks * 32768 >= total_size
            &&& total_size > 0 ==> (j.total_chunks - 1) * 32768 < total_size
            &&& total_size == 0 ==> j.total_chunks == 0
            &&& j.file_name == file_name
            &&& j.kind == kind
            &&& j.total_size == total_size
            &&& j.sha256_hex == sha256_hex
            &&& j.file_key == file_key
            &&& j.nonce_base == nonce_base
            &&& !j.meta_sent
            &&& j.acked == 0
            &&& j.context is None
        }),
{
}

/// A read takes what there is, as far as there is room for it.
pub proof fn law_read_takes_what_fits(len: nat, offset: nat, room: nat)
    requires
        offset <= len,
    ensures
        read_len(len, offset, room) <= room,
        offset + read_len(len, offset, room) <= len,
        read_len(len, offset, room) < room ==> offset + read_len(len, offset, room) == len,
{
}

/// The pieces are taken up one after the other, each under its own name and in the form in which it
/// was announced.
pub proof fn law_pieces_are_taken_up_in_order(
    j: JobView,
    c: SendContext,
    data: Seq<u8>,
    now_ms: u64,
)
    requires
        j.next < usize::MAX,
    ensures
        ({
            let next = with_piece(j, c, data, now_ms);
            let f = next.in_flight.last();
            &&& next.in_flight.drop_last() == j.in_flight
            &&& next.next == j.next + 1
            &&& next.acked == j.acked
            &&& f.chunk_index == j.next
            &&& f.packet_id == chunk_packet_id(j.transfer_id, j.next)
            &&& f.attempts == 1
            &&& f.last_sent_at == now_ms
            &&& f.chunk_line == chunk_view_line(
                chunk_sealed(
                    c.group_id,
                    c.epoch,
                    c.sender_id,
                    j.transfer_id,
                    j.next,
                    j.total_chunks,
                    data,
                    j.file_key,
                    j.nonce_base,
                ),
            )
            &&& next == (JobView { next: next.next, in_flight: next.in_flight, ..j })
        }),
{
    assert(with_piece(j, c, data, now_ms).in_flight.drop_last() =~= j.in_flight);
}

/// No piece is taken up before the announcement, and none that is empty.
pub proof fn law_no_piece_without_announcement(j: JobView, label: Seq<char>, data: Seq<u8>)
    ensures
        piece_fault(j, label, data) is None <==> j.context is Some && data.len() > 0 && j.next
            <= u32::MAX && sealable(data),
        j.context is None ==> piece_fault(j, label, data) == Some(SendFault::NoContext),
        j.context is Some && data.len() == 0 ==> piece_fault(j, label, data) == Some(
            SendFault::UnexpectedEof(label),
        ),
{
}

/// Packets that are given up are neither waited for nor acknowledged any more; all others are as
/// they were.
pub proof fn law_given_up_packets_are_forgotten(acks: AckView, ids: Seq<Seq<char>>, id: Seq<char>)
    ensures
        finished_all(acks, ids).waiting.contains(id) <==> acks.waiting.contains(id)
            && !ids.contains(id),
        finished_all(acks, ids).acked.contains(id) <==> acks.acked.contains(id) && !ids.contains(
            id,
        ),
    decreases ids.len(),
{
    if ids.len() > 0 {
        law_given_up_packets_are_forgotten(acks, ids.drop_last(), id);
        assert(ids.contains(id) <==> ids.drop_last().contains(id) || id == ids.last()) by {
            if ids.contains(id) {
                let i = choose|i: int| 0 <= i < ids.len() && ids[i] == id;
                if i < ids.len() - 1 {
                    assert(ids.drop_last()[i] == id);
                }
            }
            if ids.drop_last().contains(id) {
                let i = choose|i: int| 0 <= i < ids.drop_last().len() && ids.drop_last()[i] == id;
                assert(ids[i] == id);
            }
            assert(ids.contains(ids.last()));
        }
    }
}

/// One attachment is sent at a time: its announcement first, then its pieces. Another is prepared
/// only when none is being sent or prepared.
pub proof fn law_one_attachment_at_a_time(
    active_meta_sent: Option<bool>,
    preparation_over: Option<bool>,
    more_wait: bool,
)
    ensures
        ({
            let step = pump_step(active_meta_sent, preparation_over, more_wait);
            &&& step == PumpStep::Window <==> active_meta_sent == Some(true)
            &&& step == PumpStep::Meta <==> active_meta_sent == Some(false)
            &&& step == PumpStep::Prepare <==> active_meta_sent is None && preparation_over is None
                && more_wait
            &&& step == PumpStep::Collect <==> active_meta_sent is None && preparation_over
                == Some(true)
        }),
{
}

/// An announcement is accepted when it has pieces just where it has bytes, and a checksum of
/// sixty-four hexadecimal digits.
pub proof fn law_sound_announcement_is_accepted(
    total_chunks: usize,
    total_size: u64,
    checksum: Seq<char>,
)
    ensures
        manifest_fault(total_chunks, total_size, checksum) is None <==> (total_chunks == 0
            <==> total_size == 0) && checksum.len() == 64 && forall|i: int|
            0 <= i < 64 ==> hex_value(#[trigger] checksum[i]) is Some,
{
}

/// An attachment that is complete has the size and the checksum that were announced, and the name,
/// the sender and the kind; it is added to the store under its safe name. One that is not as it was
/// announced is not stored.
pub proof fn law_complete_attachment_is_as_announced(
    store: StoreView,
    transfer_id: Seq<char>,
    incoming: IncomingView,
    keys: KeysView,
    name_id: Seq<char>,
    names: PathNames,
)
    ensures
        ({
            let (after, out) = finished(store, transfer_id, incoming, keys, name_id, names);
            let bytes = whole(incoming.chunks);
            let name = safe_name(names(incoming.file_name), name_id);
            &&& out is Ok <==> bytes.len() == incoming.total_size && hex_text(sha256(bytes))
                == incoming.sha256_hex && sealable(bytes)
            &&& out is Err ==> after == store
            &&& out is Ok ==> {
                &&& (out->Ok_0).transfer_id == transfer_id
                &&& (out->Ok_0).attachment_id == keys.attachment_id
                &&& (out->Ok_0).sender == incoming.sender
                &&& (out->Ok_0).total_size == incoming.total_size
                &&& (out->Ok_0).kind == incoming.kind
                &&& (out->Ok_0).file_name == name
                &&& after.unwritten.len() == store.unwritten.len() + 1
                &&& after.unwritten.drop_last() == store.unwritten
                &&& after.unwritten.last().attachment_id == keys.attachment_id
                &&& after.unwritten.last().display_name == name
                &&& after.unwritten.last().encoded == stored_form(
                    store.key,
                    keys.attachment_id,
                    keys.salt,
                    keys.nonce,
                    bytes,
                )
                &&& after.key == store.key
            }
        }),
{
    let (after, out) = finished(store, transfer_id, incoming, keys, name_id, names);
    if out is Ok {
        assert(after.unwritten.drop_last() =~= store.unwritten);
    }
}

/// An announcement that is accepted is told of, and begins a transfer under its identifier, with
/// what was announced; one without bytes is complete at once. One that is refused changes nothing.
/// No other transfer is touched.
pub proof fn law_announcement_begins_a_transfer(
    m: IncomingMap,
    store: StoreView,
    sender: Seq<char>,
    meta: MetaView,
    keys: KeysView,
    name_id: Seq<char>,
    names: PathNames,
)
    ensures
        ({
            let (next, after, out) = registered(m, store, sender, meta, keys, name_id, names);
            let fault = manifest_fault(meta.total_chunks, meta.total_size, meta.sha256_hex);
            &&& fault is Some ==> next == m && after == store && out is Err
            &&& fault is None && meta.total_chunks > 0 ==> {
                let begun = next[meta.transfer_id];
                &&& next == m.insert(meta.transfer_id, begun)
                &&& begun.sender == sender
                &&& begun.file_name == meta.file_name
                &&& begun.total_size == meta.total_size
                &&& begun.sha256_hex == meta.sha256_hex
                &&& begun.kind == meta.kind
                &&& begun.file_key == meta.file_key
                &&& begun.nonce_base == meta.nonce_base
                &&& begun.chunks.len() == meta.total_chunks
                &&& forall|i: int| 0 <= i < begun.chunks.len()
                    ==> #[trigger] begun.chunks[i] is None
                &&& after == store
            }
            &&& fault is None && meta.total_chunks == 0 ==> next == m
            &&& out is Ok ==> {
                &&& out->Ok_0.len() == (if meta.total_chunks == 0 {
                    2nat
                } else {
                    1nat
                })
                &&& out->Ok_0[0] == (ReceiveEventView::Begin {
                    transfer_id: meta.transfer_id,
                    file_name: meta.file_name,
                    total_chunks: meta.total_chunks as nat,
                    total_size: meta.total_size,
                })
                &&& meta.total_chunks == 0 ==> out->Ok_0[1] is Complete
            }
        }),
{
}

/// A piece of an unknown transfer is ignored, and one beyond the announced number is refused; a piece
/// that does not open is refused. None of them changes anything, and no piece touches another
/// transfer.
pub proof fn law_wrong_pieces_change_nothing(
    m: IncomingMap,
    store: StoreView,
    chunk: ChunkView,
    keys: KeysView,
    name_id: Seq<char>,
    names: PathNames,
    other: Seq<char>,
)
    ensures
        ({
            let (next, after, out) = appended_encrypted(m, store, chunk, keys, name_id, names);
            let id = chunk.transfer_id;
            &&& !m.contains_key(id) ==> next == m && after == store && out == Ok::<
                Seq<ReceiveEventView>,
                ReceiveFault,
            >(Seq::empty())
            &&& m.contains_key(id) && chunk_opened(chunk, m[id].file_key, m[id].nonce_base) is None
                ==> next == m && after == store && out is Err
            &&& m.contains_key(id) && chunk.index >= m[id].chunks.len() ==> next == m && after
                == store && out is Err
            &&& other != id ==> (next.contains_key(other) <==> m.contains_key(other))
            &&& other != id && m.contains_key(other) ==> next[other] == m[other]
        }),
{
}

/// What is stored begins with the mark and the version, and behind them stand the salt, the nonce
/// and the sealed bytes; read with the same key under the same identifier it gives the bytes back.
pub proof fn law_stored_attachment_is_read_back(
    master: Seq<u8>,
    id: Seq<char>,
    salt: Seq<u8>,
    nonce: Seq<u8>,
    bytes: Seq<u8>,
)
    requires
        salt.len() == 32,
        nonce.len() == 12,
        chacha_opened(
            attachment_key(master, salt, id),
            nonce,
            Seq::empty(),
            chacha_sealed(attachment_key(master, salt, id), nonce, Seq::empty(), bytes),
        ) == Some(bytes),
    ensures
        ({
            let stored = stored_form(master, id, salt, nonce, bytes);
            &&& stored.take(5) == seq![0x9du8, 0x41u8, 0x7au8, 0x26u8, 1u8]
            &&& stored.subrange(5, 37) == salt
            &&& stored.subrange(37, 49) == nonce
            &&& stored_bytes(master, id, stored) == Ok::<Seq<u8>, StoreError>(bytes)
        }),
{
    let key = attachment_key(master, salt, id);
    let sealed = chacha_sealed(key, nonce, Seq::empty(), bytes);
    let stored = stored_form(master, id, salt, nonce, bytes);
    let mark = seq![0x9du8, 0x41u8, 0x7au8, 0x26u8, 1u8];
    assert(stored.take(5) =~= mark);
    assert(stored.take(4) =~= mark.take(4));
    assert(stored.subrange(5, 37) =~= salt);
    assert(stored.subrange(37, 49) =~= nonce);
    assert(stored.skip(49) =~= sealed);
}

/// What is not a stored attachment is not read: it is too short, or its mark, its version or its
/// contents are wrong.
pub proof fn law_other_bytes_are_not_read(master: Seq<u8>, id: Seq<char>, encoded: Seq<u8>)
    ensures
        encoded.len() < 49 ==> stored_bytes(master, id, encoded) == Err::<Seq<u8>, StoreError>(
            StoreError::Truncated,
        ),
        encoded.len() >= 49 && encoded.take(4) != seq![0x9du8, 0x41u8, 0x7au8, 0x26u8]
            ==> stored_bytes(master, id, encoded) == Err::<Seq<u8>, StoreError>(
            StoreError::BadMagic,
        ),
        encoded.len() >= 49 && encoded[4] != 1 ==> stored_bytes(master, id, encoded) is Err,
{
    assert(seq![0x9du8, 0x41u8, 0x7au8, 0x26u8, 1u8].take(4) =~= seq![
        0x9du8,
        0x41u8,
        0x7au8,
        0x26u8,
    ]);
}

/// Every attachment has a key of its own: it comes from the store's key with a salt, and under the
/// identifier.
pub proof fn law_every_attachment_has_a_key(
    master: Seq<u8>,
    salt: Seq<u8>,
    a: Seq<char>,
    b: Seq<char>,
)
    ensures
        exists|x: Seq<u8>, y: Seq<u8>|
            {
                &&& attachment_key(master, salt, a) == #[trigger] hkdf_sha256(
                    Some(salt),
                    master,
                    x,
                    32,
                )
                &&& attachment_key(master, salt, b) == #[trigger] hkdf_sha256(
                    Some(salt),
                    master,
                    y,
                    32,
                )
                &&& x == y <==> a == b
            },
{
    let x = encode_utf8(a);
    let y = encode_utf8(b);
    assert(attachment_key(master, salt, a) == hkdf_sha256(Some(salt), master, x, 32));
    assert(attachment_key(master, salt, b) == hkdf_sha256(Some(salt), master, y, 32));
    if x == y {
        crate::crypto::safety::lemma_text_bytes_injective(a, b);
    }
}

/// A file on disk is called by the digits of random bytes, two for each, and by the extension where
/// there is one.
pub proof fn law_random_names(bytes: Seq<u8>, ext: Seq<char>)
    ensures
        random_file_name(bytes, None) == hex_text(bytes),
        random_file_name(bytes, Some(Seq::empty())) == hex_text(bytes),
        ext.len() > 0 ==> {
            let name = random_file_name(bytes, Some(ext));
            &&& name.take(2 * bytes.len() as int) == hex_text(bytes)
            &&& name[2 * bytes.len() as int] == '.'
            &&& name.skip(2 * bytes.len() as int + 1) == ext
        },
{
    reveal_strlit(".");
    if ext.len() > 0 {
        let name = random_file_name(bytes, Some(ext));
        assert(name.take(2 * bytes.len() as int) =~= hex_text(bytes));
        assert(name.skip(2 * bytes.len() as int + 1) =~= ext);
    }
}

/// The extension of a name is shown unless it is blank.
pub proof fn law_extension_is_shown(name: Option<Seq<char>>)
    ensures
        extension_of(name) is None ==> shown_extension(name) is None,
        extension_of(name) is Some && trimmed(extension_of(name)->0).len() > 0 ==> shown_extension(
            name,
        ) == extension_of(name),
        extension_of(name) is Some && trimmed(extension_of(name)->0).len() == 0 ==> shown_extension(
            name,
        ) is None,
{
}

} // verus!
