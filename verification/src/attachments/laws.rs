//! What sending and receiving an attachment promise together.
use crate::attachments::receiver::{
    appended, appended_encrypted, arrived, lemma_arrived, started, whole, with_chunk, CompletedView,
    IncomingMap, IncomingView, ReceiveEventView, ReceiveFault,
};
use crate::attachments::sender::{chunk_count, law_pieces_make_the_whole, piece, pieces};
use crate::attachments::store::{with_attachment, KeysView, StoreView};
use crate::crypto::aead::sealable;
use crate::outside::digest::sha256;
use crate::outside::encoding::hex_text;
use crate::protocol::attachment::{chunk_opened, ChunkView, MetaView};
use crate::util::path::{safe_name, PathNames};
use vstd::prelude::*;

verus! {

/// Whether what is being received is on its way to be some bytes: it awaits their pieces, and the
/// pieces that have come are theirs.
pub open spec fn becomes(incoming: IncomingView, bytes: Seq<u8>) -> bool {
    &&& incoming.chunks.len() == chunk_count(bytes.len())
    &&& incoming.total_size == bytes.len()
    &&& incoming.sha256_hex == hex_text(sha256(bytes))
    &&& forall|i: int|
        0 <= i < incoming.chunks.len() ==> (#[trigger] incoming.chunks[i]) is None
            || incoming.chunks[i] == Some(piece(bytes, i))
}

/// Once some bytes have been announced, they are awaited.
pub proof fn law_announced_bytes_are_awaited(sender: Seq<char>, meta: MetaView, bytes: Seq<u8>)
    requires
        meta.total_chunks == chunk_count(bytes.len()),
        meta.total_size == bytes.len(),
        meta.sha256_hex == hex_text(sha256(bytes)),
    ensures
        becomes(started(sender, meta), bytes),
{
}

/// Pieces of the awaited bytes may come in any order and any number of times: as long as one is
/// missing the bytes are still awaited, and with the last the attachment is complete and what is
/// stored is the bytes that were sent.
pub proof fn law_attachment_comes_through(
    m: IncomingMap,
    store: StoreView,
    transfer_id: Seq<char>,
    index: usize,
    bytes: Seq<u8>,
    keys: KeysView,
    name_id: Seq<char>,
    names: PathNames,
)
    requires
        m.contains_key(transfer_id),
        becomes(m[transfer_id], bytes),
        index < chunk_count(bytes.len()),
        sealable(bytes),
    ensures
        ({
            let next = with_chunk(m[transfer_id], index as int, piece(bytes, index as int));
            let r = appended(
                m,
                store,
                transfer_id,
                index,
                piece(bytes, index as int),
                keys,
                name_id,
                names,
            );
            if arrived(next.chunks) < chunk_count(bytes.len()) {
                r.0.contains_key(transfer_id) && becomes(r.0[transfer_id], bytes) && r.1 == store
            } else {
                &&& !r.0.contains_key(transfer_id)
                &&& r.1 == with_attachment(
                    store,
                    safe_name(names(m[transfer_id].file_name), name_id),
                    bytes,
                    keys,
                )
                &&& r.2 matches Ok(events)
                &&& events.len() == 2
                &&& events[1] matches ReceiveEventView::Complete(c)
                &&& c.total_size == bytes.len()
                &&& c.sender == m[transfer_id].sender
            }
        }),
{
    let next = with_chunk(m[transfer_id], index as int, piece(bytes, index as int));
    assert forall|i: int| 0 <= i < next.chunks.len() implies (#[trigger] next.chunks[i]) is None
        || next.chunks[i] == Some(piece(bytes, i)) by {
        assert(m[transfer_id].chunks[i] is None || m[transfer_id].chunks[i] == Some(
            piece(bytes, i),
        ));
    }
    lemma_arrived(next.chunks);
    if arrived(next.chunks) == next.chunks.len() {
        assert(next.chunks =~= pieces(bytes, chunk_count(bytes.len()))) by {
            assert forall|i: int| 0 <= i < next.chunks.len() implies next.chunks[i] == Some(
                piece(bytes, i),
            ) by {
                assert(next.chunks[i] is Some);
            }
        }
        law_pieces_make_the_whole(bytes);
    }
}

/// An encrypted piece counts as the piece inside it.
pub proof fn law_encrypted_piece_counts_as_the_piece(
    m: IncomingMap,
    store: StoreView,
    chunk: ChunkView,
    data: Seq<u8>,
    keys: KeysView,
    name_id: Seq<char>,
    names: PathNames,
)
    requires
        m.contains_key(chunk.transfer_id),
        chunk_opened(
            chunk,
            m[chunk.transfer_id].file_key,
            m[chunk.transfer_id].nonce_base,
        ) == Some(data),
    ensures
        appended_encrypted(m, store, chunk, keys, name_id, names) == appended(
            m,
            store,
            chunk.transfer_id,
            chunk.index,
            data,
            keys,
            name_id,
            names,
        ),
{
}

/// A piece that comes: which one, and the random parts and the names of files that count, should it
/// complete the attachment.
pub ghost struct PieceArrival {
    pub index: usize,
    pub keys: KeysView,
    pub name_id: Seq<char>,
    pub names: PathNames,
}

/// What is being received, and the store, after some pieces have come.
pub open spec fn after_pieces(
    m: IncomingMap,
    store: StoreView,
    transfer_id: Seq<char>,
    parts: Seq<Seq<u8>>,
    arrivals: Seq<PieceArrival>,
) -> (IncomingMap, StoreView)
    decreases arrivals.len(),
{
    if arrivals.len() == 0 {
        (m, store)
    } else {
        let before = after_pieces(m, store, transfer_id, parts, arrivals.drop_last());
        let r = piece_came(before, transfer_id, parts, arrivals.last());
        (r.0, r.1)
    }
}

/// What one more piece does, and what is told of it.
pub open spec fn piece_came(
    before: (IncomingMap, StoreView),
    transfer_id: Seq<char>,
    parts: Seq<Seq<u8>>,
    a: PieceArrival,
) -> (IncomingMap, StoreView, Result<Seq<ReceiveEventView>, ReceiveFault>) {
    appended(
        before.0,
        before.1,
        transfer_id,
        a.index,
        parts[a.index as int],
        a.keys,
        a.name_id,
        a.names,
    )
}

/// The pieces that have come.
pub open spec fn seen_pieces(arrivals: Seq<PieceArrival>) -> Set<int> {
    arrivals.map_values(|a: PieceArrival| a.index as int).to_set()
}

/// The places of an attachment of which some pieces have come.
pub open spec fn filled(parts: Seq<Seq<u8>>, seen: Set<int>) -> Seq<Option<Seq<u8>>> {
    Seq::new(
        parts.len(),
        |i: int|
            if seen.contains(i) {
                Some(parts[i])
            } else {
                None
            },
    )
}

/// The parts one after the other.
pub open spec fn put_together(parts: Seq<Seq<u8>>) -> Seq<u8> {
    whole(parts.map_values(|p: Seq<u8>| Some(p)))
}

/// Whether an announcement is that of some parts, of any sizes.
pub open spec fn announces(meta: MetaView, parts: Seq<Seq<u8>>) -> bool {
    &&& meta.total_chunks == parts.len() > 0
    &&& meta.total_size == put_together(parts).len()
    &&& meta.sha256_hex == hex_text(sha256(put_together(parts)))
}

/// The pieces that have come are counted once each.
proof fn lemma_arrived_filled(parts: Seq<Seq<u8>>, seen: Set<int>)
    requires
        seen.finite(),
        forall|i: int| #[trigger] seen.contains(i) ==> 0 <= i < parts.len(),
    ensures
        arrived(filled(parts, seen)) == seen.len(),
    decreases parts.len(),
{
    let chunks = filled(parts, seen);
    if parts.len() == 0 {
        assert(seen =~= Set::<int>::empty());
    } else {
        let last = parts.len() - 1;
        let rest = seen.remove(last);
        let front = parts.drop_last();
        lemma_arrived_filled(front, rest);
        assert(chunks.drop_last() =~= filled(front, rest));
        if !seen.contains(last) {
            assert(rest =~= seen);
        }
    }
}

/// As many different pieces as there are places are all the pieces.
proof fn lemma_all_seen(n: nat, seen: Set<int>)
    requires
        seen.finite(),
        forall|i: int| #[trigger] seen.contains(i) ==> 0 <= i < n,
    ensures
        seen.len() <= n,
        seen.len() == n ==> forall|i: int| 0 <= i < n ==> #[trigger] seen.contains(i),
    decreases n,
{
    if n == 0 {
        assert(seen =~= Set::<int>::empty());
    } else {
        let last = n - 1;
        let rest = seen.remove(last);
        lemma_all_seen((n - 1) as nat, rest);
        if !seen.contains(last) {
            assert(rest =~= seen);
        }
        if seen.len() == n {
            assert forall|i: int| 0 <= i < n implies #[trigger] seen.contains(i) by {
                if i < last {
                    assert(rest.contains(i));
                }
            }
        }
    }
}

/// One more arrival adds its piece.
proof fn lemma_seen_step(arrivals: Seq<PieceArrival>, n: int)
    requires
        0 < n <= arrivals.len(),
    ensures
        seen_pieces(arrivals.take(n)) == seen_pieces(arrivals.take(n - 1)).insert(
            arrivals[n - 1].index as int,
        ),
{
    let now = arrivals.take(n).map_values(|a: PieceArrival| a.index as int);
    let before = arrivals.take(n - 1).map_values(|a: PieceArrival| a.index as int);
    assert(now =~= before.push(arrivals[n - 1].index as int));
    assert forall|x: int| now.to_set().contains(x) == before.to_set().insert(
        arrivals[n - 1].index as int,
    ).contains(x) by {
        if before.contains(x) {
            let i = choose|i: int| 0 <= i < before.len() && before[i] == x;
            assert(now[i] == x);
        }
        if x == arrivals[n - 1].index as int {
            assert(now[n - 1] == x);
        }
        if now.contains(x) {
            let i = choose|i: int| 0 <= i < now.len() && now[i] == x;
            if i < n - 1 {
                assert(before[i] == x);
            }
        }
    }
    assert(now.to_set() =~= before.to_set().insert(arrivals[n - 1].index as int));
}

/// The pieces that have come are pieces of the attachment.
proof fn lemma_seen_range(arrivals: Seq<PieceArrival>, count: nat, n: int)
    requires
        forall|a: int| 0 <= a < arrivals.len() ==> (#[trigger] arrivals[a]).index < count,
        0 <= n <= arrivals.len(),
    ensures
        seen_pieces(arrivals.take(n)).finite(),
        forall|i: int| #[trigger] seen_pieces(arrivals.take(n)).contains(i) ==> 0 <= i < count,
{
    let indices = arrivals.take(n).map_values(|a: PieceArrival| a.index as int);
    vstd::seq_lib::seq_to_set_is_finite(indices);
    assert forall|i: int| #[trigger] seen_pieces(arrivals.take(n)).contains(i) implies 0 <= i
        < count by {
        assert(indices.contains(i));
        let k = choose|k: int| 0 <= k < indices.len() && indices[k] == i;
        assert(arrivals[k].index < count);
    }
}

/// What one more piece does to an attachment of which the pieces `seen` have come.
proof fn lemma_piece_came(
    before: (IncomingMap, StoreView),
    sender: Seq<char>,
    meta: MetaView,
    parts: Seq<Seq<u8>>,
    seen: Set<int>,
    a: PieceArrival,
)
    requires
        announces(meta, parts),
        sealable(put_together(parts)),
        seen.finite(),
        forall|i: int| #[trigger] seen.contains(i) ==> 0 <= i < parts.len(),
        a.index < parts.len(),
        before.0.contains_key(meta.transfer_id),
        before.0[meta.transfer_id] == (IncomingView {
            chunks: filled(parts, seen),
            ..started(sender, meta)
        }),
    ensures
        ({
            let r = piece_came(before, meta.transfer_id, parts, a);
            let now = seen.insert(a.index as int);
            let progress = ReceiveEventView::Progress {
                transfer_id: meta.transfer_id,
                received_chunks: now.len(),
                total_chunks: parts.len(),
            };
            if now.len() < parts.len() {
                &&& r.0.contains_key(meta.transfer_id)
                &&& r.0[meta.transfer_id] == (IncomingView {
                    chunks: filled(parts, now),
                    ..started(sender, meta)
                })
                &&& r.1 == before.1
                &&& r.2 == Ok::<Seq<ReceiveEventView>, ReceiveFault>(seq![progress])
            } else {
                let name = safe_name((a.names)(meta.file_name), a.name_id);
                &&& !r.0.contains_key(meta.transfer_id)
                &&& r.1 == with_attachment(before.1, name, put_together(parts), a.keys)
                &&& r.2 == Ok::<Seq<ReceiveEventView>, ReceiveFault>(
                    seq![
                        progress,
                        ReceiveEventView::Complete(
                            CompletedView {
                                transfer_id: meta.transfer_id,
                                attachment_id: a.keys.attachment_id,
                                sender,
                                file_name: name,
                                total_size: meta.total_size,
                                kind: meta.kind,
                            },
                        ),
                    ],
                )
            }
        }),
{
    let now = seen.insert(a.index as int);
    let incoming = before.0[meta.transfer_id];
    let next = with_chunk(incoming, a.index as int, parts[a.index as int]);
    assert(next.chunks =~= filled(parts, now));
    assert(next =~= (IncomingView { chunks: filled(parts, now), ..started(sender, meta) }));
    lemma_arrived_filled(parts, now);
    lemma_all_seen(parts.len(), now);
    if now.len() == parts.len() {
        assert(next.chunks =~= parts.map_values(|p: Seq<u8>| Some(p)));
    }
}

/// Whether all pieces have come, and what is then being received.
proof fn lemma_after_pieces(
    m: IncomingMap,
    store: StoreView,
    sender: Seq<char>,
    meta: MetaView,
    parts: Seq<Seq<u8>>,
    arrivals: Seq<PieceArrival>,
    n: int,
)
    requires
        announces(meta, parts),
        sealable(put_together(parts)),
        m.contains_key(meta.transfer_id),
        m[meta.transfer_id] == started(sender, meta),
        forall|a: int| 0 <= a < arrivals.len() ==> (#[trigger] arrivals[a]).index < parts.len(),
        0 <= n <= arrivals.len(),
    ensures
        ({
            let before = after_pieces(m, store, meta.transfer_id, parts, arrivals.take(n));
            let seen = seen_pieces(arrivals.take(n));
            if seen.len() < parts.len() {
                &&& before.0.contains_key(meta.transfer_id)
                &&& before.0[meta.transfer_id] == (IncomingView {
                    chunks: filled(parts, seen),
                    ..started(sender, meta)
                })
                &&& before.1 == store
            } else {
                !before.0.contains_key(meta.transfer_id)
            }
        }),
    decreases n,
{
    let seen = seen_pieces(arrivals.take(n));
    lemma_seen_range(arrivals, parts.len(), n);
    if n == 0 {
        assert(arrivals.take(0) =~= Seq::<PieceArrival>::empty());
        assert(seen =~= Set::<int>::empty());
        assert(filled(parts, seen) =~= started(sender, meta).chunks);
        assert((IncomingView { chunks: filled(parts, seen), ..started(sender, meta) }) =~= started(
            sender,
            meta,
        ));
    } else {
        lemma_after_pieces(m, store, sender, meta, parts, arrivals, n - 1);
        lemma_seen_range(arrivals, parts.len(), n - 1);
        lemma_seen_step(arrivals, n);
        lemma_all_seen(parts.len(), seen);
        let earlier = seen_pieces(arrivals.take(n - 1));
        lemma_all_seen(parts.len(), earlier);
        assert(arrivals.take(n).drop_last() =~= arrivals.take(n - 1));
        assert(arrivals.take(n).last() == arrivals[n - 1]);
        let q = after_pieces(m, store, meta.transfer_id, parts, arrivals.take(n - 1));
        if earlier.len() < parts.len() {
            lemma_piece_came(q, sender, meta, parts, earlier, arrivals[n - 1]);
        } else {
            assert(seen =~= earlier);
        }
    }
}

/// An announced attachment comes through whatever the sizes of its pieces, in any order and with
/// any repetitions: each piece tells how many different ones have come, and the one that is the
/// last to be missing completes the attachment, which is then stored as the pieces put together.
/// After that every piece of the transfer is ignored. Before it a piece out of range is refused and
/// changes nothing.
pub proof fn law_pieces_come_through_in_any_order(
    m: IncomingMap,
    store: StoreView,
    sender: Seq<char>,
    meta: MetaView,
    parts: Seq<Seq<u8>>,
    arrivals: Seq<PieceArrival>,
    n: int,
    beyond: usize,
    data: Seq<u8>,
)
    requires
        announces(meta, parts),
        sealable(put_together(parts)),
        m.contains_key(meta.transfer_id),
        m[meta.transfer_id] == started(sender, meta),
        forall|a: int| 0 <= a < arrivals.len() ==> (#[trigger] arrivals[a]).index < parts.len(),
        0 <= n < arrivals.len(),
        beyond >= parts.len(),
    ensures
        ({
            let a = arrivals[n];
            let before = after_pieces(m, store, meta.transfer_id, parts, arrivals.take(n));
            let r = piece_came(before, meta.transfer_id, parts, a);
            let seen = seen_pieces(arrivals.take(n));
            let now = seen_pieces(arrivals.take(n + 1));
            let progress = ReceiveEventView::Progress {
                transfer_id: meta.transfer_id,
                received_chunks: now.len(),
                total_chunks: parts.len(),
            };
            let out_of_range = appended(
                before.0,
                before.1,
                meta.transfer_id,
                beyond,
                data,
                a.keys,
                a.name_id,
                a.names,
            );
            if seen.len() == parts.len() {
                r == (before.0, before.1, Ok::<Seq<ReceiveEventView>, ReceiveFault>(Seq::empty()))
            } else if now.len() < parts.len() {
                &&& r.1 == store
                &&& r.2 == Ok::<Seq<ReceiveEventView>, ReceiveFault>(seq![progress])
                &&& out_of_range == (
                    before.0,
                    before.1,
                    Err::<Seq<ReceiveEventView>, ReceiveFault>(
                        ReceiveFault::ChunkOutOfRange(beyond),
                    ),
                )
            } else {
                let name = safe_name((a.names)(meta.file_name), a.name_id);
                &&& now.len() == parts.len()
                &&& r.1 == with_attachment(store, name, put_together(parts), a.keys)
                &&& r.2 == Ok::<Seq<ReceiveEventView>, ReceiveFault>(
                    seq![
                        progress,
                        ReceiveEventView::Complete(
                            CompletedView {
                                transfer_id: meta.transfer_id,
                                attachment_id: a.keys.attachment_id,
                                sender,
                                file_name: name,
                                total_size: meta.total_size,
                                kind: meta.kind,
                            },
                        ),
                    ],
                )
                &&& out_of_range == (
                    before.0,
                    before.1,
                    Err::<Seq<ReceiveEventView>, ReceiveFault>(
                        ReceiveFault::ChunkOutOfRange(beyond),
                    ),
                )
            }
        }),
{
    lemma_after_pieces(m, store, sender, meta, parts, arrivals, n);
    lemma_seen_range(arrivals, parts.len(), n);
    lemma_seen_range(arrivals, parts.len(), n + 1);
    lemma_seen_step(arrivals, n + 1);
    let seen = seen_pieces(arrivals.take(n));
    lemma_all_seen(parts.len(), seen);
    lemma_all_seen(parts.len(), seen_pieces(arrivals.take(n + 1)));
    if seen.len() < parts.len() {
        let before = after_pieces(m, store, meta.transfer_id, parts, arrivals.take(n));
        lemma_piece_came(before, sender, meta, parts, seen, arrivals[n]);
    }
}

} // verus!
