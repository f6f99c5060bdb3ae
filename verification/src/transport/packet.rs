//! Packets: sent until they are acknowledged, a few times at most.
use crate::crypto::aead::sealable;
use crate::crypto::transport::{
    opened_line, sealed_line, transport_opened, wrapped_next, TransportCrypto, TransportOpenResult,
    TransportView,
};
use crate::outside::aead::CHACHA_MESSAGE_LIMIT;
use crate::protocol::line::{build_transport_packet_line, packet_line, packet_parts, parse_ack_line};
use crate::util::id_map::IdMap;
use crate::util::text::{is_word, joined, same_text, starts_with, value_after};
use vstd::prelude::*;
use vstd::utf8::encode_utf8;

verus! {

/// How long an acknowledgement is waited for, in milliseconds.
pub const PACKET_ACK_TIMEOUT_MS: u64 = 4500;

/// How often a packet is sent again.
pub const PACKET_RETRY_LIMIT: usize = 2;

/// Which packets are waited for, and which have been acknowledged.
#[derive(Debug)]
pub struct AckRegistry {
    pub waiters: IdMap<()>,
    pub acked: IdMap<()>,
}

/// Which packets are waited for, and which have been acknowledged.
#[verifier::ext_equal]
pub ghost struct AckView {
    pub waiting: Set<Seq<char>>,
    pub acked: Set<Seq<char>>,
}

impl View for AckRegistry {
    type V = AckView;

    open spec fn view(&self) -> AckView {
        AckView { waiting: self.waiters.map().dom(), acked: self.acked.map().dom() }
    }
}

impl AckRegistry {
    pub open spec fn wf(&self) -> bool {
        self.waiters.wf() && self.acked.wf()
    }

    pub fn new() -> (r: Self)
        ensures
            r.wf(),
            r@ == (AckView { waiting: Set::empty(), acked: Set::empty() }),
    {
        AckRegistry { waiters: IdMap::new(), acked: IdMap::new() }
    }

    /// Waits for a packet.
    pub fn subscribe(&mut self, packet_id: &str)
        requires
            old(self).wf(),
        ensures
            final(self).wf(),
            final(self)@ == (AckView {
                waiting: old(self)@.waiting.insert(packet_id@),
                ..old(self)@
            }),
    {
        self.waiters.insert(packet_id.to_owned(), ());
    }

    /// Whether a packet has been acknowledged.
    pub fn is_acked(&self, packet_id: &str) -> (yes: bool)
        requires
            self.wf(),
        ensures
            yes == self@.acked.contains(packet_id@),
    {
        self.acked.contains_key(packet_id)
    }

    /// A packet has been acknowledged: whether someone waits for it.
    pub fn mark_acked(&mut self, packet_id: &str) -> (waited_for: bool)
        requires
            old(self).wf(),
        ensures
            final(self).wf(),
            final(self)@ == (AckView { acked: old(self)@.acked.insert(packet_id@), ..old(self)@ }),
            waited_for == old(self)@.waiting.contains(packet_id@),
    {
        self.acked.insert(packet_id.to_owned(), ());
        self.waiters.contains_key(packet_id)
    }

    /// A packet is no longer of interest.
    pub fn finish(&mut self, packet_id: &str)
        requires
            old(self).wf(),
        ensures
            final(self).wf(),
            final(self)@ == (AckView {
                waiting: old(self)@.waiting.remove(packet_id@),
                acked: old(self)@.acked.remove(packet_id@),
            }),
    {
        self.waiters.remove(packet_id);
        self.acked.remove(packet_id);
    }
}

impl Default for AckRegistry {
    fn default() -> (r: Self)
        ensures
            r.wf(),
            r@ == (AckView { waiting: Set::empty(), acked: Set::empty() }),
    {
        AckRegistry::new()
    }
}

/// What to do with a packet after some attempts.
#[derive(Debug, Clone, Copy, PartialEq, Eq, Structural)]
pub enum SendStep {
    Send,
    Done,
    GiveUp,
}

/// What to do with a packet that was sent `attempts` times.
pub open spec fn send_step(attempts: nat, acked: bool) -> SendStep {
    if attempts > 0 && acked {
        SendStep::Done
    } else if attempts <= PACKET_RETRY_LIMIT {
        SendStep::Send
    } else {
        SendStep::GiveUp
    }
}

/// What to do with a packet that was sent `attempts` times, knowing whether it was acknowledged.
pub fn next_send_step(attempts: usize, acked: bool) -> (step: SendStep)
    ensures
        step == send_step(attempts as nat, acked),
{
    if attempts > 0 && acked {
        SendStep::Done
    } else if attempts <= PACKET_RETRY_LIMIT {
        SendStep::Send
    } else {
        SendStep::GiveUp
    }
}

/// How often a packet is sent from an attempt on, when `acks[i]` says whether the acknowledgement
/// has come after the attempt `i`, and how it ends.
pub open spec fn sends(attempts: nat, acks: spec_fn(nat) -> bool) -> (nat, bool)
    decreases PACKET_RETRY_LIMIT + 1 - attempts,
{
    match send_step(attempts, attempts > 0 && acks((attempts - 1) as nat)) {
        SendStep::Done => (0, true),
        SendStep::GiveUp => (0, false),
        SendStep::Send => {
            let rest = sends(attempts + 1, acks);
            (rest.0 + 1, rest.1)
        },
    }
}

/// A packet is sent at least once and at most once more than the retry limit. Without any
/// acknowledgement it is sent that often and given up. When the first acknowledgement comes after
/// the attempt `i`, counted from zero, it is the last, and the packet has arrived.
pub proof fn law_packet_is_sent_few_times(acks: spec_fn(nat) -> bool)
    ensures
        1 <= sends(0, acks).0 <= PACKET_RETRY_LIMIT + 1,
        (forall|i: nat| !#[trigger] acks(i)) ==> sends(0, acks) == (
            (PACKET_RETRY_LIMIT + 1) as nat,
            false,
        ),
        forall|i: nat|
            i <= PACKET_RETRY_LIMIT && #[trigger] acks(i) && (forall|j: nat|
                j < i ==> !#[trigger] acks(j)) ==> sends(0, acks) == ((i + 1) as nat, true),
{
    reveal_with_fuel(sends, 5);
    assert forall|i: nat|
        i <= PACKET_RETRY_LIMIT && #[trigger] acks(i) && (forall|j: nat|
            j < i ==> !#[trigger] acks(j)) implies sends(0, acks) == ((i + 1) as nat, true) by {
        assert(i == 0 || !acks(0));
        assert(i <= 1 || !acks(1));
    }
}

/// What is said of a packet that was given up.
pub fn ack_timeout_text(packet_id: &str) -> (text: String)
    ensures
        text@ == "ACK timeout for packet "@ + packet_id@,
{
    joined("ACK timeout for packet ", packet_id)
}

/// Opens a line of the connection.
pub fn transport_open_line(transport: &mut TransportCrypto, cipher_line: &str) -> (out: Option<
    TransportOpenResult,
>)
    requires
        old(transport).wf(),
    ensures
        final(transport).wf(),
        final(transport)@ == transport_opened(old(transport)@, cipher_line@).1,
        match (out, transport_opened(old(transport)@, cipher_line@).0) {
            (Some(o), Some(v)) => o@ == v,
            (None, None) => true,
            _ => false,
        },
{
    transport.open(cipher_line)
}

/// Seals a line for the connection, unless it is too long to be sealed.
pub fn transport_seal_line(transport: &mut TransportCrypto, plain: &str) -> (line: Option<String>)
    ensures
        line is Some <==> sealable(encode_utf8(plain@)),
        match line {
            Some(l) => {
                &&& l@ == sealed_line(old(transport)@.send_key, old(transport)@.send_seq, plain@)
                &&& opened_line(old(transport)@.send_key, l@) == Some(
                    (old(transport)@.send_seq, plain@),
                )
                &&& final(transport)@ == (TransportView {
                    send_seq: wrapped_next(old(transport)@.send_seq),
                    ..old(transport)@
                })
            },
            None => *final(transport) == *old(transport),
        },
        old(transport).wf() ==> final(transport).wf(),
{
    let bytes = plain.as_bytes();
    if bytes.len() as u64 > CHACHA_MESSAGE_LIMIT {
        return None;
    }
    Some(transport.seal(plain))
}

/// The sealed packet that carries a payload, unless it is too long to be sealed.
pub fn seal_packet(
    transport: &mut TransportCrypto,
    packet_id: &str,
    payload: &str,
) -> (line: Option<String>)
    ensures
        ({
            let plain = packet_line(packet_id@, payload@);
            &&& line is Some <==> sealable(encode_utf8(plain))
            &&& match line {
                Some(l) => {
                    &&& l@ == sealed_line(old(transport)@.send_key, old(transport)@.send_seq, plain)
                    &&& opened_line(old(transport)@.send_key, l@) == Some(
                        (old(transport)@.send_seq, plain),
                    )
                    &&& final(transport)@ == (TransportView {
                        send_seq: wrapped_next(old(transport)@.send_seq),
                        ..old(transport)@
                    })
                },
                None => *final(transport) == *old(transport),
            }
        }),
        is_word(packet_id@) && payload@.len() > 0 ==> packet_parts(
            packet_line(packet_id@, payload@),
        ) == Some((packet_id@, payload@)),
        old(transport).wf() ==> final(transport).wf(),
{
    let plain = build_transport_packet_line(packet_id, payload);
    transport_seal_line(transport, plain.as_str())
}

/// Whether a line only serves the connection and is not shown.
pub open spec fn is_control(plain: Seq<char>) -> bool {
    plain == "/ping_ack"@ || plain == "/ping"@ || plain == "OK"@ || "OK "@.is_prefix_of(plain)
        || "INVITE_OK "@.is_prefix_of(plain)
}

pub fn should_drop_transport_control_message(plain: &str) -> (yes: bool)
    ensures
        yes == is_control(plain@),
{
    same_text(plain, "/ping_ack") || same_text(plain, "/ping") || same_text(plain, "OK")
        || starts_with(plain, "OK ") || starts_with(plain, "INVITE_OK ")
}

/// The packet that a line acknowledges.
pub fn maybe_mark_ack(_ack_registry: &AckRegistry, plain: &str) -> (id: Option<String>)
    ensures
        match (id, value_after(plain@, "/ACK "@)) {
            (Some(o), Some(v)) => o@ == v,
            (None, None) => true,
            _ => false,
        },
{
    match parse_ack_line(plain) {
        Some(id) => Some(id.to_owned()),
        None => None,
    }
}

} // verus!
