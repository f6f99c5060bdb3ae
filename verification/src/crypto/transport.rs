//! The encrypted connection between a client and the server: numbered lines in each direction.
use crate::crypto::aead::{chacha_open, chacha_opened, chacha_seal, sealable};
use crate::crypto::chain::{be_bytes, be_bytes_of, bytes12_from_slice, derive32, push_bytes};
use crate::outside::aead::chacha_sealed;
use crate::outside::digest::hkdf_sha256;
use crate::outside::encoding::{base64_bytes, base64_decode, base64_encode, base64_text};
use crate::outside::text::string_from_utf8;
use std::collections::{HashSet, VecDeque};
use vstd::prelude::*;
use vstd::std_specs::hash::group_hash_axioms;
use vstd::utf8::{decode_utf8, encode_utf8, valid_utf8};

verus! {

broadcast use group_hash_axioms;

pub const TRANSPORT_C2S_INFO: &'static str = "rust-chat transport c2s key v1";

pub const TRANSPORT_S2C_INFO: &'static str = "rust-chat transport s2c key v1";

pub const TRANSPORT_REPLAY_WINDOW: usize = 1024;

/// Which end of the connection this is.
#[derive(Debug, Clone, Copy, PartialEq, Eq, Structural)]
pub enum TransportSide {
    Client,
    Server,
}

/// An opened line: the next one, or one that has come before.
#[derive(Debug, PartialEq, Eq)]
pub enum TransportOpenResult {
    Fresh(String),
    Duplicate(String),
}

pub enum OpenView {
    Fresh(Seq<char>),
    Duplicate(Seq<char>),
}

impl View for TransportOpenResult {
    type V = OpenView;

    open spec fn view(&self) -> OpenView {
        match self {
            TransportOpenResult::Fresh(s) => OpenView::Fresh(s@),
            TransportOpenResult::Duplicate(s) => OpenView::Duplicate(s@),
        }
    }
}

/// The number that eight bytes denote, the most significant first.
pub open spec fn be_value(b: Seq<u8>) -> u64 {
    ((b[0] as u64) << 56u64) | ((b[1] as u64) << 48u64) | ((b[2] as u64) << 40u64) | ((b[3] as u64)
        << 32u64) | ((b[4] as u64) << 24u64) | ((b[5] as u64) << 16u64) | ((b[6] as u64) << 8u64)
        | (b[7] as u64)
}

/// The bytes of a number denote it.
pub proof fn lemma_be_value(n: u64)
    ensures
        be_value(be_bytes(n)) == n,
{
    let b = be_bytes(n);
    assert(b[0] == ((n >> 56u64) & 0xff) as u8);
    assert(b[1] == ((n >> 48u64) & 0xff) as u8);
    assert(b[2] == ((n >> 40u64) & 0xff) as u8);
    assert(b[3] == ((n >> 32u64) & 0xff) as u8);
    assert(b[4] == ((n >> 24u64) & 0xff) as u8);
    assert(b[5] == ((n >> 16u64) & 0xff) as u8);
    assert(b[6] == ((n >> 8u64) & 0xff) as u8);
    assert(b[7] == ((n >> 0u64) & 0xff) as u8);
    assert(((((n >> 56u64) & 0xff) as u8 as u64) << 56u64) | ((((n >> 48u64) & 0xff) as u8 as u64)
        << 48u64) | ((((n >> 40u64) & 0xff) as u8 as u64) << 40u64) | ((((n >> 32u64)
        & 0xff) as u8 as u64) << 32u64) | ((((n >> 24u64) & 0xff) as u8 as u64) << 24u64) | ((((n
        >> 16u64) & 0xff) as u8 as u64) << 16u64) | ((((n >> 8u64) & 0xff) as u8 as u64) << 8u64)
        | (((n >> 0u64) & 0xff) as u8 as u64) == n) by (bit_vector);
}

/// The nonce of a numbered line.
pub open spec fn sequence_nonce(seq: u64) -> Seq<u8> {
    seq![0u8, 0u8, 0u8, 0u8] + be_bytes(seq)
}

/// The key of one direction.
pub open spec fn direction_key(secret: Seq<u8>, info: Seq<char>) -> Seq<u8> {
    hkdf_sha256(None, secret, encode_utf8(info), 32)
}

/// A line under a key and a number.
pub open spec fn sealed_line(key: Seq<u8>, seq: u64, plain: Seq<char>) -> Seq<char> {
    base64_text(
        be_bytes(seq) + chacha_sealed(
            key,
            sequence_nonce(seq),
            Seq::empty(),
            encode_utf8(plain),
        ),
    )
}

/// The number and the bytes of a line, when it opens under a key.
pub open spec fn opened_bytes(key: Seq<u8>, line: Seq<char>) -> Option<(u64, Seq<u8>)> {
    match base64_bytes(line) {
        None => None,
        Some(data) => if data.len() < 24 {
            None
        } else {
            let seq = be_value(data.take(8));
            match chacha_opened(key, sequence_nonce(seq), Seq::empty(), data.skip(8)) {
                None => None,
                Some(plain) => Some((seq, plain)),
            }
        },
    }
}

/// The number and the text of a line, when it opens under a key and holds text.
pub open spec fn opened_line(key: Seq<u8>, line: Seq<char>) -> Option<(u64, Seq<char>)> {
    match opened_bytes(key, line) {
        Some((seq, plain)) => if valid_utf8(plain) {
            Some((seq, decode_utf8(plain)))
        } else {
            None
        },
        None => None,
    }
}

/// Whether a line holds a number in its first eight bytes and a text behind it, sixteen bytes longer
/// than the text, and opens to both.
pub open spec fn numbered_line(
    key: Seq<u8>,
    seq: u64,
    plain: Seq<char>,
    line: Seq<char>,
) -> bool {
    let ciphertext = chacha_sealed(key, sequence_nonce(seq), Seq::empty(), encode_utf8(plain));
    &&& base64_bytes(line) == Some(be_bytes(seq) + ciphertext)
    &&& ciphertext.len() == encode_utf8(plain).len() + 16
    &&& opened_line(key, line) == Some((seq, plain))
}

#[verifier::ext_equal]
pub struct TransportView {
    pub send_key: Seq<u8>,
    pub recv_key: Seq<u8>,
    pub send_seq: u64,
    pub next_recv_seq: u64,
    /// The numbers of the latest lines, the oldest first.
    pub recent: Seq<u64>,
}

/// The state of one end of a connection.
#[derive(Debug)]
pub struct TransportCrypto {
    pub send_key: [u8; 32],
    pub recv_key: [u8; 32],
    pub send_seq: u64,
    pub next_recv_seq: u64,
    pub recent_recv_seqs: VecDeque<u64>,
    pub seen_recv_seqs: HashSet<u64>,
}

impl View for TransportCrypto {
    type V = TransportView;

    open spec fn view(&self) -> TransportView {
        TransportView {
            send_key: self.send_key@,
            recv_key: self.recv_key@,
            send_seq: self.send_seq,
            next_recv_seq: self.next_recv_seq,
            recent: self.recent_recv_seqs@,
        }
    }
}

/// The number after `n`, going round at the end.
pub open spec fn wrapped_next(n: u64) -> u64 {
    if n == u64::MAX {
        0
    } else {
        (n + 1) as u64
    }
}

/// The window with one more number, without the oldest when it is full.
pub open spec fn window_push(recent: Seq<u64>, seq: u64) -> Seq<u64> {
    let all = recent.push(seq);
    if all.len() > TRANSPORT_REPLAY_WINDOW {
        all.drop_first()
    } else {
        all
    }
}

/// What opening a line gives, and the state that results.
pub open spec fn transport_opened(t: TransportView, line: Seq<char>) -> (
    Option<OpenView>,
    TransportView,
) {
    match opened_line(t.recv_key, line) {
        None => (None, t),
        Some((seq, plain)) => if seq == t.next_recv_seq {
            (
                Some(OpenView::Fresh(plain)),
                TransportView {
                    next_recv_seq: wrapped_next(seq),
                    recent: window_push(t.recent, seq),
                    ..t
                },
            )
        } else if seq < t.next_recv_seq && t.recent.contains(seq) {
            (Some(OpenView::Duplicate(plain)), t)
        } else {
            (None, t)
        },
    }
}

/// The window holds the numbers just before the next one, at most a window's worth of them.
pub open spec fn window_wf(t: TransportView) -> bool {
    &&& t.recent.len() <= TRANSPORT_REPLAY_WINDOW
    &&& forall|i: int|
        0 <= i < t.recent.len() ==> (#[trigger] t.recent[i]) as int == (t.next_recv_seq
            - t.recent.len() + i) % 0x1_0000_0000_0000_0000
}

proof fn lemma_window_distinct(t: TransportView)
    requires
        window_wf(t),
    ensures
        t.recent.no_duplicates(),
        !t.recent.contains(t.next_recv_seq),
{
    let n = t.next_recv_seq as int;
    let len = t.recent.len() as int;
    assert forall|i: int, j: int| 0 <= i < len && 0 <= j < len && i != j implies t.recent[i]
        != t.recent[j] by {
        lemma_mod_differ(n - len + i, n - len + j);
    }
    if t.recent.contains(t.next_recv_seq) {
        let i = choose|i: int| 0 <= i < len && t.recent[i] == t.next_recv_seq;
        assert(t.recent[i] as int == (n - len + i) % 0x1_0000_0000_0000_0000);
        lemma_mod_differ(n - len + i, n);
    }
}

proof fn lemma_mod_differ(a: int, b: int)
    requires
        a != b,
        -0x1_0000_0000 < a - b < 0x1_0000_0000,
    ensures
        a % 0x1_0000_0000_0000_0000 != b % 0x1_0000_0000_0000_0000,
{
}

pub proof fn lemma_window_push(t: TransportView, next: TransportView)
    requires
        window_wf(t),
        next.next_recv_seq == wrapped_next(t.next_recv_seq),
        next.recent == window_push(t.recent, t.next_recv_seq),
    ensures
        window_wf(next),
{
    let all = t.recent.push(t.next_recv_seq);
    let cut = if all.len() > TRANSPORT_REPLAY_WINDOW {
        1int
    } else {
        0int
    };
    assert forall|i: int| 0 <= i < next.recent.len() implies (#[trigger] next.recent[i]) as int == (
    next.next_recv_seq - next.recent.len() + i) % 0x1_0000_0000_0000_0000 by {
        assert(next.recent[i] == all[i + cut]);
        if i + cut < t.recent.len() {
            assert(all[i + cut] == t.recent[i + cut]);
        }
    }
}

pub fn transport_direction_key(shared_secret: &[u8; 32], info: &str) -> (key: [u8; 32])
    ensures
        key@ == direction_key(shared_secret@, info@),
{
    derive32(None, shared_secret.as_slice(), info.as_bytes())
}

pub fn transport_nonce(seq: u64) -> (nonce: [u8; 12])
    ensures
        nonce@ == sequence_nonce(seq),
{
    let mut bytes: Vec<u8> = Vec::new();
    bytes.push(0);
    bytes.push(0);
    bytes.push(0);
    bytes.push(0);
    push_bytes(&mut bytes, be_bytes_of(seq).as_slice());
    assert(bytes@ =~= sequence_nonce(seq));
    match bytes12_from_slice(bytes.as_slice()) {
        Some(nonce) => nonce,
        None => {
            assert(false);
            [0u8;12]
        },
    }
}

/// Seals a line under a key and a number. It opens under the same key to the number and the text.
pub fn aead_seal_sequenced(transport_key: &[u8; 32], seq: u64, plain: &str) -> (line: String)
    requires
        sealable(encode_utf8(plain@)),
    ensures
        line@ == sealed_line(transport_key@, seq, plain@),
        numbered_line(transport_key@, seq, plain@, line@),
{
    let nonce = transport_nonce(seq);
    let empty: Vec<u8> = Vec::new();
    let ciphertext = match chacha_seal(
        transport_key,
        &nonce,
        empty.as_slice(),
        plain.as_bytes(),
    ) {
        Some(ciphertext) => ciphertext,
        None => {
            assert(false);
            Vec::new()
        },
    };
    let mut out: Vec<u8> = Vec::new();
    push_bytes(&mut out, be_bytes_of(seq).as_slice());
    push_bytes(&mut out, ciphertext.as_slice());
    proof {
        assert(empty@ =~= Seq::<u8>::empty());
        assert(out@ =~= be_bytes(seq) + ciphertext@);
        assert(out@.take(8) =~= be_bytes(seq));
        assert(out@.skip(8) =~= ciphertext@);
        lemma_be_value(seq);
        vstd::utf8::encode_utf8_valid_utf8(plain@);
        vstd::utf8::encode_utf8_decode_utf8(plain@);
    }
    base64_encode(out.as_slice())
}

/// Opens a line under a key.
pub fn aead_open_sequenced(transport_key: &[u8; 32], encoded: &str) -> (out: Option<(u64, Vec<u8>)>)
    ensures
        match (out, opened_bytes(transport_key@, encoded@)) {
            (Some(o), Some(v)) => o.0 == v.0 && o.1@ == v.1,
            (None, None) => true,
            _ => false,
        },
{
    let data = match base64_decode(encoded) {
        Some(data) => data,
        None => {
            return None;
        },
    };
    if data.len() < 24 {
        return None;
    }
    let seq: u64 = ((data[0] as u64) << 56u64) | ((data[1] as u64) << 48u64) | ((data[2] as u64)
        << 40u64) | ((data[3] as u64) << 32u64) | ((data[4] as u64) << 24u64) | ((data[5] as u64)
        << 16u64) | ((data[6] as u64) << 8u64) | (data[7] as u64);
    assert(seq == be_value(data@.take(8)));
    let nonce = transport_nonce(seq);
    let ct = vstd::slice::slice_subrange(data.as_slice(), 8, data.len());
    assert(ct@ =~= data@.skip(8));
    let empty: Vec<u8> = Vec::new();
    assert(empty@ =~= Seq::<u8>::empty());
    match chacha_open(transport_key, &nonce, empty.as_slice(), ct) {
        Some(plain) => Some((seq, plain)),
        None => None,
    }
}

/// The state of a new connection.
pub open spec fn new_transport(secret: Seq<u8>, side: TransportSide) -> TransportView {
    TransportView {
        send_key: direction_key(
            secret,
            match side {
                TransportSide::Client => TRANSPORT_C2S_INFO@,
                TransportSide::Server => TRANSPORT_S2C_INFO@,
            },
        ),
        recv_key: direction_key(
            secret,
            match side {
                TransportSide::Client => TRANSPORT_S2C_INFO@,
                TransportSide::Server => TRANSPORT_C2S_INFO@,
            },
        ),
        send_seq: 0,
        next_recv_seq: 0,
        recent: Seq::empty(),
    }
}

impl TransportCrypto {
    /// The set of seen numbers is the window, which ends just before the next number.
    pub open spec fn wf(&self) -> bool {
        &&& window_wf(self@)
        &&& self.seen_recv_seqs@ == self.recent_recv_seqs@.to_set()
    }

    pub fn new(shared_secret: [u8; 32], side: TransportSide) -> (t: Self)
        ensures
            t.wf(),
            t@ == new_transport(shared_secret@, side),
    {
        let (send_info, recv_info) = match side {
            TransportSide::Client => (TRANSPORT_C2S_INFO, TRANSPORT_S2C_INFO),
            TransportSide::Server => (TRANSPORT_S2C_INFO, TRANSPORT_C2S_INFO),
        };
        let t = TransportCrypto {
            send_key: transport_direction_key(&shared_secret, send_info),
            recv_key: transport_direction_key(&shared_secret, recv_info),
            send_seq: 0,
            next_recv_seq: 0,
            recent_recv_seqs: VecDeque::new(),
            seen_recv_seqs: HashSet::new(),
        };
        assert(t.recent_recv_seqs@.to_set() =~= Set::<u64>::empty());
        t
    }

    pub fn send_key(&self) -> (key: &[u8; 32])
        ensures
            key@ == self@.send_key,
    {
        &self.send_key
    }

    pub fn recv_key(&self) -> (key: &[u8; 32])
        ensures
            key@ == self@.recv_key,
    {
        &self.recv_key
    }

    /// Seals the next line.
    pub fn seal(&mut self, plain: &str) -> (line: String)
        requires
            sealable(encode_utf8(plain@)),
        ensures
            line@ == sealed_line(old(self)@.send_key, old(self)@.send_seq, plain@),
            numbered_line(old(self)@.send_key, old(self)@.send_seq, plain@, line@),
            final(self)@ == (TransportView {
                send_seq: wrapped_next(old(self)@.send_seq),
                ..old(self)@
            }),
            old(self).wf() ==> final(self).wf(),
    {
        let line = aead_seal_sequenced(&self.send_key, self.send_seq, plain);
        self.send_seq = self.send_seq.wrapping_add(1);
        line
    }

    /// Opens a line.
    pub fn open(&mut self, cipher_line: &str) -> (out: Option<TransportOpenResult>)
        requires
            old(self).wf(),
        ensures
            final(self).wf(),
            final(self)@ == transport_opened(old(self)@, cipher_line@).1,
            match (out, transport_opened(old(self)@, cipher_line@).0) {
                (Some(o), Some(v)) => o@ == v,
                (None, None) => true,
                _ => false,
            },
    {
        let (seq, bytes) = match aead_open_sequenced(&self.recv_key, cipher_line) {
            Some(opened) => opened,
            None => {
                return None;
            },
        };
        let plain = match string_from_utf8(bytes) {
            Some(plain) => plain,
            None => {
                return None;
            },
        };
        if seq == self.next_recv_seq {
            self.mark_seq_seen(seq);
            self.next_recv_seq = self.next_recv_seq.wrapping_add(1);
            proof {
                lemma_window_push(old(self)@, self@);
            }
            return Some(TransportOpenResult::Fresh(plain));
        }
        proof {
            assert(self.seen_recv_seqs@.contains(seq) == self@.recent.contains(seq));
        }
        if seq < self.next_recv_seq && self.seen_recv_seqs.contains(&seq) {
            return Some(TransportOpenResult::Duplicate(plain));
        }
        None
    }

    /// Adds a number to the window.
    fn mark_seq_seen(&mut self, seq: u64)
        requires
            old(self).wf(),
            seq == old(self).next_recv_seq,
        ensures
            final(self)@ == (TransportView {
                recent: window_push(old(self)@.recent, seq),
                ..old(self)@
            }),
            final(self).seen_recv_seqs@ == final(self).recent_recv_seqs@.to_set(),
    {
        let ghost before = self@.recent;
        proof {
            lemma_window_distinct(self@);
        }
        self.recent_recv_seqs.push_back(seq);
        self.seen_recv_seqs.insert(seq);
        let ghost all = before.push(seq);
        proof {
            lemma_push_set(before, seq);
            assert(all.no_duplicates());
        }
        if self.recent_recv_seqs.len() > TRANSPORT_REPLAY_WINDOW {
            match self.recent_recv_seqs.pop_front() {
                Some(evicted) => {
                    self.seen_recv_seqs.remove(&evicted);
                    proof {
                        assert(evicted == all[0]);
                        lemma_drop_first_set(all);
                        assert(self.recent_recv_seqs@ =~= all.drop_first());
                    }
                },
                None => {},
            }
        }
    }
}

proof fn lemma_push_set(s: Seq<u64>, x: u64)
    ensures
        s.push(x).to_set() == s.to_set().insert(x),
{
    let t = s.push(x);
    assert forall|y: u64| t.to_set().contains(y) == s.to_set().insert(x).contains(y) by {
        if s.contains(y) {
            let i = choose|i: int| 0 <= i < s.len() && s[i] == y;
            assert(t[i] == y);
        }
        if y == x {
            assert(t[s.len() as int] == y);
        }
        if t.contains(y) && y != x {
            let i = choose|i: int| 0 <= i < t.len() && t[i] == y;
            assert(s[i] == y);
        }
    }
    assert(t.to_set() =~= s.to_set().insert(x));
}

proof fn lemma_drop_first_set(s: Seq<u64>)
    requires
        s.len() > 0,
        s.no_duplicates(),
    ensures
        s.drop_first().to_set() == s.to_set().remove(s[0]),
{
    let t = s.drop_first();
    assert forall|y: u64| t.to_set().contains(y) == s.to_set().remove(s[0]).contains(y) by {
        if t.contains(y) {
            let i = choose|i: int| 0 <= i < t.len() && t[i] == y;
            assert(s[i + 1] == y);
        }
        if s.contains(y) && y != s[0] {
            let i = choose|i: int| 0 <= i < s.len() && s[i] == y;
            assert(t[i - 1] == y);
        }
    }
    assert(t.to_set() =~= s.to_set().remove(s[0]));
}

} // verus!
