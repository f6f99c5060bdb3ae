//! Message chains: each message has its own key, and the chain moves on to a key from which earlier
//! ones cannot be had back.
use crate::crypto::aead::{chacha_open, chacha_opened};
use crate::crypto::error::CryptoError;
use crate::crypto::messages::{header_to_bytes, header_tree, EncryptedMessage, MessageView};
use crate::outside::digest::{hkdf_bytes, hkdf_sha256, HKDF_MAX_OUTPUT};
use crate::outside::json::json_bytes;
use std::collections::HashMap;
use vstd::prelude::*;
use vstd::std_specs::hash::group_hash_axioms;
use vstd::utf8::encode_utf8;

verus! {

broadcast use group_hash_axioms;

pub const GROUP_SENDER_CHAIN_ROOT_LABEL: &'static str = "rust-chat sender-chain-root v1";

pub const GROUP_SENDER_CHAIN_LABEL: &'static str = "rust-chat sender-chain v1";

pub const CHAIN_NEXT_LABEL: &'static str = "rust-chat chain-next v1";

pub const CHAIN_AEAD_KEY_LABEL: &'static str = "rust-chat chain-aead-key v1";

pub const CHAIN_NONCE_LABEL: &'static str = "rust-chat chain-nonce v1";

/// The chain key that follows `key`.
pub open spec fn next_chain_key(key: Seq<u8>) -> Seq<u8> {
    hkdf_sha256(None, key, encode_utf8(CHAIN_NEXT_LABEL@), 32)
}

/// The encryption key of the message at a chain key.
pub open spec fn message_key(key: Seq<u8>) -> Seq<u8> {
    hkdf_sha256(None, key, encode_utf8(CHAIN_AEAD_KEY_LABEL@), 32)
}

/// The nonce of the message at a chain key.
pub open spec fn message_nonce(key: Seq<u8>) -> Seq<u8> {
    hkdf_sha256(None, key, encode_utf8(CHAIN_NONCE_LABEL@), 12)
}

/// The root of the sender chains of an epoch.
pub open spec fn sender_chain_root(secret: Seq<u8>, group_id: Seq<char>, epoch: u64) -> Seq<u8> {
    hkdf_sha256(
        None,
        secret,
        encode_utf8(GROUP_SENDER_CHAIN_ROOT_LABEL@) + encode_utf8(group_id)
            + be_bytes(epoch),
        32,
    )
}

/// The first chain key of a sender in an epoch.
pub open spec fn sender_chain_key(root: Seq<u8>, sender_id: Seq<char>) -> Seq<u8> {
    hkdf_sha256(
        None,
        root,
        encode_utf8(GROUP_SENDER_CHAIN_LABEL@) + encode_utf8(sender_id),
        32,
    )
}

/// The eight bytes of a number, the most significant first.
pub open spec fn be_bytes(n: u64) -> Seq<u8> {
    Seq::new(8, |i: int| ((n >> ((56 - 8 * i) as u64)) & 0xff) as u8)
}

/// The eight bytes of a number, the most significant first.
pub fn be_bytes_of(n: u64) -> (bytes: [u8; 8])
    ensures
        bytes@ == be_bytes(n),
{
    let bytes: [u8; 8] = [
        ((n >> 56u64) & 0xff) as u8,
        ((n >> 48u64) & 0xff) as u8,
        ((n >> 40u64) & 0xff) as u8,
        ((n >> 32u64) & 0xff) as u8,
        ((n >> 24u64) & 0xff) as u8,
        ((n >> 16u64) & 0xff) as u8,
        ((n >> 8u64) & 0xff) as u8,
        ((n >> 0u64) & 0xff) as u8,
    ];
    assert(bytes@ =~= be_bytes(n));
    bytes
}

/// Sets every byte to zero.
pub fn zeroize(bytes: &mut [u8])
    ensures
        final(bytes)@ == Seq::new(old(bytes)@.len(), |i: int| 0u8),
{
    let mut i: usize = 0;
    let n = bytes.len();
    while i < n
        invariant
            n == bytes@.len(),
            n == old(bytes)@.len(),
            i <= n,
            forall|k: int| 0 <= k < i ==> bytes@[k] == 0u8,
        decreases n - i,
    {
        bytes[i] = 0;
        i += 1;
    }
    assert(bytes@ =~= Seq::new(old(bytes)@.len(), |i: int| 0u8));
}

/// The salt as a sequence.
pub open spec fn salt_view(salt: Option<&[u8]>) -> Option<Seq<u8>> {
    match salt {
        Some(s) => Some(s@),
        None => None,
    }
}

/// Fills `out` with bytes derived from a secret.
pub fn hkdf_expand_label(secret: &[u8], salt: Option<&[u8]>, info: &[u8], out: &mut [u8]) -> (done:
    Result<(), CryptoError>)
    ensures
        done == (if old(out)@.len() <= HKDF_MAX_OUTPUT {
            Ok(())
        } else {
            Err(CryptoError::HkdfExpand)
        }),
        done is Ok ==> final(out)@ == hkdf_sha256(
            salt_view(salt),
            secret@,
            info@,
            old(out)@.len(),
        ),
        done is Err ==> final(out)@ == old(out)@,
        final(out)@.len() == old(out)@.len(),
{
    let n = out.len();
    if n > HKDF_MAX_OUTPUT {
        return Err(CryptoError::HkdfExpand);
    }
    let bytes = hkdf_bytes(salt, secret, info, n);
    let mut i: usize = 0;
    while i < n
        invariant
            n == out@.len(),
            n == bytes@.len(),
            i <= n,
            forall|k: int| 0 <= k < i ==> out@[k] == bytes@[k],
        decreases n - i,
    {
        out[i] = bytes[i];
        i += 1;
    }
    assert(out@ =~= bytes@);
    Ok(())
}

/// The 32 bytes of a slice of that length.
pub fn bytes32_from_slice(bytes: &[u8]) -> (out: Result<[u8; 32], CryptoError>)
    ensures
        match out {
            Ok(a) => bytes@.len() == 32 && a@ == bytes@,
            Err(e) => bytes@.len() != 32 && e == CryptoError::Expected32Bytes,
        },
{
    if bytes.len() != 32 {
        return Err(CryptoError::Expected32Bytes);
    }
    let mut out: [u8; 32] = [0u8;32];
    let mut i: usize = 0;
    while i < 32
        invariant
            i <= 32,
            bytes@.len() == 32,
            forall|k: int| 0 <= k < i ==> out@[k] == bytes@[k],
        decreases 32 - i,
    {
        out[i] = bytes[i];
        i += 1;
    }
    assert(out@ =~= bytes@);
    Ok(out)
}

/// The 12 bytes of a slice of that length.
pub fn bytes12_from_slice(bytes: &[u8]) -> (out: Option<[u8; 12]>)
    ensures
        match out {
            Some(a) => bytes@.len() == 12 && a@ == bytes@,
            None => bytes@.len() != 12,
        },
{
    if bytes.len() != 12 {
        return None;
    }
    let mut out: [u8; 12] = [0u8;12];
    let mut i: usize = 0;
    while i < 12
        invariant
            i <= 12,
            bytes@.len() == 12,
            forall|k: int| 0 <= k < i ==> out@[k] == bytes@[k],
        decreases 12 - i,
    {
        out[i] = bytes[i];
        i += 1;
    }
    assert(out@ =~= bytes@);
    Some(out)
}

/// Thirty-two derived bytes.
pub fn derive32(salt: Option<&[u8]>, secret: &[u8], info: &[u8]) -> (out: [u8; 32])
    ensures
        out@ == hkdf_sha256(salt_view(salt), secret@, info@, 32),
{
    let bytes = hkdf_bytes(salt, secret, info, 32);
    match bytes32_from_slice(bytes.as_slice()) {
        Ok(out) => out,
        Err(_) => {
            assert(false);
            [0u8;32]
        },
    }
}

/// Twelve derived bytes.
fn derive12(secret: &[u8], info: &[u8]) -> (out: [u8; 12])
    ensures
        out@ == hkdf_sha256(None, secret@, info@, 12),
{
    let bytes = hkdf_bytes(None, secret, info, 12);
    match bytes12_from_slice(bytes.as_slice()) {
        Some(out) => out,
        None => {
            assert(false);
            [0u8;12]
        },
    }
}

/// Appends bytes.
pub fn push_bytes(out: &mut Vec<u8>, bytes: &[u8])
    ensures
        final(out)@ == old(out)@ + bytes@,
{
    out.extend_from_slice(bytes);
    assert(out@ =~= old(out)@ + bytes@);
}

pub fn derive_sender_chain_root(group_secret: &[u8; 32], group_id: &str, epoch: u64) -> (root: [u8;
    32])
    ensures
        root@ == sender_chain_root(group_secret@, group_id@, epoch),
{
    let mut info: Vec<u8> = Vec::new();
    push_bytes(&mut info, GROUP_SENDER_CHAIN_ROOT_LABEL.as_bytes());
    push_bytes(&mut info, group_id.as_bytes());
    push_bytes(&mut info, be_bytes_of(epoch).as_slice());
    assert(info@ =~= encode_utf8(GROUP_SENDER_CHAIN_ROOT_LABEL@) + encode_utf8(group_id@)
        + be_bytes(epoch));
    derive32(None, group_secret.as_slice(), info.as_slice())
}

pub fn derive_sender_chain_key(root: &[u8; 32], sender_id: &str) -> (key: [u8; 32])
    ensures
        key@ == sender_chain_key(root@, sender_id@),
{
    let mut info: Vec<u8> = Vec::new();
    push_bytes(&mut info, GROUP_SENDER_CHAIN_LABEL.as_bytes());
    push_bytes(&mut info, sender_id.as_bytes());
    assert(info@ =~= encode_utf8(GROUP_SENDER_CHAIN_LABEL@) + encode_utf8(sender_id@));
    derive32(None, root.as_slice(), info.as_slice())
}

/// What a chain key yields.
pub struct ChainStep {
    pub next_chain_key: [u8; 32],
    pub aead_key: [u8; 32],
    pub nonce: [u8; 12],
}

pub fn derive_chain_step(chain_key: &[u8; 32]) -> (step: ChainStep)
    ensures
        step.next_chain_key@ == next_chain_key(chain_key@),
        step.aead_key@ == message_key(chain_key@),
        step.nonce@ == message_nonce(chain_key@),
{
    ChainStep {
        next_chain_key: derive32(None, chain_key.as_slice(), CHAIN_NEXT_LABEL.as_bytes()),
        aead_key: derive32(None, chain_key.as_slice(), CHAIN_AEAD_KEY_LABEL.as_bytes()),
        nonce: derive12(chain_key.as_slice(), CHAIN_NONCE_LABEL.as_bytes()),
    }
}

/// A member's own sending position.
#[derive(Debug, Clone, Copy)]
pub struct ChainState {
    pub chain_key: [u8; 32],
    pub msg_no: u64,
}

#[verifier::ext_equal]
pub struct ChainView {
    pub chain_key: Seq<u8>,
    pub msg_no: u64,
}

impl View for ChainState {
    type V = ChainView;

    open spec fn view(&self) -> ChainView {
        ChainView { chain_key: self.chain_key@, msg_no: self.msg_no }
    }
}

/// The key of a message that has been passed over.
#[derive(Debug, Clone, Copy)]
pub struct SkippedKey {
    pub aead_key: [u8; 32],
    pub nonce: [u8; 12],
    pub expires_at: i64,
}

#[verifier::ext_equal]
pub struct SkippedView {
    pub aead_key: Seq<u8>,
    pub nonce: Seq<u8>,
    pub expires_at: i64,
}

impl View for SkippedKey {
    type V = SkippedView;

    open spec fn view(&self) -> SkippedView {
        SkippedView { aead_key: self.aead_key@, nonce: self.nonce@, expires_at: self.expires_at }
    }
}

/// A position in another member's chain, with the keys of messages still to come before it.
#[derive(Debug)]
pub struct RecvChainState {
    pub chain_key: [u8; 32],
    pub next_msg_no: u64,
    pub skipped_keys: HashMap<u64, SkippedKey>,
    pub max_skip: u64,
}

#[verifier::ext_equal]
pub struct RecvView {
    pub chain_key: Seq<u8>,
    pub next_msg_no: u64,
    pub skipped_keys: Map<u64, SkippedView>,
    pub max_skip: u64,
}

/// The views of a table of skipped keys.
pub open spec fn skipped_views(keys: Map<u64, SkippedKey>) -> Map<u64, SkippedView> {
    keys.map_values(|k: SkippedKey| k@)
}

impl View for RecvChainState {
    type V = RecvView;

    open spec fn view(&self) -> RecvView {
        RecvView {
            chain_key: self.chain_key@,
            next_msg_no: self.next_msg_no,
            skipped_keys: skipped_views(self.skipped_keys@),
            max_skip: self.max_skip,
        }
    }
}

impl Clone for RecvChainState {
    fn clone(&self) -> (chain: Self)
        ensures
            chain@ == self@,
    {
        RecvChainState {
            chain_key: self.chain_key,
            next_msg_no: self.next_msg_no,
            skipped_keys: self.skipped_keys.clone(),
            max_skip: self.max_skip,
        }
    }
}

/// `a + b`, held within the range of `i64`.
pub open spec fn saturating_sum(a: i64, b: i64) -> i64 {
    if a + b > i64::MAX {
        i64::MAX
    } else if a + b < i64::MIN {
        i64::MIN
    } else {
        (a + b) as i64
    }
}

/// `a + b`, held within the range of `i64`.
pub fn saturating_sum_of(a: i64, b: i64) -> (c: i64)
    ensures
        c == saturating_sum(a, b),
{
    if b > 0 && a > i64::MAX - b {
        i64::MAX
    } else if b < 0 && a < i64::MIN - b {
        i64::MIN
    } else {
        a + b
    }
}

/// The keys that have not expired.
pub open spec fn live_keys(keys: Map<u64, SkippedView>, now: i64) -> Map<u64, SkippedView> {
    keys.restrict(keys.dom().filter(|n: u64| keys[n].expires_at > now))
}

/// The smallest message number of a set.
pub open spec fn is_oldest(numbers: Set<u64>, n: u64) -> bool {
    numbers.contains(n) && forall|m: u64| #[trigger] numbers.contains(m) ==> n <= m
}

/// The keys of the latest messages, at most `max` of them.
pub open spec fn latest_keys(keys: Map<u64, SkippedView>, max: u64) -> Map<u64, SkippedView>
    decreases keys.dom().len(),
    when keys.dom().finite()
{
    if keys.dom().len() <= max {
        keys
    } else {
        let n = choose|n: u64| is_oldest(keys.dom(), n);
        if keys.dom().contains(n) {
            latest_keys(keys.remove(n), max)
        } else {
            keys
        }
    }
}

/// The live keys of the latest messages, at most `max` of them.
pub open spec fn trimmed_keys(keys: Map<u64, SkippedView>, max: u64, now: i64) -> Map<
    u64,
    SkippedView,
> {
    latest_keys(live_keys(keys, now), max)
}

/// The position moved up to message `target`, with the keys of the messages passed over kept.
pub open spec fn advanced(chain: RecvView, target: u64, now: i64, ttl: i64) -> RecvView
    decreases target - chain.next_msg_no,
{
    if chain.next_msg_no >= target {
        chain
    } else {
        advanced(
            RecvView {
                chain_key: next_chain_key(chain.chain_key),
                next_msg_no: (chain.next_msg_no + 1) as u64,
                skipped_keys: trimmed_keys(
                    chain.skipped_keys.insert(
                        chain.next_msg_no,
                        SkippedView {
                            aead_key: message_key(chain.chain_key),
                            nonce: message_nonce(chain.chain_key),
                            expires_at: saturating_sum(now, ttl),
                        },
                    ),
                    chain.max_skip,
                    now,
                ),
                max_skip: chain.max_skip,
            },
            target,
            now,
            ttl,
        )
    }
}

/// The next number, or the largest one.
pub open spec fn next_number(n: u64) -> u64 {
    if n == u64::MAX {
        n
    } else {
        (n + 1) as u64
    }
}

/// What opening a message on a receive chain gives, and the chain that results.
pub open spec fn chain_opened(chain: RecvView, message: MessageView, now: i64, ttl: i64) -> (
    Result<Seq<u8>, CryptoError>,
    RecvView,
) {
    let aad = json_bytes(header_tree(message.header));
    let n = message.header.msg_no;
    if n < chain.next_msg_no {
        if !chain.skipped_keys.contains_key(n) {
            (Err(CryptoError::MissingSkippedKey), chain)
        } else {
            let key = chain.skipped_keys[n];
            match chacha_opened(key.aead_key, key.nonce, aad, message.ciphertext) {
                Some(plain) => (
                    Ok(plain),
                    RecvView { skipped_keys: chain.skipped_keys.remove(n), ..chain },
                ),
                None => (Err(CryptoError::SkippedAuthentication), chain),
            }
        }
    } else if n - chain.next_msg_no > chain.max_skip {
        (Err(CryptoError::MessageGap), chain)
    } else {
        let at = advanced(chain, n, now, ttl);
        match chacha_opened(
            message_key(at.chain_key),
            message_nonce(at.chain_key),
            aad,
            message.ciphertext,
        ) {
            Some(plain) => (
                Ok(plain),
                RecvView {
                    chain_key: next_chain_key(at.chain_key),
                    next_msg_no: next_number(n),
                    ..at
                },
            ),
            None => (Err(CryptoError::Authentication), chain),
        }
    }
}

impl RecvChainState {
    /// The start of a chain.
    pub fn new(chain_key: [u8; 32], max_skip: u64) -> (chain: Self)
        ensures
            chain@ == (RecvView {
                chain_key: chain_key@,
                next_msg_no: 0,
                skipped_keys: Map::empty(),
                max_skip,
            }),
    {
        let chain = RecvChainState {
            chain_key,
            next_msg_no: 0,
            skipped_keys: HashMap::new(),
            max_skip,
        };
        assert(chain@.skipped_keys =~= Map::<u64, SkippedView>::empty());
        chain
    }

    /// Drops the keys that have expired.
    pub fn drop_expired(&mut self, now: i64)
        ensures
            final(self)@ == (RecvView {
                skipped_keys: live_keys(old(self)@.skipped_keys, now),
                ..old(self)@
            }),
    {
        retain_live(&mut self.skipped_keys, now);
    }
}

/// The numbers of the keys of a table.
fn key_numbers(keys: &HashMap<u64, SkippedKey>) -> (numbers: Vec<u64>)
    ensures
        numbers@.to_set() == keys@.dom(),
        numbers@.no_duplicates(),
        numbers@.len() == keys@.dom().len(),
{
    let mut numbers: Vec<u64> = Vec::new();
    for n in it: keys.keys()
        invariant
            numbers@ =~= it.seq().unref().take(it.index()),
            it.seq().unref().to_set() == keys@.dom(),
            it.index() == it.seq().len() ==> numbers@ =~= it.seq().unref(),
    {
        numbers.push(*n);
        assert(it.seq().unref().take(it.index()).push(*n) =~= it.seq().unref().take(
            it.index() + 1,
        ));
    }
    numbers
}

/// Drops the keys that have expired.
fn retain_live(keys: &mut HashMap<u64, SkippedKey>, now: i64)
    ensures
        skipped_views(final(keys)@) == live_keys(skipped_views(old(keys)@), now),
{
    let ghost before = keys@;
    let numbers = key_numbers(keys);
    let mut i: usize = 0;
    while i < numbers.len()
        invariant
            i <= numbers@.len(),
            numbers@.to_set() == before.dom(),
            numbers@.no_duplicates(),
            forall|n: u64| #[trigger]
                keys@.contains_key(n) <==> before.contains_key(n) && (before[n].expires_at > now
                    || !numbers@.take(i as int).contains(n)),
            forall|n: u64| #[trigger] keys@.contains_key(n) ==> keys@[n] == before[n],
        decreases numbers.len() - i,
    {
        let n: u64 = numbers[i];
        assert(numbers@.to_set().contains(n));
        assert(!numbers@.take(i as int).contains(n));
        assert(keys@.contains_key(n));
        let expired = match keys.get(&n) {
            Some(key) => key.expires_at <= now,
            None => false,
        };
        let ghost here = keys@;
        if expired {
            keys.remove(&n);
        }
        proof {
            let done = numbers@.take(i + 1);
            assert(done =~= numbers@.take(i as int).push(n));
            assert forall|m: u64| done.contains(m) == (numbers@.take(i as int).contains(m) || m
                == n) by {
                if numbers@.take(i as int).contains(m) {
                    let j = choose|j: int| 0 <= j < i && numbers@.take(i as int)[j] == m;
                    assert(done[j] == m);
                }
                if m == n {
                    assert(done[i as int] == m);
                }
            }
        }
        i += 1;
    }
    proof {
        assert(numbers@.take(numbers@.len() as int) =~= numbers@);
        assert forall|n: u64| before.contains_key(n) implies numbers@.contains(n) by {
            assert(numbers@.to_set().contains(n));
        }
        assert(skipped_views(keys@) =~= live_keys(skipped_views(before), now));
    }
}

/// The smallest number of a nonempty list.
fn smallest(numbers: &Vec<u64>) -> (n: u64)
    requires
        numbers@.len() > 0,
    ensures
        is_oldest(numbers@.to_set(), n),
{
    let mut best: u64 = numbers[0];
    let mut i: usize = 1;
    while i < numbers.len()
        invariant
            1 <= i <= numbers@.len(),
            numbers@.contains(best),
            forall|k: int| 0 <= k < i ==> best <= numbers@[k],
        decreases numbers.len() - i,
    {
        if numbers[i] < best {
            best = numbers[i];
        }
        i += 1;
    }
    assert forall|m: u64| #[trigger] numbers@.to_set().contains(m) implies best <= m by {
        let k = choose|k: int| 0 <= k < numbers@.len() && numbers@[k] == m;
        assert(numbers@[k] == m);
    }
    best
}

/// Drops expired keys, and the oldest of the rest while there are more than `max_skip`.
fn trim_skipped_keys(keys: &mut HashMap<u64, SkippedKey>, max_skip: u64, now: i64)
    ensures
        skipped_views(final(keys)@) == trimmed_keys(skipped_views(old(keys)@), max_skip, now),
{
    retain_live(keys, now);
    let ghost goal = latest_keys(skipped_views(keys@), max_skip);
    while keys.len() as u64 > max_skip
        invariant
            latest_keys(skipped_views(keys@), max_skip) == goal,
        decreases keys@.dom().len(),
    {
        let ghost before = skipped_views(keys@);
        assert(before.dom() =~= keys@.dom());
        let numbers = key_numbers(keys);
        let n = smallest(&numbers);
        proof {
            assert(is_oldest(before.dom(), n));
            let chosen = choose|m: u64| is_oldest(before.dom(), m);
            assert(is_oldest(before.dom(), chosen));
            assert(chosen == n);
        }
        keys.remove(&n);
        assert(skipped_views(keys@) =~= before.remove(n));
    }
    assert(skipped_views(keys@).dom() =~= keys@.dom());
}

/// Opens a message that the chain has moved past.
fn open_with_skipped_key(recv: &mut RecvChainState, aad: &[u8], message: &EncryptedMessage) -> (out:
    Result<Vec<u8>, CryptoError>)
    requires
        message.header.msg_no < old(recv).next_msg_no,
        aad@ == json_bytes(header_tree(message@.header)),
    ensures
        forall|now: i64, ttl: i64|
            #![trigger chain_opened(old(recv)@, message@, now, ttl)]
            chain_result(out) == chain_opened(old(recv)@, message@, now, ttl).0 && final(recv)@
                == chain_opened(old(recv)@, message@, now, ttl).1,
{
    let n: u64 = message.header.msg_no;
    let key = match recv.skipped_keys.get(&n) {
        Some(key) => *key,
        None => {
            return Err(CryptoError::MissingSkippedKey);
        },
    };
    match chacha_open(&key.aead_key, &key.nonce, aad, message.ciphertext.as_slice()) {
        Some(plain) => {
            recv.skipped_keys.remove(&n);
            assert(recv@.skipped_keys =~= old(recv)@.skipped_keys.remove(n));
            Ok(plain)
        },
        None => Err(CryptoError::SkippedAuthentication),
    }
}

/// The outcome with the plaintext as a sequence.
pub open spec fn chain_result(out: Result<Vec<u8>, CryptoError>) -> Result<Seq<u8>, CryptoError> {
    match out {
        Ok(plain) => Ok(plain@),
        Err(e) => Err(e),
    }
}

/// Opens a message on its sender's chain. A message that does not open leaves the chain as it was.
pub fn open_on_chain(
    recv: &mut RecvChainState,
    skipped_key_ttl_secs: i64,
    message: &EncryptedMessage,
    now: i64,
) -> (out: Result<Vec<u8>, CryptoError>)
    ensures
        chain_result(out) == chain_opened(old(recv)@, message@, now, skipped_key_ttl_secs).0,
        final(recv)@ == chain_opened(old(recv)@, message@, now, skipped_key_ttl_secs).1,
{
    let aad = header_to_bytes(&message.header);
    if message.header.msg_no < recv.next_msg_no {
        let ghost start = recv@;
        let out = open_with_skipped_key(recv, aad.as_slice(), message);
        assert(chain_result(out) == chain_opened(start, message@, now, skipped_key_ttl_secs).0);
        return out;
    }
    let gap: u64 = message.header.msg_no - recv.next_msg_no;
    if gap > recv.max_skip {
        return Err(CryptoError::MessageGap);
    }
    let mut temp = recv.clone();
    while temp.next_msg_no < message.header.msg_no
        invariant
            temp.next_msg_no <= message.header.msg_no,
            temp.max_skip == recv.max_skip,
            advanced(temp@, message@.header.msg_no, now, skipped_key_ttl_secs) == advanced(
                recv@,
                message@.header.msg_no,
                now,
                skipped_key_ttl_secs,
            ),
        decreases message.header.msg_no - temp.next_msg_no,
    {
        let ghost here = temp@;
        let step = derive_chain_step(&temp.chain_key);
        let key = SkippedKey {
            aead_key: step.aead_key,
            nonce: step.nonce,
            expires_at: saturating_sum_of(now, skipped_key_ttl_secs),
        };
        temp.skipped_keys.insert(temp.next_msg_no, key);
        assert(temp@.skipped_keys =~= here.skipped_keys.insert(here.next_msg_no, key@));
        trim_skipped_keys(&mut temp.skipped_keys, recv.max_skip, now);
        temp.chain_key = step.next_chain_key;
        temp.next_msg_no = temp.next_msg_no + 1;
    }
    let mut target = derive_chain_step(&temp.chain_key);
    let opened = chacha_open(
        &target.aead_key,
        &target.nonce,
        aad.as_slice(),
        message.ciphertext.as_slice(),
    );
    match opened {
        Some(plain) => {
            recv.chain_key = target.next_chain_key;
            recv.next_msg_no = message.header.msg_no.saturating_add(1);
            recv.skipped_keys = temp.skipped_keys;
            zeroize(&mut target.aead_key);
            zeroize(&mut target.nonce);
            Ok(plain)
        },
        None => Err(CryptoError::Authentication),
    }
}

} // verus!
