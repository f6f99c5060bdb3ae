//! Encrypting and decrypting group messages.
use crate::crypto::aead::{chacha_opened, chacha_seal};
use crate::crypto::chain::{
    derive_chain_step, message_key, message_nonce, open_on_chain, zeroize, ChainState,
    RecvChainState,
};
use crate::crypto::error::CryptoError;
use crate::crypto::group::{
    cleaned, decrypted, encrypted, lemma_view_insert, old_index, opened_in_epoch, GroupCryptoState,
    MemberCryptoInfo, CURRENT_PROTOCOL_VERSION,
};
use crate::crypto::messages::{
    header_to_bytes, header_tree, DecryptedMessage, EncryptedMessage, MessageView,
    SecureMessageHeader, SecureMessageType,
};
use crate::outside::clock::unix_timestamp;
use crate::outside::json::json_bytes;
use crate::outside::random::random_bytes32;
use crate::util::id_map::{view_map, IdMap};
use crate::util::text::same_text;
use vstd::prelude::*;

verus! {

/// A message as a value.
pub open spec fn message_result(out: Result<EncryptedMessage, CryptoError>) -> Result<
    MessageView,
    CryptoError,
> {
    match out {
        Ok(m) => Ok(m@),
        Err(e) => Err(e),
    }
}

/// Whether an opened message, or why it was not opened, is the expected one. An opened message
/// keeps its header.
pub open spec fn opened_is(
    out: Result<DecryptedMessage, CryptoError>,
    message: MessageView,
    expected: Result<Seq<u8>, CryptoError>,
) -> bool {
    match (out, expected) {
        (Ok(d), Ok(plaintext)) => d.header@ == message.header && d.plaintext@ == plaintext,
        (Err(e), Err(v)) => e == v,
        _ => false,
    }
}

/// Whether a message opens, under the keys of a chain position, to a plaintext.
pub open spec fn opens_at(message: MessageView, chain_key: Seq<u8>, plaintext: Seq<u8>) -> bool {
    chacha_opened(
        message_key(chain_key),
        message_nonce(chain_key),
        json_bytes(header_tree(message.header)),
        message.ciphertext,
    ) == Some(plaintext)
}

/// Encrypts a message at a given time. What is sent opens under the keys of the sending position.
pub fn encrypt_message_at(
    state: &mut GroupCryptoState,
    msg_type: SecureMessageType,
    plaintext: &[u8],
    now: i64,
) -> (out: Result<EncryptedMessage, CryptoError>)
    requires
        old(state).wf(),
    ensures
        final(state).wf(),
        message_result(out) == encrypted(old(state)@, msg_type, plaintext@, now).0,
        final(state)@ == encrypted(old(state)@, msg_type, plaintext@, now).1,
        out matches Ok(m) ==> {
            &&& opens_at(m@, old(state)@.sender->0.chain_key, plaintext@)
            &&& m.ciphertext@.len() == plaintext@.len() + 16
        },
{
    let ghost g = state@;
    state.cleanup_expired_at(now);
    let chain = match &state.my_sender_chain {
        Some(chain) => *chain,
        None => {
            return Err(CryptoError::NoEpochSecret);
        },
    };
    let mut step = derive_chain_step(&chain.chain_key);
    let header = SecureMessageHeader {
        version: CURRENT_PROTOCOL_VERSION,
        group_id: state.group_id.clone(),
        epoch: state.epoch,
        sender_id: state.my_member_id.clone(),
        msg_no: chain.msg_no,
        msg_type,
    };
    let aad = header_to_bytes(&header);
    let ciphertext = match chacha_seal(&step.aead_key, &step.nonce, aad.as_slice(), plaintext) {
        Some(ciphertext) => ciphertext,
        None => {
            return Err(CryptoError::EncryptionFailed);
        },
    };
    state.my_sender_chain = Some(
        ChainState {
            chain_key: step.next_chain_key,
            msg_no: chain.msg_no.saturating_add(1),
        },
    );
    zeroize(&mut step.aead_key);
    zeroize(&mut step.nonce);
    Ok(EncryptedMessage { header, ciphertext })
}

/// Encrypts a message for the group.
pub fn encrypt_message(
    state: &mut GroupCryptoState,
    msg_type: SecureMessageType,
    plaintext: &[u8],
) -> (out: Result<EncryptedMessage, CryptoError>)
    requires
        old(state).wf(),
    ensures
        final(state).wf(),
        exists|now: i64|
            (message_result(out), final(state)@) == #[trigger] encrypted(
                old(state)@,
                msg_type,
                plaintext@,
                now,
            ),
        out matches Ok(m) ==> {
            &&& opens_at(m@, old(state)@.sender->0.chain_key, plaintext@)
            &&& m.ciphertext@.len() == plaintext@.len() + 16
        },
{
    let now = unix_timestamp();
    let out = encrypt_message_at(state, msg_type, plaintext, now);
    assert((message_result(out), state@) == encrypted(old(state)@, msg_type, plaintext@, now));
    out
}

/// Opens a message against a roster and its receive chains.
fn decrypt_for_epoch(
    members: &IdMap<MemberCryptoInfo>,
    recv_chains: &mut IdMap<RecvChainState>,
    skipped_key_ttl_secs: i64,
    message: &EncryptedMessage,
    now: i64,
) -> (out: Result<DecryptedMessage, CryptoError>)
    requires
        members.wf(),
        old(recv_chains).wf(),
    ensures
        final(recv_chains).wf(),
        ({
            let o = opened_in_epoch(
                view_map(members.map()),
                view_map(old(recv_chains).map()),
                skipped_key_ttl_secs,
                message@,
                now,
            );
            opened_is(out, message@, o.0) && view_map(final(recv_chains).map()) == o.1
        }),
{
    if !members.contains_key(message.header.sender_id.as_str()) {
        return Err(CryptoError::SenderNotInRoster);
    }
    let at = match recv_chains.position(message.header.sender_id.as_str()) {
        Some(at) => at,
        None => {
            return Err(CryptoError::MissingReceiveChain);
        },
    };
    let mut chain = recv_chains.entries[at].1.clone();
    let opened = open_on_chain(&mut chain, skipped_key_ttl_secs, message, now);
    proof {
        lemma_view_insert(recv_chains.map(), message.header.sender_id@, chain);
    }
    recv_chains.set_at(at, chain);
    match opened {
        Ok(plaintext) => Ok(DecryptedMessage { header: message.header.clone(), plaintext }),
        Err(e) => Err(e),
    }
}

/// Decrypts a message at a given time.
pub fn decrypt_message_at(
    state: &mut GroupCryptoState,
    message: &EncryptedMessage,
    now: i64,
) -> (out: Result<DecryptedMessage, CryptoError>)
    requires
        old(state).wf(),
    ensures
        final(state).wf(),
        opened_is(out, message@, decrypted(old(state)@, message@, now).0),
        final(state)@ == decrypted(old(state)@, message@, now).1,
{
    let ghost g = state@;
    state.cleanup_expired_at(now);
    let ghost c = state@;
    if message.header.version != CURRENT_PROTOCOL_VERSION {
        return Err(CryptoError::UnsupportedVersion);
    }
    if !same_text(message.header.group_id.as_str(), state.group_id.as_str()) {
        return Err(CryptoError::GroupMismatch);
    }
    if same_text(message.header.sender_id.as_str(), state.my_member_id.as_str()) {
        return Err(CryptoError::ReflectedMessage);
    }
    if message.header.epoch == state.epoch {
        if state.my_sender_chain.is_none() {
            return Err(CryptoError::NoEpochSecret);
        }
        let out = decrypt_for_epoch(
            &state.members,
            &mut state.recv_chains,
            state.skipped_key_ttl_secs,
            message,
            now,
        );
        assert(state@ =~= decrypted(g, message@, now).1);
        return out;
    }
    let mut i: usize = 0;
    assert(c.old.skip(0) =~= c.old);
    while i < state.old_epochs.len()
        invariant
            i <= state.old_epochs@.len(),
            c == state@,
            old_index(c.old, message@.header.epoch) == i + old_index(
                c.old.skip(i as int),
                message@.header.epoch,
            ),
            state.wf(),
            message@.header.version == CURRENT_PROTOCOL_VERSION,
            message@.header.group_id == c.group_id,
            message@.header.sender_id != c.me,
            message@.header.epoch != c.epoch,
            c == cleaned(g, now),
            g == old(state)@,
        decreases state.old_epochs.len() - i,
    {
        assert(c.old.skip(i as int)[0] == state.old_epochs@[i as int]@);
        if state.old_epochs[i].epoch == message.header.epoch {
            let ttl = state.skipped_key_ttl_secs;
            let mut chains = crate::util::id_map::copy_map(&state.old_epochs[i].recv_chains);
            let out = decrypt_for_epoch(
                &state.old_epochs[i].members,
                &mut chains,
                ttl,
                message,
                now,
            );
            let ghost here = state.old_epochs@;
            state.old_epochs[i].recv_chains = chains;
            proof {
                assert(c.old[i as int] == here[i as int]@);
                assert forall|k: int| 0 <= k < here.len() && k != i implies (
                #[trigger] state.old_epochs@[k]) == here[k] by {}
                assert(state@.old =~= decrypted(g, message@, now).1.old);
                assert(state@ =~= decrypted(g, message@, now).1);
            }
            return out;
        }
        assert(c.old.skip(i as int).drop_first() =~= c.old.skip(i + 1));
        i += 1;
    }
    Err(CryptoError::EpochMismatch)
}

/// Decrypts a message from the group.
pub fn decrypt_message(state: &mut GroupCryptoState, message: &EncryptedMessage) -> (out: Result<
    DecryptedMessage,
    CryptoError,
>)
    requires
        old(state).wf(),
    ensures
        final(state).wf(),
        exists|now: i64|
            opened_is(
                out,
                message@,
                (#[trigger] decrypted(old(state)@, message@, now)).0,
            ) && final(state)@ == decrypted(old(state)@, message@, now).1,
{
    let now = unix_timestamp();
    let out = decrypt_message_at(state, message, now);
    assert(opened_is(out, message@, decrypted(old(state)@, message@, now).0));
    out
}

/// A random secret for the first epoch of a group.
pub fn random_group_secret_epoch_0() -> [u8; 32] {
    random_bytes32()
}

/// A random epoch secret.
pub fn random_test_epoch_secret() -> [u8; 32] {
    random_bytes32()
}

} // verus!
