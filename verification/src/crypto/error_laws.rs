//! What the user is told of a fault tells it from every other.
use crate::crypto::error::CryptoError;
use vstd::prelude::*;

verus! {

/// Which of the faults a text is about.
pub open spec fn fault_number(text: Seq<char>) -> int {
    if text.len() == 14 {
        21
    } else if text.len() == 17 {
        19
    } else if text.len() == 18 {
        0
    } else if text.len() == 24 {
        34
    } else if text.len() == 25 {
        3
    } else if text.len() == 26 {
        if text[0] == 'M' {
            5
        } else {
            32
        }
    } else if text.len() == 27 {
        if text[0] == 'K' {
            1
        } else {
            22
        }
    } else if text.len() == 28 {
        if text[0] == 'E' {
            30
        } else if text[0] == 'I' {
            33
        } else {
            39
        }
    } else if text.len() == 29 {
        37
    } else if text.len() == 31 {
        if text[0] == 'I' {
            20
        } else {
            23
        }
    } else if text.len() == 32 {
        if text[0] == 'K' {
            4
        } else if text[0] == 'C' {
            16
        } else if text[0] == 'S' {
            17
        } else {
            38
        }
    } else if text.len() == 34 {
        18
    } else if text.len() == 35 {
        6
    } else if text.len() == 36 {
        if text[0] == 'W' {
            15
        } else {
            40
        }
    } else if text.len() == 37 {
        if text[13] == 'o' {
            25
        } else if text[13] == 'n' {
            26
        } else {
            35
        }
    } else if text.len() == 38 {
        9
    } else if text.len() == 39 {
        if text[21] == 'e' {
            2
        } else if text[21] == 'o' {
            10
        } else if text[21] == 'n' {
            11
        } else {
            13
        }
    } else if text.len() == 40 {
        12
    } else if text.len() == 41 {
        if text[0] == 'E' {
            8
        } else {
            14
        }
    } else if text.len() == 42 {
        if text[22] == 'a' {
            27
        } else if text[22] == 'i' {
            28
        } else {
            31
        }
    } else if text.len() == 43 {
        if text[14] == 'g' {
            7
        } else if text[14] == 'e' {
            24
        } else {
            29
        }
    } else {
        36
    }
}

/// The number of a fault.
pub open spec fn number_of(e: CryptoError) -> int {
    match e {
        CryptoError::HkdfExpand => 0,
        CryptoError::AnnounceGroup => 1,
        CryptoError::AnnounceKeyLength => 2,
        CryptoError::AnnounceMac => 3,
        CryptoError::AnnounceKeyConflict => 4,
        CryptoError::MissingPendingTransition => 5,
        CryptoError::MissingRecipientKey => 6,
        CryptoError::MissingPendingForCommit => 7,
        CryptoError::CommitWithoutMySecret => 8,
        CryptoError::PlainGroup => 9,
        CryptoError::PlainOldEpoch => 10,
        CryptoError::PlainNewEpoch => 11,
        CryptoError::PlainEventType => 12,
        CryptoError::WrappedRecipient => 13,
        CryptoError::PlainRosterHash => 14,
        CryptoError::PlainSecretLength => 15,
        CryptoError::NoEpochSecret => 16,
        CryptoError::EncryptionFailed => 17,
        CryptoError::UnsupportedVersion => 18,
        CryptoError::GroupMismatch => 19,
        CryptoError::ReflectedMessage => 20,
        CryptoError::EpochMismatch => 21,
        CryptoError::CommitGroup => 22,
        CryptoError::CommitOldEpoch => 23,
        CryptoError::CommitNewEpoch => 24,
        CryptoError::CommitOldRoster => 25,
        CryptoError::CommitNewRoster => 26,
        CryptoError::CommitAttempt => 27,
        CryptoError::CommitProposer => 28,
        CryptoError::CommitRecipients => 29,
        CryptoError::WrapFailed => 30,
        CryptoError::WrappedNonceLength => 31,
        CryptoError::UnwrapFailed => 32,
        CryptoError::InvalidPlain => 33,
        CryptoError::Expected32Bytes => 34,
        CryptoError::MissingSkippedKey => 35,
        CryptoError::SkippedAuthentication => 36,
        CryptoError::SenderNotInRoster => 37,
        CryptoError::MissingReceiveChain => 38,
        CryptoError::MessageGap => 39,
        CryptoError::Authentication => 40,
    }
}

#[verifier::spinoff_prover]
#[verifier::rlimit(60)]
proof fn lemma_fault_number(e: CryptoError)
    ensures
        fault_number(e.message_text()) == number_of(e),
{
    match e {
        CryptoError::HkdfExpand => {
            reveal_strlit("HKDF expand failed");
        },
        CryptoError::AnnounceGroup => {
            reveal_strlit("Key announce group mismatch");
        },
        CryptoError::AnnounceKeyLength => {
            reveal_strlit("Key announce public key length mismatch");
        },
        CryptoError::AnnounceMac => {
            reveal_strlit("Key announce MAC mismatch");
        },
        CryptoError::AnnounceKeyConflict => {
            reveal_strlit("Key announce public key conflict");
        },
        CryptoError::MissingPendingTransition => {
            reveal_strlit("Missing pending transition");
        },
        CryptoError::MissingRecipientKey => {
            reveal_strlit("Missing recipient X25519 public key");
        },
        CryptoError::MissingPendingForCommit => {
            reveal_strlit("Missing pending transition for epoch commit");
        },
        CryptoError::CommitWithoutMySecret => {
            reveal_strlit("Epoch commit is missing my wrapped secret");
        },
        CryptoError::PlainGroup => {
            reveal_strlit("Wrapped epoch secret group_id mismatch");
        },
        CryptoError::PlainOldEpoch => {
            reveal_strlit("Wrapped epoch secret old_epoch mismatch");
        },
        CryptoError::PlainNewEpoch => {
            reveal_strlit("Wrapped epoch secret new_epoch mismatch");
        },
        CryptoError::PlainEventType => {
            reveal_strlit("Wrapped epoch secret event_type mismatch");
        },
        CryptoError::WrappedRecipient => {
            reveal_strlit("Wrapped epoch secret recipient mismatch");
        },
        CryptoError::PlainRosterHash => {
            reveal_strlit("Wrapped epoch secret roster hash mismatch");
        },
        CryptoError::PlainSecretLength => {
            reveal_strlit("Wrapped epoch secret length mismatch");
        },
        CryptoError::NoEpochSecret => {
            reveal_strlit("Current epoch secret unavailable");
        },
        CryptoError::EncryptionFailed => {
            reveal_strlit("Secure message encryption failed");
        },
        CryptoError::UnsupportedVersion => {
            reveal_strlit("Unsupported secure message version");
        },
        CryptoError::GroupMismatch => {
            reveal_strlit("Group ID mismatch");
        },
        CryptoError::ReflectedMessage => {
            reveal_strlit("Ignoring reflected self message");
        },
        CryptoError::EpochMismatch => {
            reveal_strlit("Epoch mismatch");
        },
        CryptoError::CommitGroup => {
            reveal_strlit("Epoch commit group mismatch");
        },
        CryptoError::CommitOldEpoch => {
            reveal_strlit("Epoch commit old_epoch mismatch");
        },
        CryptoError::CommitNewEpoch => {
            reveal_strlit("Epoch commit new_epoch is not old_epoch + 1");
        },
        CryptoError::CommitOldRoster => {
            reveal_strlit("Epoch commit old roster hash mismatch");
        },
        CryptoError::CommitNewRoster => {
            reveal_strlit("Epoch commit new roster hash mismatch");
        },
        CryptoError::CommitAttempt => {
            reveal_strlit("Epoch commit proposer attempt out of range");
        },
        CryptoError::CommitProposer => {
            reveal_strlit("Epoch commit proposer is not locally valid");
        },
        CryptoError::CommitRecipients => {
            reveal_strlit("Epoch commit wrapped recipient set mismatch");
        },
        CryptoError::WrapFailed => {
            reveal_strlit("Epoch secret wrapping failed");
        },
        CryptoError::WrappedNonceLength => {
            reveal_strlit("Wrapped epoch secret nonce length mismatch");
        },
        CryptoError::UnwrapFailed => {
            reveal_strlit("Epoch secret unwrap failed");
        },
        CryptoError::InvalidPlain => {
            reveal_strlit("Invalid wrapped epoch secret");
        },
        CryptoError::Expected32Bytes => {
            reveal_strlit("Expected a 32-byte field");
        },
        CryptoError::MissingSkippedKey => {
            reveal_strlit("Missing skipped key for stale message");
        },
        CryptoError::SkippedAuthentication => {
            reveal_strlit("Skipped secure message authentication failed");
        },
        CryptoError::SenderNotInRoster => {
            reveal_strlit("Sender is not in epoch roster");
        },
        CryptoError::MissingReceiveChain => {
            reveal_strlit("Missing receive chain for sender");
        },
        CryptoError::MessageGap => {
            reveal_strlit("Message gap exceeds MAX_SKIP");
        },
        CryptoError::Authentication => {
            reveal_strlit("Secure message authentication failed");
        },
    }
}

/// Different faults are told in different words.
pub proof fn law_faults_are_told_apart(a: CryptoError, b: CryptoError)
    ensures
        a.message_text() == b.message_text() <==> a == b,
{
    lemma_fault_number(a);
    lemma_fault_number(b);
}

} // verus!
