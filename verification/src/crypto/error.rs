//! Why a cryptographic operation was refused.
use vstd::prelude::*;

verus! {

#[derive(Debug, Clone, Copy, PartialEq, Eq, Structural)]
pub enum CryptoError {
    HkdfExpand,
    AnnounceGroup,
    AnnounceKeyLength,
    AnnounceMac,
    AnnounceKeyConflict,
    MissingPendingTransition,
    MissingRecipientKey,
    MissingPendingForCommit,
    CommitWithoutMySecret,
    PlainGroup,
    PlainOldEpoch,
    PlainNewEpoch,
    PlainEventType,
    WrappedRecipient,
    PlainRosterHash,
    PlainSecretLength,
    NoEpochSecret,
    EncryptionFailed,
    UnsupportedVersion,
    GroupMismatch,
    ReflectedMessage,
    EpochMismatch,
    CommitGroup,
    CommitOldEpoch,
    CommitNewEpoch,
    CommitOldRoster,
    CommitNewRoster,
    CommitAttempt,
    CommitProposer,
    CommitRecipients,
    WrapFailed,
    WrappedNonceLength,
    UnwrapFailed,
    InvalidPlain,
    Expected32Bytes,
    MissingSkippedKey,
    SkippedAuthentication,
    SenderNotInRoster,
    MissingReceiveChain,
    MessageGap,
    Authentication,
}

impl CryptoError {
    /// The text shown to the user.
    pub open spec fn message_text(self) -> Seq<char> {
        match self {
            CryptoError::HkdfExpand => "HKDF expand failed"@,
            CryptoError::AnnounceGroup => "Key announce group mismatch"@,
            CryptoError::AnnounceKeyLength => "Key announce public key length mismatch"@,
            CryptoError::AnnounceMac => "Key announce MAC mismatch"@,
            CryptoError::AnnounceKeyConflict => "Key announce public key conflict"@,
            CryptoError::MissingPendingTransition => "Missing pending transition"@,
            CryptoError::MissingRecipientKey => "Missing recipient X25519 public key"@,
            CryptoError::MissingPendingForCommit => "Missing pending transition for epoch commit"@,
            CryptoError::CommitWithoutMySecret => "Epoch commit is missing my wrapped secret"@,
            CryptoError::PlainGroup => "Wrapped epoch secret group_id mismatch"@,
            CryptoError::PlainOldEpoch => "Wrapped epoch secret old_epoch mismatch"@,
            CryptoError::PlainNewEpoch => "Wrapped epoch secret new_epoch mismatch"@,
            CryptoError::PlainEventType => "Wrapped epoch secret event_type mismatch"@,
            CryptoError::WrappedRecipient => "Wrapped epoch secret recipient mismatch"@,
            CryptoError::PlainRosterHash => "Wrapped epoch secret roster hash mismatch"@,
            CryptoError::PlainSecretLength => "Wrapped epoch secret length mismatch"@,
            CryptoError::NoEpochSecret => "Current epoch secret unavailable"@,
            CryptoError::EncryptionFailed => "Secure message encryption failed"@,
            CryptoError::UnsupportedVersion => "Unsupported secure message version"@,
            CryptoError::GroupMismatch => "Group ID mismatch"@,
            CryptoError::ReflectedMessage => "Ignoring reflected self message"@,
            CryptoError::EpochMismatch => "Epoch mismatch"@,
            CryptoError::CommitGroup => "Epoch commit group mismatch"@,
            CryptoError::CommitOldEpoch => "Epoch commit old_epoch mismatch"@,
            CryptoError::CommitNewEpoch => "Epoch commit new_epoch is not old_epoch + 1"@,
            CryptoError::CommitOldRoster => "Epoch commit old roster hash mismatch"@,
            CryptoError::CommitNewRoster => "Epoch commit new roster hash mismatch"@,
            CryptoError::CommitAttempt => "Epoch commit proposer attempt out of range"@,
            CryptoError::CommitProposer => "Epoch commit proposer is not locally valid"@,
            CryptoError::CommitRecipients => "Epoch commit wrapped recipient set mismatch"@,
            CryptoError::WrapFailed => "Epoch secret wrapping failed"@,
            CryptoError::WrappedNonceLength => "Wrapped epoch secret nonce length mismatch"@,
            CryptoError::UnwrapFailed => "Epoch secret unwrap failed"@,
            CryptoError::InvalidPlain => "Invalid wrapped epoch secret"@,
            CryptoError::Expected32Bytes => "Expected a 32-byte field"@,
            CryptoError::MissingSkippedKey => "Missing skipped key for stale message"@,
            CryptoError::SkippedAuthentication => "Skipped secure message authentication failed"@,
            CryptoError::SenderNotInRoster => "Sender is not in epoch roster"@,
            CryptoError::MissingReceiveChain => "Missing receive chain for sender"@,
            CryptoError::MessageGap => "Message gap exceeds MAX_SKIP"@,
            CryptoError::Authentication => "Secure message authentication failed"@,
        }
    }

    /// The text shown to the user.
    pub fn message(self) -> (text: &'static str)
        ensures
            text@ == self.message_text(),
    {
        match self {
            CryptoError::HkdfExpand => "HKDF expand failed",
            CryptoError::AnnounceGroup => "Key announce group mismatch",
            CryptoError::AnnounceKeyLength => "Key announce public key length mismatch",
            CryptoError::AnnounceMac => "Key announce MAC mismatch",
            CryptoError::AnnounceKeyConflict => "Key announce public key conflict",
            CryptoError::MissingPendingTransition => "Missing pending transition",
            CryptoError::MissingRecipientKey => "Missing recipient X25519 public key",
            CryptoError::MissingPendingForCommit => "Missing pending transition for epoch commit",
            CryptoError::CommitWithoutMySecret => "Epoch commit is missing my wrapped secret",
            CryptoError::PlainGroup => "Wrapped epoch secret group_id mismatch",
            CryptoError::PlainOldEpoch => "Wrapped epoch secret old_epoch mismatch",
            CryptoError::PlainNewEpoch => "Wrapped epoch secret new_epoch mismatch",
            CryptoError::PlainEventType => "Wrapped epoch secret event_type mismatch",
            CryptoError::WrappedRecipient => "Wrapped epoch secret recipient mismatch",
            CryptoError::PlainRosterHash => "Wrapped epoch secret roster hash mismatch",
            CryptoError::PlainSecretLength => "Wrapped epoch secret length mismatch",
            CryptoError::NoEpochSecret => "Current epoch secret unavailable",
            CryptoError::EncryptionFailed => "Secure message encryption failed",
            CryptoError::UnsupportedVersion => "Unsupported secure message version",
            CryptoError::GroupMismatch => "Group ID mismatch",
            CryptoError::ReflectedMessage => "Ignoring reflected self message",
            CryptoError::EpochMismatch => "Epoch mismatch",
            CryptoError::CommitGroup => "Epoch commit group mismatch",
            CryptoError::CommitOldEpoch => "Epoch commit old_epoch mismatch",
            CryptoError::CommitNewEpoch => "Epoch commit new_epoch is not old_epoch + 1",
            CryptoError::CommitOldRoster => "Epoch commit old roster hash mismatch",
            CryptoError::CommitNewRoster => "Epoch commit new roster hash mismatch",
            CryptoError::CommitAttempt => "Epoch commit proposer attempt out of range",
            CryptoError::CommitProposer => "Epoch commit proposer is not locally valid",
            CryptoError::CommitRecipients => "Epoch commit wrapped recipient set mismatch",
            CryptoError::WrapFailed => "Epoch secret wrapping failed",
            CryptoError::WrappedNonceLength => "Wrapped epoch secret nonce length mismatch",
            CryptoError::UnwrapFailed => "Epoch secret unwrap failed",
            CryptoError::InvalidPlain => "Invalid wrapped epoch secret",
            CryptoError::Expected32Bytes => "Expected a 32-byte field",
            CryptoError::MissingSkippedKey => "Missing skipped key for stale message",
            CryptoError::SkippedAuthentication => "Skipped secure message authentication failed",
            CryptoError::SenderNotInRoster => "Sender is not in epoch roster",
            CryptoError::MissingReceiveChain => "Missing receive chain for sender",
            CryptoError::MessageGap => "Message gap exceeds MAX_SKIP",
            CryptoError::Authentication => "Secure message authentication failed",
        }
    }
}

} // verus!
