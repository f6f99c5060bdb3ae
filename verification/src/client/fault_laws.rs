//! What went wrong is told with its particulars, and told from what else may go wrong.
use crate::attachments::receiver::{fault_text, ReceiveFault};
use crate::attachments::sender::{send_fault_text, SendFault};
use crate::attachments::store::StoreError;
use crate::client::handshake::{handshake_error_text, HandshakeErrorView};
use crate::client::input::{input_fault_text, InputFault};
use crate::client::network::{invite_failure_text, InviteFailureView};
use crate::crypto::error::CryptoError;
use crate::protocol::attachment::ChunkError;
use crate::ui::clipboard::{clipboard_error_text, ClipboardError};
use crate::ui::row_laws::lemma_occurs_between;
use crate::util::text::{decimal, occurs};
use vstd::prelude::*;

verus! {

proof fn lemma_ends(head: Seq<char>, tail: Seq<char>)
    ensures
        tail.is_suffix_of(head + tail),
{
    let s = head + tail;
    assert(tail =~= s.subrange(s.len() - tail.len(), s.len() as int));
}

/// Which of the faults a text is about.
spec fn store_number(text: Seq<char>) -> int {
    if text.len() == 20 {
        5
    } else if text.len() == 33 {
        1
    } else if text.len() == 34 {
        0
    } else if text.len() == 35 {
        2
    } else if text.len() == 36 {
        4
    } else if text.len() == 37 {
        3
    } else {
        6
    }
}

/// The number of a fault.
spec fn store_place(e: StoreError) -> int {
    match e {
        StoreError::Encrypt => 0,
        StoreError::Truncated => 1,
        StoreError::BadMagic => 2,
        StoreError::BadVersion => 3,
        StoreError::Decrypt => 4,
        StoreError::NotFound => 5,
        StoreError::NoFreePath => 6,
    }
}

#[verifier::spinoff_prover]
proof fn lemma_store_number(e: StoreError)
    ensures
        store_number(e.message_text()) == store_place(e),
{
    match e {
        StoreError::Encrypt => {
            reveal_strlit("failed to encrypt attachment bytes");
        },
        StoreError::Truncated => {
            reveal_strlit("encrypted attachment is truncated");
        },
        StoreError::BadMagic => {
            reveal_strlit("encrypted attachment magic mismatch");
        },
        StoreError::BadVersion => {
            reveal_strlit("encrypted attachment version mismatch");
        },
        StoreError::Decrypt => {
            reveal_strlit("failed to decrypt attachment payload");
        },
        StoreError::NotFound => {
            reveal_strlit("attachment not found");
        },
        StoreError::NoFreePath => {
            reveal_strlit("failed to allocate unique temp file path");
        },
    }
}

/// Different faults of the store are told in different words.
pub proof fn law_store_faults_are_told_apart(a: StoreError, b: StoreError)
    ensures
        a.message_text() == b.message_text() <==> a == b,
{
    lemma_store_number(a);
    lemma_store_number(b);
}

/// Which of the faults a text is about.
spec fn piece_number(text: Seq<char>) -> int {
    if text.len() == 34 {
        1
    } else if text.len() == 35 {
        0
    } else {
        2
    }
}

/// The number of a fault.
spec fn piece_place(e: ChunkError) -> int {
    match e {
        ChunkError::IndexTooLarge => 0,
        ChunkError::SealFailed => 1,
        ChunkError::OpenFailed => 2,
    }
}

#[verifier::spinoff_prover]
proof fn lemma_piece_number(e: ChunkError)
    ensures
        piece_number(e.message_text()) == piece_place(e),
{
    match e {
        ChunkError::IndexTooLarge => {
            reveal_strlit("Attachment chunk index is too large");
        },
        ChunkError::SealFailed => {
            reveal_strlit("Attachment chunk encryption failed");
        },
        ChunkError::OpenFailed => {
            reveal_strlit("Attachment chunk authentication failed");
        },
    }
}

/// Different faults of a piece are told in different words.
pub proof fn law_piece_faults_are_told_apart(a: ChunkError, b: ChunkError)
    ensures
        a.message_text() == b.message_text() <==> a == b,
{
    lemma_piece_number(a);
    lemma_piece_number(b);
}

/// Whether what the server said belongs to a fault.
pub open spec fn has_particulars(e: HandshakeErrorView) -> bool {
    e is RefusedInvite || e is Declined || e is UnexpectedBanner || e is RefusedJoin
}

/// Which of the faults a text is about.
spec fn handshake_number(text: Seq<char>) -> int {
    if text.len() == 9 {
        2
    } else if text.len() == 16 {
        13
    } else if text.len() == 17 {
        5
    } else if text.len() == 18 {
        0
    } else if text.len() == 22 {
        9
    } else if text.len() == 23 {
        6
    } else if text.len() == 24 {
        if text[13] == 'a' {
            1
        } else {
            3
        }
    } else if text.len() == 25 {
        8
    } else if text.len() == 29 {
        11
    } else if text.len() == 31 {
        10
    } else if text.len() == 33 {
        4
    } else if text.len() == 36 {
        12
    } else {
        7
    }
}

/// The number of a fault.
spec fn handshake_place(e: HandshakeErrorView) -> int {
    match e {
        HandshakeErrorView::InvalidInvitation => 0,
        HandshakeErrorView::InvalidToken => 1,
        HandshakeErrorView::InviteRefused => 2,
        HandshakeErrorView::InvalidInviteChallenge => 3,
        HandshakeErrorView::InvalidInviteResponse => 4,
        HandshakeErrorView::InvalidInviteOk => 5,
        HandshakeErrorView::InvalidBlob => 6,
        HandshakeErrorView::InvalidFinalResponse => 7,
        HandshakeErrorView::BadHex => 8,
        HandshakeErrorView::InvalidAuthChallenge => 9,
        HandshakeErrorView::InvalidAuthResponse => 10,
        HandshakeErrorView::InvalidBanner => 11,
        HandshakeErrorView::InvalidJoinResponse => 12,
        HandshakeErrorView::TooLong => 13,
        _ => -1,
    }
}

#[verifier::spinoff_prover]
proof fn lemma_handshake_number(e: HandshakeErrorView)
    requires
        handshake_place(e) >= 0,
    ensures
        handshake_number(handshake_error_text(e)) == handshake_place(e),
{
    match e {
        HandshakeErrorView::InvalidInvitation => {
            reveal_strlit("Invalid invitation");
        },
        HandshakeErrorView::InvalidToken => {
            reveal_strlit("Invalid invitation token");
        },
        HandshakeErrorView::InviteRefused => {
            reveal_strlit("邀请码无效或已过期");
        },
        HandshakeErrorView::InvalidInviteChallenge => {
            reveal_strlit("Invalid invite challenge");
        },
        HandshakeErrorView::InvalidInviteResponse => {
            reveal_strlit("Invalid encrypted invite response");
        },
        HandshakeErrorView::InvalidInviteOk => {
            reveal_strlit("Invalid INVITE_OK");
        },
        HandshakeErrorView::InvalidBlob => {
            reveal_strlit("Invalid invitation blob");
        },
        HandshakeErrorView::InvalidFinalResponse => {
            reveal_strlit("Invalid encrypted invite finalize response");
        },
        HandshakeErrorView::BadHex => {
            reveal_strlit("Invalid 32-byte hex field");
        },
        HandshakeErrorView::InvalidAuthChallenge => {
            reveal_strlit("Invalid auth challenge");
        },
        HandshakeErrorView::InvalidAuthResponse => {
            reveal_strlit("Invalid encrypted auth response");
        },
        HandshakeErrorView::InvalidBanner => {
            reveal_strlit("Invalid encrypted room banner");
        },
        HandshakeErrorView::InvalidJoinResponse => {
            reveal_strlit("Invalid encrypted room join response");
        },
        HandshakeErrorView::TooLong => {
            reveal_strlit("Line is too long");
        },
        _ => {},
    }
}

/// Different faults of a handshake are told in different words, where these are all that is told.
pub proof fn law_handshake_faults_are_told_apart(a: HandshakeErrorView, b: HandshakeErrorView)
    requires
        !has_particulars(a),
        !has_particulars(b),
    ensures
        handshake_error_text(a) == handshake_error_text(b) <==> a == b,
{
    lemma_handshake_number(a);
    lemma_handshake_number(b);
}

/// What the server said is told to the user.
pub proof fn law_server_words_are_told(said: Seq<char>)
    ensures
        said.is_suffix_of(handshake_error_text(HandshakeErrorView::RefusedInvite(said))),
        said.is_suffix_of(handshake_error_text(HandshakeErrorView::Declined(said))),
        said.is_suffix_of(handshake_error_text(HandshakeErrorView::UnexpectedBanner(said))),
        said.is_suffix_of(handshake_error_text(HandshakeErrorView::RefusedJoin(said))),
        said.is_suffix_of(invite_failure_text(InviteFailureView::Rejected(said))),
        said.is_suffix_of(input_fault_text(InputFault::NotFound(said))),
{
    lemma_ends("Server refused invite: "@, said);
    lemma_ends("Server declined: "@, said);
    lemma_ends("unexpected banner: "@, said);
    lemma_ends("server refused: "@, said);
    lemma_ends("Invite request rejected: "@, said);
    lemma_ends("Attachment not found: "@, said);
}

/// What is wrong with an attachment that comes in is told with its numbers and its name, or in the
/// words of what failed.
pub proof fn law_receive_faults_are_told(
    index: usize,
    expected: u64,
    got: u64,
    name: Seq<char>,
    piece: ChunkError,
    store: StoreError,
)
    ensures
        decimal(index as nat).is_suffix_of(fault_text(ReceiveFault::ChunkOutOfRange(index))),
        occurs(
            decimal(expected as nat),
            fault_text(ReceiveFault::SizeMismatch { expected, got }),
        ),
        decimal(got as nat).is_suffix_of(fault_text(ReceiveFault::SizeMismatch { expected, got })),
        name.is_suffix_of(fault_text(ReceiveFault::ChecksumMismatch(name))),
        fault_text(ReceiveFault::Chunk(piece)) == piece.message_text(),
        fault_text(ReceiveFault::Store(store)) == store.message_text(),
        fault_text(ReceiveFault::NotWritten(name)) == name,
{
    let e = decimal(expected as nat);
    let g = decimal(got as nat);
    let head = "Attachment size mismatch: expected "@;
    let text = fault_text(ReceiveFault::SizeMismatch { expected, got });
    lemma_ends("Attachment chunk out of range: "@, decimal(index as nat));
    lemma_occurs_between(head, e, ", got "@ + g);
    assert(head + e + (", got "@ + g) =~= text);
    lemma_ends(head + e + ", got "@, g);
    lemma_ends("Attachment checksum mismatch for "@, name);
}

/// Why an attachment is not sent is told with the number of the piece, counted from one, of how many
/// there are, or in the words of what failed.
pub proof fn law_send_faults_are_told(
    index: usize,
    total: usize,
    label: Seq<char>,
    crypto: CryptoError,
    piece: ChunkError,
)
    ensures
        occurs(
            decimal((index + 1) as nat),
            send_fault_text(SendFault::ChunkTimeout { index, total }),
        ),
        decimal(total as nat).is_suffix_of(
            send_fault_text(SendFault::ChunkTimeout { index, total }),
        ),
        label.is_suffix_of(send_fault_text(SendFault::UnexpectedEof(label))),
        send_fault_text(SendFault::Crypto(crypto)) == crypto.message_text(),
        send_fault_text(SendFault::Chunk(piece)) == piece.message_text(),
        send_fault_text(SendFault::MetaTimeout) != send_fault_text(SendFault::NoContext),
        send_fault_text(SendFault::MetaTimeout) != send_fault_text(SendFault::NoEpochSecret),
        send_fault_text(SendFault::NoContext) != send_fault_text(SendFault::NoEpochSecret),
{
    let n = decimal((index + 1) as nat);
    let m = decimal(total as nat);
    let head = "ACK timeout for chunk "@;
    let text = send_fault_text(SendFault::ChunkTimeout { index, total });
    lemma_occurs_between(head, n, " of "@ + m);
    assert(head + n + (" of "@ + m) =~= text);
    lemma_ends(head + n + " of "@, m);
    lemma_ends("Unexpected EOF while reading attachment "@, label);
    reveal_strlit("ACK timeout for attachment metadata");
    reveal_strlit("Current epoch secret unavailable");
    reveal_strlit("Attachment manifest context is unavailable");
    assert("ACK timeout for attachment metadata"@[1] == 'C');
    assert("Current epoch secret unavailable"@[1] == 'u');
    assert("Attachment manifest context is unavailable"@[1] == 't');
}

/// Why an image cannot be pasted is told with the sizes.
pub proof fn law_clipboard_faults_are_told(expected: usize, got: usize)
    ensures
        ({
            let text = clipboard_error_text(ClipboardError::SizeMismatch { expected, got });
            &&& occurs(decimal(expected as nat), text)
            &&& decimal(got as nat).is_suffix_of(text)
        }),
{
    let head = "Clipboard image buffer size mismatch: expected "@;
    let e = decimal(expected as nat);
    let g = decimal(got as nat);
    let text = clipboard_error_text(ClipboardError::SizeMismatch { expected, got });
    lemma_occurs_between(head, e, ", got "@ + g);
    assert(head + e + (", got "@ + g) =~= text);
    lemma_ends(head + e + ", got "@, g);
}

} // verus!
