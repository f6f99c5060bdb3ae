//! The key of a room, from its name and credential.
use crate::crypto::aead::{chacha_open, chacha_opened, chacha_seal, sealable};
use crate::crypto::chain::{bytes12_from_slice, bytes32_from_slice, derive32, push_bytes};
use crate::outside::aead::chacha_sealed;
use crate::outside::digest::{hkdf_sha256, hmac_sha256, hmac_tag, md5, md5_digest};
use crate::outside::encoding::{
    base64_bytes, base64_decode, base64_encode, base64_text, hex_encode, hex_text,
};
use crate::outside::random::random_bytes;
use crate::outside::text::string_from_utf8;
use crate::util::text::{after_prefix, joined, strip_prefix};
use vstd::prelude::*;
use vstd::utf8::{decode_utf8, encode_utf8, valid_utf8};

verus! {

pub const ROOM_INFO: &'static str = "room-enc";

pub const ROOM_STATE_LABEL: &'static str = "rust-chat room-state v1";

pub const ROOM_JOIN_LABEL: &'static str = "rust-chat room-join-credential v1";

pub const ROOM_AUTH_LABEL: &'static str = "rust-chat room-auth-key v1";

pub const ROOM_LINE_PREFIX: &'static str = "ENC:";

/// A room's name, credential and key.
#[derive(Debug)]
pub struct RoomCryptoState {
    pub room_id: String,
    pub room_credential: String,
    pub room_key: [u8; 32],
}

#[verifier::ext_equal]
pub struct RoomKeyView {
    pub room_id: Seq<char>,
    pub room_credential: Seq<char>,
    pub room_key: Seq<u8>,
}

impl View for RoomCryptoState {
    type V = RoomKeyView;

    open spec fn view(&self) -> RoomKeyView {
        RoomKeyView {
            room_id: self.room_id@,
            room_credential: self.room_credential@,
            room_key: self.room_key@,
        }
    }
}

/// The key of a room: the digest of its name and credential, twice.
pub open spec fn room_key_of(room_id: Seq<char>, room_credential: Seq<char>) -> Seq<u8> {
    let digest = md5(encode_utf8(room_id + room_credential));
    digest + digest
}

/// The credential that the server asks for: a tag under the first half of the key.
pub open spec fn join_credential_of(room_key: Seq<u8>) -> Seq<char> {
    hex_text(hmac_sha256(room_key.take(16), encode_utf8(ROOM_JOIN_LABEL@)))
}

/// The key that authenticates the members of a room to each other.
pub open spec fn room_auth_key_of(room_key: Seq<u8>) -> Seq<u8> {
    hkdf_sha256(
        Some(encode_utf8(ROOM_AUTH_LABEL@)),
        room_key,
        encode_utf8("room-auth"@),
        32,
    )
}

/// The key of a room line with a given salt.
pub open spec fn room_line_key(room_key: Seq<u8>, salt: Seq<u8>) -> Seq<u8> {
    hkdf_sha256(Some(salt), room_key, encode_utf8(ROOM_INFO@), 32)
}

/// A room line with a given salt and nonce.
pub open spec fn room_line(
    room_key: Seq<u8>,
    plain: Seq<char>,
    salt: Seq<u8>,
    nonce: Seq<u8>,
) -> Seq<char> {
    ROOM_LINE_PREFIX@ + base64_text(
        salt + nonce + chacha_sealed(
            room_line_key(room_key, salt),
            nonce,
            Seq::empty(),
            encode_utf8(plain),
        ),
    )
}

/// The bytes inside the encoded part of a room line.
pub open spec fn room_line_bytes(room_key: Seq<u8>, encoded: Seq<char>) -> Option<Seq<u8>> {
    match base64_bytes(encoded) {
        None => None,
        Some(data) => if data.len() < 44 {
            None
        } else {
            chacha_opened(
                room_line_key(room_key, data.subrange(0, 16)),
                data.subrange(16, 28),
                Seq::empty(),
                data.skip(28),
            )
        },
    }
}

/// The text of a room line.
pub open spec fn room_line_text(room_key: Seq<u8>, line: Seq<char>) -> Option<Seq<char>> {
    match after_prefix(line, ROOM_LINE_PREFIX@) {
        None => None,
        Some(encoded) => match room_line_bytes(room_key, encoded) {
            None => None,
            Some(plain) => if valid_utf8(plain) {
                Some(decode_utf8(plain))
            } else {
                None
            },
        },
    }
}

impl RoomCryptoState {
    pub fn from_room_credential(room_id: &str, room_credential: &str) -> (room: Self)
        ensures
            room@ == (RoomKeyView {
                room_id: room_id@,
                room_credential: room_credential@,
                room_key: room_key_of(room_id@, room_credential@),
            }),
    {
        let name = joined(room_id, room_credential);
        let digest = md5_digest(name.as_str().as_bytes());
        let mut bytes: Vec<u8> = Vec::new();
        push_bytes(&mut bytes, digest.as_slice());
        push_bytes(&mut bytes, digest.as_slice());
        let room_key = match bytes32_from_slice(bytes.as_slice()) {
            Ok(key) => key,
            Err(_) => {
                assert(false);
                [0u8;32]
            },
        };
        RoomCryptoState {
            room_id: room_id.to_owned(),
            room_credential: room_credential.to_owned(),
            room_key,
        }
    }

    pub fn room_id(&self) -> (s: &str)
        ensures
            s@ == self@.room_id,
    {
        self.room_id.as_str()
    }

    pub fn room_credential(&self) -> (s: &str)
        ensures
            s@ == self@.room_credential,
    {
        self.room_credential.as_str()
    }

    /// What is shown to the server to enter the room, in place of the credential.
    pub fn join_credential(&self) -> (s: String)
        ensures
            s@ == join_credential_of(self@.room_key),
    {
        let half = vstd::slice::slice_subrange(self.room_key.as_slice(), 0, 16);
        assert(half@ =~= self@.room_key.take(16));
        hex_encode(hmac_tag(half, ROOM_JOIN_LABEL.as_bytes()).as_slice())
    }

    /// The key that authenticates members to each other.
    pub fn room_auth_key(&self) -> (key: [u8; 32])
        ensures
            key@ == room_auth_key_of(self@.room_key),
    {
        derive32(
            Some(ROOM_AUTH_LABEL.as_bytes()),
            self.room_key.as_slice(),
            "room-auth".as_bytes(),
        )
    }

    /// Seals a line for the room with a given salt and nonce. It opens to the line.
    pub fn seal_with(&self, plain: &str, salt: &[u8], nonce: &[u8; 12]) -> (line: String)
        requires
            sealable(encode_utf8(plain@)),
            salt@.len() == 16,
        ensures
            line@ == room_line(self@.room_key, plain@, salt@, nonce@),
            room_line_text(self@.room_key, line@) == Some(plain@),
    {
        let key = derive32(Some(salt), self.room_key.as_slice(), ROOM_INFO.as_bytes());
        let empty: Vec<u8> = Vec::new();
        let ciphertext = match chacha_seal(&key, nonce, empty.as_slice(), plain.as_bytes()) {
            Some(ciphertext) => ciphertext,
            None => {
                assert(false);
                Vec::new()
            },
        };
        let mut out: Vec<u8> = Vec::new();
        push_bytes(&mut out, salt);
        push_bytes(&mut out, nonce.as_slice());
        push_bytes(&mut out, ciphertext.as_slice());
        let encoded = base64_encode(out.as_slice());
        let line = joined(ROOM_LINE_PREFIX, encoded.as_str());
        proof {
            assert(empty@ =~= Seq::<u8>::empty());
            assert(out@ =~= salt@ + nonce@ + ciphertext@);
            assert(out@.subrange(0, 16) =~= salt@);
            assert(out@.subrange(16, 28) =~= nonce@);
            assert(out@.skip(28) =~= ciphertext@);
            assert(line@.skip(ROOM_LINE_PREFIX@.len() as int) =~= encoded@);
            assert(ROOM_LINE_PREFIX@ =~= line@.subrange(0, ROOM_LINE_PREFIX@.len() as int));
            vstd::utf8::encode_utf8_valid_utf8(plain@);
            vstd::utf8::encode_utf8_decode_utf8(plain@);
        }
        line
    }

    /// Seals a line for the room.
    pub fn seal(&self, plain: &str) -> (line: String)
        requires
            sealable(encode_utf8(plain@)),
        ensures
            exists|salt: Seq<u8>, nonce: Seq<u8>|
                salt.len() == 16 && nonce.len() == 12 && line@ == #[trigger] room_line(
                    self@.room_key,
                    plain@,
                    salt,
                    nonce,
                ),
            room_line_text(self@.room_key, line@) == Some(plain@),
    {
        let salt = random_bytes(16);
        let nonce_bytes = random_bytes(12);
        let nonce = match bytes12_from_slice(nonce_bytes.as_slice()) {
            Some(nonce) => nonce,
            None => {
                assert(false);
                [0u8;12]
            },
        };
        self.seal_with(plain, salt.as_slice(), &nonce)
    }

    /// The text of a line of the room.
    pub fn open(&self, line: &str) -> (out: Option<String>)
        ensures
            match (out, room_line_text(self@.room_key, line@)) {
                (Some(t), Some(v)) => t@ == v,
                (None, None) => true,
                _ => false,
            },
    {
        let encoded = match strip_prefix(line, ROOM_LINE_PREFIX) {
            Some(encoded) => encoded,
            None => {
                return None;
            },
        };
        let data = match base64_decode(encoded.as_str()) {
            Some(data) => data,
            None => {
                return None;
            },
        };
        if data.len() < 44 {
            return None;
        }
        let salt = vstd::slice::slice_subrange(data.as_slice(), 0, 16);
        let nonce = match bytes12_from_slice(
            vstd::slice::slice_subrange(data.as_slice(), 16, 28),
        ) {
            Some(nonce) => nonce,
            None => {
                assert(false);
                [0u8;12]
            },
        };
        let ct = vstd::slice::slice_subrange(data.as_slice(), 28, data.len());
        assert(ct@ =~= data@.skip(28));
        let key = derive32(Some(salt), self.room_key.as_slice(), ROOM_INFO.as_bytes());
        let empty: Vec<u8> = Vec::new();
        assert(empty@ =~= Seq::<u8>::empty());
        match chacha_open(&key, &nonce, empty.as_slice(), ct) {
            Some(plain) => string_from_utf8(plain),
            None => None,
        }
    }

    /// A secret that stands in for an epoch's before there is one.
    pub fn placeholder_epoch_secret(&self) -> (secret: [u8; 32])
        ensures
            secret@ == hkdf_sha256(
                Some(encode_utf8(ROOM_STATE_LABEL@)),
                self@.room_key,
                encode_utf8("epoch-placeholder"@),
                32,
            ),
    {
        derive32(
            Some(ROOM_STATE_LABEL.as_bytes()),
            self.room_key.as_slice(),
            "epoch-placeholder".as_bytes(),
        )
    }
}

} // verus!
