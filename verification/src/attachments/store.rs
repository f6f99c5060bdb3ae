//! Attachments at rest: encrypted under a key that never leaves the process.
use crate::crypto::aead::{chacha_open, chacha_opened, chacha_seal, sealable};
use crate::crypto::chain::{bytes12_from_slice, bytes32_from_slice, derive32, push_bytes};
use crate::outside::aead::chacha_sealed;
use crate::outside::digest::hkdf_sha256;
use crate::outside::encoding::{hex_encode, hex_text};
use crate::outside::path::path_file_name;
use crate::outside::random::{fresh_id, lower_hex, random_bytes, random_bytes32};
use crate::util::id_map::{view_map, IdMap};
use crate::util::path::{extension, extension_of, may_be_name};
use crate::util::text::{joined, opt_str, opt_text, trim, trimmed};
use vstd::prelude::*;
use vstd::utf8::encode_utf8;

verus! {

/// How long a salt is.
pub const SALT_LEN: usize = 32;

/// How long a nonce is.
pub const NONCE_LEN: usize = 12;

/// How often a name for a file is looked for.
pub const NAME_ATTEMPTS: usize = 16;

/// The bytes that a stored attachment starts with: a mark and the version.
pub open spec fn header() -> Seq<u8> {
    seq![0x9du8, 0x41u8, 0x7au8, 0x26u8, 1u8]
}

/// Why an attachment could not be stored or read.
#[derive(Debug, Clone, Copy, PartialEq, Eq, Structural)]
pub enum StoreError {
    Encrypt,
    Truncated,
    BadMagic,
    BadVersion,
    Decrypt,
    NotFound,
    NoFreePath,
}

impl StoreError {
    pub open spec fn message_text(self) -> Seq<char> {
        match self {
            StoreError::Encrypt => "failed to encrypt attachment bytes"@,
            StoreError::Truncated => "encrypted attachment is truncated"@,
            StoreError::BadMagic => "encrypted attachment magic mismatch"@,
            StoreError::BadVersion => "encrypted attachment version mismatch"@,
            StoreError::Decrypt => "failed to decrypt attachment payload"@,
            StoreError::NotFound => "attachment not found"@,
            StoreError::NoFreePath => "failed to allocate unique temp file path"@,
        }
    }

    /// The text shown to the user.
    pub fn message(self) -> (text: &'static str)
        ensures
            text@ == self.message_text(),
    {
        match self {
            StoreError::Encrypt => "failed to encrypt attachment bytes",
            StoreError::Truncated => "encrypted attachment is truncated",
            StoreError::BadMagic => "encrypted attachment magic mismatch",
            StoreError::BadVersion => "encrypted attachment version mismatch",
            StoreError::Decrypt => "failed to decrypt attachment payload",
            StoreError::NotFound => "attachment not found",
            StoreError::NoFreePath => "failed to allocate unique temp file path",
        }
    }
}

/// The key of one attachment.
pub open spec fn attachment_key(master: Seq<u8>, salt: Seq<u8>, id: Seq<char>) -> Seq<u8> {
    hkdf_sha256(Some(salt), master, encode_utf8(id), 32)
}

/// The stored form of an attachment.
pub open spec fn stored_form(
    master: Seq<u8>,
    id: Seq<char>,
    salt: Seq<u8>,
    nonce: Seq<u8>,
    bytes: Seq<u8>,
) -> Seq<u8> {
    header() + salt + nonce + chacha_sealed(
        attachment_key(master, salt, id),
        nonce,
        Seq::empty(),
        bytes,
    )
}

/// What reading a stored form gives.
pub open spec fn stored_bytes(master: Seq<u8>, id: Seq<char>, encoded: Seq<u8>) -> Result<
    Seq<u8>,
    StoreError,
> {
    if encoded.len() < 49 {
        Err(StoreError::Truncated)
    } else if encoded.take(4) != header().take(4) {
        Err(StoreError::BadMagic)
    } else if encoded[4] != header()[4] {
        Err(StoreError::BadVersion)
    } else {
        match chacha_opened(
            attachment_key(master, encoded.subrange(5, 37), id),
            encoded.subrange(37, 49),
            Seq::empty(),
            encoded.skip(49),
        ) {
            Some(bytes) => Ok(bytes),
            None => Err(StoreError::Decrypt),
        }
    }
}

pub fn derive_attachment_key_from_master(
    master_key: &[u8; 32],
    salt: &[u8; 32],
    attachment_id: &str,
) -> (key: [u8; 32])
    ensures
        key@ == attachment_key(master_key@, salt@, attachment_id@),
{
    derive32(Some(salt.as_slice()), master_key.as_slice(), attachment_id.as_bytes())
}

/// The stored form of an attachment. It reads back to the attachment.
pub fn encode_attachment(
    master_key: &[u8; 32],
    attachment_id: &str,
    salt: &[u8; 32],
    nonce: &[u8; 12],
    bytes: &[u8],
) -> (out: Result<Vec<u8>, StoreError>)
    ensures
        match out {
            Ok(encoded) => {
                &&& encoded@ == stored_form(master_key@, attachment_id@, salt@, nonce@, bytes@)
                &&& stored_bytes(master_key@, attachment_id@, encoded@) == Ok::<
                    Seq<u8>,
                    StoreError,
                >(bytes@)
                &&& sealable(bytes@)
            },
            Err(e) => !sealable(bytes@) && e == StoreError::Encrypt,
        },
{
    let key = derive_attachment_key_from_master(master_key, salt, attachment_id);
    let empty: Vec<u8> = Vec::new();
    assert(empty@ =~= Seq::<u8>::empty());
    match chacha_seal(&key, nonce, empty.as_slice(), bytes) {
        None => Err(StoreError::Encrypt),
        Some(ciphertext) => {
            let mut encoded: Vec<u8> = Vec::new();
            encoded.push(0x9d);
            encoded.push(0x41);
            encoded.push(0x7a);
            encoded.push(0x26);
            encoded.push(1);
            assert(encoded@ =~= header());
            push_bytes(&mut encoded, salt.as_slice());
            push_bytes(&mut encoded, nonce.as_slice());
            push_bytes(&mut encoded, ciphertext.as_slice());
            proof {
                assert(encoded@ =~= stored_form(
                    master_key@,
                    attachment_id@,
                    salt@,
                    nonce@,
                    bytes@,
                ));
                assert(encoded@.take(4) =~= header().take(4));
                assert(encoded@.subrange(5, 37) =~= salt@);
                assert(encoded@.subrange(37, 49) =~= nonce@);
                assert(encoded@.skip(49) =~= ciphertext@);
            }
            Ok(encoded)
        },
    }
}

/// Where the ciphertext of an attachment lies, and what the attachment is called.
#[derive(Debug)]
pub struct AttachmentRecord {
    pub cipher_path: String,
    pub display_name: String,
}

/// Where the ciphertext of an attachment lies, and what the attachment is called.
#[verifier::ext_equal]
pub ghost struct RecordView {
    pub cipher_path: Seq<char>,
    pub display_name: Seq<char>,
}

impl View for AttachmentRecord {
    type V = RecordView;

    open spec fn view(&self) -> RecordView {
        RecordView { cipher_path: self.cipher_path@, display_name: self.display_name@ }
    }
}

/// An attachment whose stored form has not been written yet.
#[derive(Debug)]
pub struct UnwrittenAttachment {
    pub attachment_id: String,
    pub display_name: String,
    pub encoded: Vec<u8>,
}

/// An attachment whose stored form has not been written yet.
#[verifier::ext_equal]
pub ghost struct UnwrittenView {
    pub attachment_id: Seq<char>,
    pub display_name: Seq<char>,
    pub encoded: Seq<u8>,
}

impl View for UnwrittenAttachment {
    type V = UnwrittenView;

    open spec fn view(&self) -> UnwrittenView {
        UnwrittenView {
            attachment_id: self.attachment_id@,
            display_name: self.display_name@,
            encoded: self.encoded@,
        }
    }
}

pub open spec fn unwritten_views(v: Seq<UnwrittenAttachment>) -> Seq<UnwrittenView> {
    v.map_values(|u: UnwrittenAttachment| u@)
}

/// The attachments of this process.
#[derive(Debug)]
pub struct AttachmentStore {
    pub root: String,
    pub local_storage_key: [u8; 32],
    pub records: IdMap<AttachmentRecord>,
    pub unwritten: Vec<UnwrittenAttachment>,
}

/// The attachments of this process.
#[verifier::ext_equal]
pub ghost struct StoreView {
    pub root: Seq<char>,
    pub key: Seq<u8>,
    pub records: Map<Seq<char>, RecordView>,
    pub unwritten: Seq<UnwrittenView>,
}

impl View for AttachmentStore {
    type V = StoreView;

    open spec fn view(&self) -> StoreView {
        StoreView {
            root: self.root@,
            key: self.local_storage_key@,
            records: view_map(self.records.map()),
            unwritten: unwritten_views(self.unwritten@),
        }
    }
}

/// The random parts of a stored attachment.
#[derive(Debug)]
pub struct StoreKeys {
    pub attachment_id: String,
    pub salt: [u8; 32],
    pub nonce: [u8; 12],
}

/// The random parts of a stored attachment.
#[verifier::ext_equal]
pub ghost struct KeysView {
    pub attachment_id: Seq<char>,
    pub salt: Seq<u8>,
    pub nonce: Seq<u8>,
}

impl View for StoreKeys {
    type V = KeysView;

    open spec fn view(&self) -> KeysView {
        KeysView { attachment_id: self.attachment_id@, salt: self.salt@, nonce: self.nonce@ }
    }
}

/// Whether random parts have the shape of fresh ones.
pub open spec fn fresh_keys_shape(keys: KeysView) -> bool {
    keys.attachment_id.len() == 32 && lower_hex(keys.attachment_id) && keys.salt.len() == 32
        && keys.nonce.len() == 12
}

/// Fresh random parts for an attachment.
pub fn fresh_store_keys() -> (keys: StoreKeys)
    ensures
        fresh_keys_shape(keys@),
{
    let attachment_id = fresh_id();
    let salt = random_bytes32();
    let nonce_bytes = random_bytes(NONCE_LEN);
    let nonce = match bytes12_from_slice(nonce_bytes.as_slice()) {
        Some(nonce) => nonce,
        None => {
            assert(false);
            [0u8;12]
        },
    };
    StoreKeys { attachment_id, salt, nonce }
}

/// The store with one more attachment, not written yet.
pub open spec fn with_attachment(
    store: StoreView,
    name: Seq<char>,
    bytes: Seq<u8>,
    keys: KeysView,
) -> StoreView {
    StoreView {
        unwritten: store.unwritten.push(
            UnwrittenView {
                attachment_id: keys.attachment_id,
                display_name: name,
                encoded: stored_form(
                    store.key,
                    keys.attachment_id,
                    keys.salt,
                    keys.nonce,
                    bytes,
                ),
            },
        ),
        ..store
    }
}

impl AttachmentStore {
    pub open spec fn wf(&self) -> bool {
        self.records.wf()
    }

    /// A store under a given key.
    pub fn with_key(root: String, local_storage_key: [u8; 32]) -> (store: Self)
        ensures
            store.wf(),
            store@ == (StoreView {
                root: root@,
                key: local_storage_key@,
                records: Map::empty(),
                unwritten: Seq::empty(),
            }),
    {
        let store = AttachmentStore {
            root,
            local_storage_key,
            records: IdMap::new(),
            unwritten: Vec::new(),
        };
        assert(store@.records =~= Map::<Seq<char>, RecordView>::empty());
        assert(store@.unwritten =~= Seq::<UnwrittenView>::empty());
        store
    }

    /// A store under a fresh key.
    pub fn new_in(root: String) -> (store: Self)
        ensures
            store.wf(),
            store@.root == root@,
            store@.records == Map::<Seq<char>, RecordView>::empty(),
            store@.unwritten == Seq::<UnwrittenView>::empty(),
    {
        let local_storage_key = random_bytes32();
        AttachmentStore::with_key(root, local_storage_key)
    }

    /// Takes an attachment in with given random parts: its stored form awaits writing.
    pub fn store_attachment_with(
        &mut self,
        display_name: &str,
        bytes: &[u8],
        keys: &StoreKeys,
    ) -> (out: Result<(), StoreError>)
        requires
            old(self).wf(),
        ensures
            final(self).wf(),
            match out {
                Ok(_) => {
                    &&& sealable(bytes@)
                    &&& final(self)@ == with_attachment(
                        old(self)@,
                        display_name@,
                        bytes@,
                        keys@,
                    )
                    &&& stored_bytes(
                        old(self)@.key,
                        keys.attachment_id@,
                        final(self)@.unwritten.last().encoded,
                    ) == Ok::<Seq<u8>, StoreError>(bytes@)
                },
                Err(e) => !sealable(bytes@) && e == StoreError::Encrypt && *final(self)
                    == *old(self),
            },
    {
        match encode_attachment(
            &self.local_storage_key,
            keys.attachment_id.as_str(),
            &keys.salt,
            &keys.nonce,
            bytes,
        ) {
            Ok(encoded) => {
                let item = UnwrittenAttachment {
                    attachment_id: keys.attachment_id.clone(),
                    display_name: display_name.to_owned(),
                    encoded,
                };
                let ghost before = self.unwritten@;
                let ghost view = item@;
                self.unwritten.push(item);
                assert(unwritten_views(self.unwritten@) =~= unwritten_views(before).push(view));
                Ok(())
            },
            Err(e) => Err(e),
        }
    }

    /// Takes an attachment in with fresh random parts: its identifier.
    pub fn store_attachment(&mut self, display_name: &str, bytes: &[u8]) -> (out: Result<
        String,
        StoreError,
    >)
        requires
            old(self).wf(),
        ensures
            final(self).wf(),
            match out {
                Ok(id) => {
                    &&& sealable(bytes@)
                    &&& exists|keys: KeysView|
                        fresh_keys_shape(keys) && keys.attachment_id == id@ && final(self)@
                            == #[trigger] with_attachment(
                            old(self)@,
                            display_name@,
                            bytes@,
                            keys,
                        )
                    &&& stored_bytes(
                        old(self)@.key,
                        id@,
                        final(self)@.unwritten.last().encoded,
                    ) == Ok::<Seq<u8>, StoreError>(bytes@)
                },
                Err(e) => !sealable(bytes@) && e == StoreError::Encrypt && *final(self)
                    == *old(self),
            },
    {
        let keys = fresh_store_keys();
        match self.store_attachment_with(display_name, bytes, &keys) {
            Ok(_) => {
                assert(self@ == with_attachment(old(self)@, display_name@, bytes@, keys@));
                Ok(keys.attachment_id)
            },
            Err(e) => Err(e),
        }
    }

    /// Hands out the oldest attachment that awaits writing.
    pub fn next_unwritten(&mut self) -> (item: Option<UnwrittenAttachment>)
        requires
            old(self).wf(),
        ensures
            final(self).wf(),
            match item {
                Some(u) => old(self)@.unwritten.len() > 0 && u@ == old(self)@.unwritten[0]
                    && final(self)@ == (StoreView {
                    unwritten: old(self)@.unwritten.drop_first(),
                    ..old(self)@
                }),
                None => old(self)@.unwritten.len() == 0 && *final(self) == *old(self),
            },
    {
        if self.unwritten.len() == 0 {
            return None;
        }
        let ghost before = self.unwritten@;
        let item = self.unwritten.remove(0);
        assert(unwritten_views(self.unwritten@) =~= unwritten_views(before).drop_first());
        Some(item)
    }

    /// Notes where an attachment was written.
    pub fn add_record(&mut self, attachment_id: String, cipher_path: String, display_name: String)
        requires
            old(self).wf(),
        ensures
            final(self).wf(),
            final(self)@ == (StoreView {
                records: old(self)@.records.insert(
                    attachment_id@,
                    RecordView { cipher_path: cipher_path@, display_name: display_name@ },
                ),
                ..old(self)@
            }),
    {
        let record = AttachmentRecord { cipher_path, display_name };
        let ghost key = attachment_id@;
        let ghost view = record@;
        let ghost before = self@.records;
        self.records.insert(attachment_id, record);
        assert(self@.records =~= before.insert(key, view));
    }

    /// Where an attachment lies.
    pub fn record_for(&self, attachment_id: &str) -> (out: Result<&AttachmentRecord, StoreError>)
        requires
            self.wf(),
        ensures
            match out {
                Ok(record) => self@.records.contains_key(attachment_id@) && record@
                    == self@.records[attachment_id@],
                Err(e) => !self@.records.contains_key(attachment_id@) && e == StoreError::NotFound,
            },
    {
        match self.records.get(attachment_id) {
            Some(record) => Ok(record),
            None => Err(StoreError::NotFound),
        }
    }

    /// Reads what was written of an attachment.
    pub fn decrypt_attachment(&self, attachment_id: &str, encoded: &[u8]) -> (out: Result<
        Vec<u8>,
        StoreError,
    >)
        requires
            self.wf(),
        ensures
            match (
                out,
                if self@.records.contains_key(attachment_id@) {
                    stored_bytes(self@.key, attachment_id@, encoded@)
                } else {
                    Err(StoreError::NotFound)
                },
            ) {
                (Ok(o), Ok(v)) => o@ == v,
                (Err(e), Err(v)) => e == v,
                _ => false,
            },
    {
        match self.record_for(attachment_id) {
            Ok(_) => AttachmentStore::decrypt_encoded_bytes(
                &self.local_storage_key,
                attachment_id,
                encoded,
            ),
            Err(e) => Err(e),
        }
    }

    /// Reads a stored form under a key.
    pub fn decrypt_encoded_bytes(
        master_key: &[u8; 32],
        attachment_id: &str,
        encoded: &[u8],
    ) -> (out: Result<Vec<u8>, StoreError>)
        ensures
            match (out, stored_bytes(master_key@, attachment_id@, encoded@)) {
                (Ok(o), Ok(v)) => o@ == v,
                (Err(e), Err(v)) => e == v,
                _ => false,
            },
    {
        if encoded.len() < 49 {
            return Err(StoreError::Truncated);
        }
        let magic = encoded[0] == 0x9d && encoded[1] == 0x41 && encoded[2] == 0x7a && encoded[3]
            == 0x26;
        proof {
            if magic {
                assert(encoded@.take(4) =~= header().take(4));
            } else {
                assert(encoded@.take(4)[0] == encoded@[0]);
                assert(encoded@.take(4)[1] == encoded@[1]);
                assert(encoded@.take(4)[2] == encoded@[2]);
                assert(encoded@.take(4)[3] == encoded@[3]);
                assert(header().take(4)[0] == 0x9d);
                assert(header().take(4)[1] == 0x41);
                assert(header().take(4)[2] == 0x7a);
                assert(header().take(4)[3] == 0x26);
            }
        }
        if !magic {
            return Err(StoreError::BadMagic);
        }
        if encoded[4] != 1 {
            return Err(StoreError::BadVersion);
        }
        let salt_part = vstd::slice::slice_subrange(encoded, 5, 37);
        let nonce_part = vstd::slice::slice_subrange(encoded, 37, 49);
        let ciphertext = vstd::slice::slice_subrange(encoded, 49, encoded.len());
        assert(ciphertext@ =~= encoded@.skip(49));
        let salt = match bytes32_from_slice(salt_part) {
            Ok(salt) => salt,
            Err(_) => {
                assert(false);
                [0u8;32]
            },
        };
        let nonce = match bytes12_from_slice(nonce_part) {
            Some(nonce) => nonce,
            None => {
                assert(false);
                [0u8;12]
            },
        };
        let key = derive_attachment_key_from_master(master_key, &salt, attachment_id);
        let empty: Vec<u8> = Vec::new();
        assert(empty@ =~= Seq::<u8>::empty());
        match chacha_open(&key, &nonce, empty.as_slice(), ciphertext) {
            Some(bytes) => Ok(bytes),
            None => Err(StoreError::Decrypt),
        }
    }
}

/// What a file is called on disk: random digits, and the extension of what it holds when it is
/// given.
pub open spec fn random_file_name(bytes: Seq<u8>, ext: Option<Seq<char>>) -> Seq<char> {
    match ext {
        Some(e) => if e.len() > 0 {
            hex_text(bytes) + "."@ + e
        } else {
            hex_text(bytes)
        },
        None => hex_text(bytes),
    }
}

pub fn file_name_from(bytes: &[u8], ext: Option<&str>) -> (name: String)
    ensures
        name@ == random_file_name(bytes@, opt_str(ext)),
{
    let digits = hex_encode(bytes);
    match ext {
        Some(e) => {
            if e.unicode_len() > 0 {
                let mut name = joined(digits.as_str(), ".");
                name.append(e);
                name
            } else {
                digits
            }
        },
        None => digits,
    }
}

/// A fresh name for a file: thirty-two digits, and the extension when it is given.
pub fn fresh_file_name(ext: Option<&str>) -> (name: String)
    ensures
        exists|bytes: Seq<u8>|
            bytes.len() == 16 && name@ == #[trigger] random_file_name(bytes, opt_str(ext)),
{
    let bytes = random_bytes(16);
    file_name_from(bytes.as_slice(), ext)
}

/// The extension of a file's name, unless it is blank.
pub open spec fn shown_extension(name: Option<Seq<char>>) -> Option<Seq<char>> {
    match extension_of(name) {
        Some(ext) => if trimmed(ext).len() > 0 {
            Some(ext)
        } else {
            None
        },
        None => None,
    }
}

/// The extension of a file's name, unless it is blank.
pub fn shown_extension_of(name: &Option<String>) -> (ext: Option<String>)
    ensures
        opt_text(ext) == shown_extension(opt_text(*name)),
{
    match extension(name) {
        Some(ext) => {
            let inner = trim(ext.as_str());
            if inner.as_str().unicode_len() > 0 {
                Some(ext)
            } else {
                None
            }
        },
        None => None,
    }
}

/// The extension of an attachment's name, unless it is blank.
pub fn extension_for(display_name: &str) -> (ext: Option<String>)
    ensures
        exists|base: Option<Seq<char>>|
            may_be_name(display_name@, base) && opt_text(ext) == #[trigger] shown_extension(base),
{
    let base = path_file_name(display_name);
    shown_extension_of(&base)
}

} // verus!
