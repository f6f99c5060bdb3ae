//! The structures that members of a group exchange, and their JSON form.
use crate::outside::json::{
    json_array, json_as_array, json_bytes, json_from_bytes, json_number, json_object, json_parsed,
    json_string, json_to_bytes, names_differ, value_tree, writable, JsonTree,
};
use crate::util::json::{
    bytes_of, bytes_tree, field_tree, json_bytes_field, json_bytes_value, json_field,
    json_number_up_to, json_text, json_variant, lemma_bytes_tree, lemma_member_at, number_of,
    opt_tree, text_of, variant_of,
};
use crate::util::text::same_text;
use vstd::prelude::*;

verus! {

/// What a group message carries.
#[derive(Debug, Clone, Copy, PartialEq, Eq, Structural)]
pub enum SecureMessageType {
    Text,
    FileManifest,
    FileChunk2,
    KeyAnnounce,
    EpochCommit,
}

impl SecureMessageType {
    /// The name of the variant.
    pub open spec fn name_text(self) -> Seq<char> {
        match self {
            SecureMessageType::Text => "Text"@,
            SecureMessageType::FileManifest => "FileManifest"@,
            SecureMessageType::FileChunk2 => "FileChunk2"@,
            SecureMessageType::KeyAnnounce => "KeyAnnounce"@,
            SecureMessageType::EpochCommit => "EpochCommit"@,
        }
    }

    pub fn name(self) -> (s: &'static str)
        ensures
            s@ == self.name_text(),
    {
        match self {
            SecureMessageType::Text => "Text",
            SecureMessageType::FileManifest => "FileManifest",
            SecureMessageType::FileChunk2 => "FileChunk2",
            SecureMessageType::KeyAnnounce => "KeyAnnounce",
            SecureMessageType::EpochCommit => "EpochCommit",
        }
    }

    /// The variant with a given name.
    pub open spec fn of_name(name: Seq<char>) -> Option<Self> {
        if name == "Text"@ {
            Some(SecureMessageType::Text)
        } else if name == "FileManifest"@ {
            Some(SecureMessageType::FileManifest)
        } else if name == "FileChunk2"@ {
            Some(SecureMessageType::FileChunk2)
        } else if name == "KeyAnnounce"@ {
            Some(SecureMessageType::KeyAnnounce)
        } else if name == "EpochCommit"@ {
            Some(SecureMessageType::EpochCommit)
        } else {
            None
        }
    }

    pub fn from_name(name: &str) -> (out: Option<Self>)
        ensures
            out == Self::of_name(name@),
    {
        if same_text(name, "Text") {
            Some(SecureMessageType::Text)
        } else if same_text(name, "FileManifest") {
            Some(SecureMessageType::FileManifest)
        } else if same_text(name, "FileChunk2") {
            Some(SecureMessageType::FileChunk2)
        } else if same_text(name, "KeyAnnounce") {
            Some(SecureMessageType::KeyAnnounce)
        } else if same_text(name, "EpochCommit") {
            Some(SecureMessageType::EpochCommit)
        } else {
            None
        }
    }

    /// A variant is found by its name.
    pub proof fn lemma_of_name(self)
        ensures
            Self::of_name(self.name_text()) == Some(self),
    {
        reveal_strlit("Text");
        assert("Text"@.len() == 4);
        reveal_strlit("FileManifest");
        assert("FileManifest"@.len() == 12);
        reveal_strlit("FileChunk2");
        assert("FileChunk2"@.len() == 10);
        reveal_strlit("KeyAnnounce");
        assert("KeyAnnounce"@.len() == 11);
        reveal_strlit("EpochCommit");
        assert("EpochCommit"@.len() == 11);
        assert("KeyAnnounce"@[0] != "EpochCommit"@[0]);
    }
}

/// Why the epoch changes.
#[derive(Debug, Clone, Copy, PartialEq, Eq, Structural)]
pub enum EpochEventType {
    Join,
    Leave,
    Kick,
    Rotate,
}

impl EpochEventType {
    /// The name of the variant.
    pub open spec fn name_text(self) -> Seq<char> {
        match self {
            EpochEventType::Join => "Join"@,
            EpochEventType::Leave => "Leave"@,
            EpochEventType::Kick => "Kick"@,
            EpochEventType::Rotate => "Rotate"@,
        }
    }

    pub fn name(self) -> (s: &'static str)
        ensures
            s@ == self.name_text(),
    {
        match self {
            EpochEventType::Join => "Join",
            EpochEventType::Leave => "Leave",
            EpochEventType::Kick => "Kick",
            EpochEventType::Rotate => "Rotate",
        }
    }

    /// The variant with a given name.
    pub open spec fn of_name(name: Seq<char>) -> Option<Self> {
        if name == "Join"@ {
            Some(EpochEventType::Join)
        } else if name == "Leave"@ {
            Some(EpochEventType::Leave)
        } else if name == "Kick"@ {
            Some(EpochEventType::Kick)
        } else if name == "Rotate"@ {
            Some(EpochEventType::Rotate)
        } else {
            None
        }
    }

    pub fn from_name(name: &str) -> (out: Option<Self>)
        ensures
            out == Self::of_name(name@),
    {
        if same_text(name, "Join") {
            Some(EpochEventType::Join)
        } else if same_text(name, "Leave") {
            Some(EpochEventType::Leave)
        } else if same_text(name, "Kick") {
            Some(EpochEventType::Kick)
        } else if same_text(name, "Rotate") {
            Some(EpochEventType::Rotate)
        } else {
            None
        }
    }

    /// A variant is found by its name.
    pub proof fn lemma_of_name(self)
        ensures
            Self::of_name(self.name_text()) == Some(self),
    {
        reveal_strlit("Join");
        assert("Join"@.len() == 4);
        reveal_strlit("Leave");
        assert("Leave"@.len() == 5);
        reveal_strlit("Kick");
        assert("Kick"@.len() == 4);
        reveal_strlit("Rotate");
        assert("Rotate"@.len() == 6);
        assert("Join"@[0] != "Kick"@[0]);
    }
}

/// The public part of a group message; its JSON text is the associated data of the encryption.
#[derive(Debug, PartialEq, Eq)]
pub struct SecureMessageHeader {
    pub version: u8,
    pub group_id: String,
    pub epoch: u64,
    pub sender_id: String,
    pub msg_no: u64,
    pub msg_type: SecureMessageType,
}

#[verifier::ext_equal]
pub struct HeaderView {
    pub version: u8,
    pub group_id: Seq<char>,
    pub epoch: u64,
    pub sender_id: Seq<char>,
    pub msg_no: u64,
    pub msg_type: SecureMessageType,
}

impl View for SecureMessageHeader {
    type V = HeaderView;

    open spec fn view(&self) -> HeaderView {
        HeaderView {
            version: self.version,
            group_id: self.group_id@,
            epoch: self.epoch,
            sender_id: self.sender_id@,
            msg_no: self.msg_no,
            msg_type: self.msg_type,
        }
    }
}

impl Clone for SecureMessageHeader {
    fn clone(&self) -> (copy: Self)
        ensures
            copy@ == self@,
    {
        let copy = SecureMessageHeader {
            version: self.version,
            group_id: self.group_id.clone(),
            epoch: self.epoch,
            sender_id: self.sender_id.clone(),
            msg_no: self.msg_no,
            msg_type: self.msg_type,
        };
        copy
    }
}

/// A group message as it travels.
#[derive(Debug, PartialEq, Eq)]
pub struct EncryptedMessage {
    pub header: SecureMessageHeader,
    pub ciphertext: Vec<u8>,
}

#[verifier::ext_equal]
pub struct MessageView {
    pub header: HeaderView,
    pub ciphertext: Seq<u8>,
}

impl View for EncryptedMessage {
    type V = MessageView;

    open spec fn view(&self) -> MessageView {
        MessageView {
            header: self.header@,
            ciphertext: self.ciphertext@,
        }
    }
}

impl Clone for EncryptedMessage {
    fn clone(&self) -> (copy: Self)
        ensures
            copy@ == self@,
    {
        let copy = EncryptedMessage {
            header: self.header.clone(),
            ciphertext: self.ciphertext.clone(),
        };
        assert(copy.ciphertext@ =~= self.ciphertext@);
        copy
    }
}

/// A member's public key for the next epoch change, authenticated with the room key.
#[derive(Debug, PartialEq, Eq)]
pub struct MemberKeyAnnounce {
    pub group_id: String,
    pub epoch: u64,
    pub member_id: String,
    pub x25519_public: Vec<u8>,
    pub nonce: Vec<u8>,
    pub mac: Vec<u8>,
}

#[verifier::ext_equal]
pub struct AnnounceView {
    pub group_id: Seq<char>,
    pub epoch: u64,
    pub member_id: Seq<char>,
    pub x25519_public: Seq<u8>,
    pub nonce: Seq<u8>,
    pub mac: Seq<u8>,
}

impl View for MemberKeyAnnounce {
    type V = AnnounceView;

    open spec fn view(&self) -> AnnounceView {
        AnnounceView {
            group_id: self.group_id@,
            epoch: self.epoch,
            member_id: self.member_id@,
            x25519_public: self.x25519_public@,
            nonce: self.nonce@,
            mac: self.mac@,
        }
    }
}

impl Clone for MemberKeyAnnounce {
    fn clone(&self) -> (copy: Self)
        ensures
            copy@ == self@,
    {
        let copy = MemberKeyAnnounce {
            group_id: self.group_id.clone(),
            epoch: self.epoch,
            member_id: self.member_id.clone(),
            x25519_public: self.x25519_public.clone(),
            nonce: self.nonce.clone(),
            mac: self.mac.clone(),
        };
        assert(copy.x25519_public@ =~= self.x25519_public@);
        assert(copy.nonce@ =~= self.nonce@);
        assert(copy.mac@ =~= self.mac@);
        copy
    }
}

/// An epoch secret encrypted to one member.
#[derive(Debug, PartialEq, Eq)]
pub struct WrappedEpochSecret {
    pub recipient_id: String,
    pub proposer_x25519_pub: Vec<u8>,
    pub nonce: Vec<u8>,
    pub ciphertext: Vec<u8>,
}

#[verifier::ext_equal]
pub struct WrappedView {
    pub recipient_id: Seq<char>,
    pub proposer_x25519_pub: Seq<u8>,
    pub nonce: Seq<u8>,
    pub ciphertext: Seq<u8>,
}

impl View for WrappedEpochSecret {
    type V = WrappedView;

    open spec fn view(&self) -> WrappedView {
        WrappedView {
            recipient_id: self.recipient_id@,
            proposer_x25519_pub: self.proposer_x25519_pub@,
            nonce: self.nonce@,
            ciphertext: self.ciphertext@,
        }
    }
}

impl Clone for WrappedEpochSecret {
    fn clone(&self) -> (copy: Self)
        ensures
            copy@ == self@,
    {
        let copy = WrappedEpochSecret {
            recipient_id: self.recipient_id.clone(),
            proposer_x25519_pub: self.proposer_x25519_pub.clone(),
            nonce: self.nonce.clone(),
            ciphertext: self.ciphertext.clone(),
        };
        assert(copy.proposer_x25519_pub@ =~= self.proposer_x25519_pub@);
        assert(copy.nonce@ =~= self.nonce@);
        assert(copy.ciphertext@ =~= self.ciphertext@);
        copy
    }
}

/// A proposed change of epoch.
#[derive(Debug, PartialEq, Eq)]
pub struct EpochCommit {
    pub group_id: String,
    pub old_epoch: u64,
    pub new_epoch: u64,
    pub event_type: EpochEventType,
    pub affected_member_id: String,
    pub old_roster_hash: String,
    pub new_roster_hash: String,
    pub proposer_id: String,
    pub proposer_attempt: u32,
    pub wrapped_secrets: Vec<WrappedEpochSecret>,
}

#[verifier::ext_equal]
pub struct CommitView {
    pub group_id: Seq<char>,
    pub old_epoch: u64,
    pub new_epoch: u64,
    pub event_type: EpochEventType,
    pub affected_member_id: Seq<char>,
    pub old_roster_hash: Seq<char>,
    pub new_roster_hash: Seq<char>,
    pub proposer_id: Seq<char>,
    pub proposer_attempt: u32,
    pub wrapped_secrets: Seq<WrappedView>,
}

impl View for EpochCommit {
    type V = CommitView;

    open spec fn view(&self) -> CommitView {
        CommitView {
            group_id: self.group_id@,
            old_epoch: self.old_epoch,
            new_epoch: self.new_epoch,
            event_type: self.event_type,
            affected_member_id: self.affected_member_id@,
            old_roster_hash: self.old_roster_hash@,
            new_roster_hash: self.new_roster_hash@,
            proposer_id: self.proposer_id@,
            proposer_attempt: self.proposer_attempt,
            wrapped_secrets: self.wrapped_secrets@.map_values(|w: WrappedEpochSecret| w@),
        }
    }
}

impl Clone for EpochCommit {
    fn clone(&self) -> (copy: Self)
        ensures
            copy@ == self@,
    {
        let copy = EpochCommit {
            group_id: self.group_id.clone(),
            old_epoch: self.old_epoch,
            new_epoch: self.new_epoch,
            event_type: self.event_type,
            affected_member_id: self.affected_member_id.clone(),
            old_roster_hash: self.old_roster_hash.clone(),
            new_roster_hash: self.new_roster_hash.clone(),
            proposer_id: self.proposer_id.clone(),
            proposer_attempt: self.proposer_attempt,
            wrapped_secrets: self.wrapped_secrets.clone(),
        };
        assert(copy@.wrapped_secrets =~= self@.wrapped_secrets);
        copy
    }
}

/// What a wrapped epoch secret holds.
#[derive(Debug, PartialEq, Eq)]
pub struct EpochSecretPlain {
    pub group_id: String,
    pub old_epoch: u64,
    pub new_epoch: u64,
    pub event_type: EpochEventType,
    pub recipient_id: String,
    pub group_secret: Vec<u8>,
    pub new_roster_hash: String,
}

#[verifier::ext_equal]
pub struct PlainView {
    pub group_id: Seq<char>,
    pub old_epoch: u64,
    pub new_epoch: u64,
    pub event_type: EpochEventType,
    pub recipient_id: Seq<char>,
    pub group_secret: Seq<u8>,
    pub new_roster_hash: Seq<char>,
}

impl View for EpochSecretPlain {
    type V = PlainView;

    open spec fn view(&self) -> PlainView {
        PlainView {
            group_id: self.group_id@,
            old_epoch: self.old_epoch,
            new_epoch: self.new_epoch,
            event_type: self.event_type,
            recipient_id: self.recipient_id@,
            group_secret: self.group_secret@,
            new_roster_hash: self.new_roster_hash@,
        }
    }
}

impl Clone for EpochSecretPlain {
    fn clone(&self) -> (copy: Self)
        ensures
            copy@ == self@,
    {
        let copy = EpochSecretPlain {
            group_id: self.group_id.clone(),
            old_epoch: self.old_epoch,
            new_epoch: self.new_epoch,
            event_type: self.event_type,
            recipient_id: self.recipient_id.clone(),
            group_secret: self.group_secret.clone(),
            new_roster_hash: self.new_roster_hash.clone(),
        };
        assert(copy.group_secret@ =~= self.group_secret@);
        copy
    }
}

pub open spec fn header_members(v: HeaderView) -> Seq<(Seq<char>, JsonTree)> {
    seq![
        ("version"@, JsonTree::Num(v.version as u64)),
        ("group_id"@, JsonTree::Str(v.group_id)),
        ("epoch"@, JsonTree::Num(v.epoch)),
        ("sender_id"@, JsonTree::Str(v.sender_id)),
        ("msg_no"@, JsonTree::Num(v.msg_no)),
        ("msg_type"@, JsonTree::Str(v.msg_type.name_text())),
    ]
}

/// The JSON form of a `SecureMessageHeader`.
pub open spec fn header_tree(v: HeaderView) -> JsonTree {
    JsonTree::Obj(header_members(v))
}

/// The `SecureMessageHeader` that a JSON value stands for.
pub open spec fn header_of_tree(t: JsonTree) -> Option<HeaderView> {
    let version = number_of(field_tree(t, "version"@, 0, 6), 255);
    let group_id = text_of(field_tree(t, "group_id"@, 1, 6));
    let epoch = number_of(field_tree(t, "epoch"@, 2, 6), u64::MAX);
    let sender_id = text_of(field_tree(t, "sender_id"@, 3, 6));
    let msg_no = number_of(field_tree(t, "msg_no"@, 4, 6), u64::MAX);
    let msg_type = match variant_of(field_tree(t, "msg_type"@, 5, 6)) {
        Some(s) => SecureMessageType::of_name(s),
        None => None,
    };
    if version is Some && group_id is Some && epoch is Some && sender_id is Some && msg_no is Some
        && msg_type is Some {
        Some(HeaderView {
            version: version->0 as u8,
            group_id: group_id->0,
            epoch: epoch->0,
            sender_id: sender_id->0,
            msg_no: msg_no->0,
            msg_type: msg_type->0,
        })
    } else {
        None
    }
}

pub proof fn lemma_header_names(v: HeaderView)
    ensures
        names_differ(header_members(v)),
{
    reveal_strlit("version");
    assert("version"@.len() == 7);
    reveal_strlit("group_id");
    assert("group_id"@.len() == 8);
    reveal_strlit("epoch");
    assert("epoch"@.len() == 5);
    reveal_strlit("sender_id");
    assert("sender_id"@.len() == 9);
    reveal_strlit("msg_no");
    assert("msg_no"@.len() == 6);
    reveal_strlit("msg_type");
    assert("msg_type"@.len() == 8);
    assert("group_id"@[0] != "msg_type"@[0]);
    let m = header_members(v);
    assert forall|i: int, j: int|
        0 <= i < m.len() && 0 <= j < m.len() && (#[trigger] m[i]).0 == (#[trigger] m[j]).0 implies i
        == j by {
        assert(m[0].0 == "version"@);
        assert(m[1].0 == "group_id"@);
        assert(m[2].0 == "epoch"@);
        assert(m[3].0 == "sender_id"@);
        assert(m[4].0 == "msg_no"@);
        assert(m[5].0 == "msg_type"@);
    }
}

/// The JSON form determines the structure.
pub proof fn lemma_header_tree(v: HeaderView)
    ensures
        header_of_tree(header_tree(v)) == Some(v),
        writable(header_tree(v), 1),
{
    reveal_with_fuel(writable, 2);
    lemma_header_names(v);
    let m = header_members(v);
    lemma_member_at(m, 0);
    lemma_member_at(m, 1);
    lemma_member_at(m, 2);
    lemma_member_at(m, 3);
    lemma_member_at(m, 4);
    lemma_member_at(m, 5);
    v.msg_type.lemma_of_name();
}

pub(crate) fn header_to_json(v: &SecureMessageHeader) -> (value: serde_json::Value)
    ensures
        value_tree(value) == header_tree(v@),
{
    let mut m: Vec<(String, serde_json::Value)> = Vec::new();
    m.push(("version".to_owned(), json_number(v.version as u64)));
    m.push(("group_id".to_owned(), json_string(v.group_id.as_str())));
    m.push(("epoch".to_owned(), json_number(v.epoch)));
    m.push(("sender_id".to_owned(), json_string(v.sender_id.as_str())));
    m.push(("msg_no".to_owned(), json_number(v.msg_no)));
    m.push(("msg_type".to_owned(), json_string(v.msg_type.name())));
    proof {
        lemma_header_names(v@);
        assert(m@.map_values(|e: (String, serde_json::Value)| (e.0@, value_tree(e.1)))
            =~= header_members(v@));
    }
    json_object(m)
}

pub(crate) fn header_from_json(value: &serde_json::Value) -> (out: Option<SecureMessageHeader>)
    ensures
        match (out, header_of_tree(value_tree(*value))) {
            (Some(v), Some(t)) => v@ == t,
            (None, None) => true,
            _ => false,
        },
{
    let version: u8 = match json_number_up_to(json_field(value, "version", 0, 6), 255) {
        Some(x) => x as u8,
        None => {
            return None;
        },
    };
    let group_id = match json_text(json_field(value, "group_id", 1, 6)) {
        Some(x) => x,
        None => {
            return None;
        },
    };
    let epoch: u64 = match json_number_up_to(json_field(value, "epoch", 2, 6), u64::MAX) {
        Some(x) => x,
        None => {
            return None;
        },
    };
    let sender_id = match json_text(json_field(value, "sender_id", 3, 6)) {
        Some(x) => x,
        None => {
            return None;
        },
    };
    let msg_no: u64 = match json_number_up_to(json_field(value, "msg_no", 4, 6), u64::MAX) {
        Some(x) => x,
        None => {
            return None;
        },
    };
    let msg_type = match json_variant(json_field(value, "msg_type", 5, 6)) {
        Some(s) => match SecureMessageType::from_name(s.as_str()) {
            Some(x) => x,
            None => {
                return None;
            },
        },
        None => {
            return None;
        },
    };
    Some(SecureMessageHeader { version, group_id, epoch, sender_id, msg_no, msg_type })
}

/// The JSON text of a `SecureMessageHeader`. Reading it gives the structure back.
pub fn header_to_bytes(v: &SecureMessageHeader) -> (bytes: Vec<u8>)
    ensures
        bytes@ == json_bytes(header_tree(v@)),
        header_read(bytes@) == Some(v@),
{
    let value = header_to_json(v);
    proof {
        lemma_header_tree(v@);
        lemma_writable_more(header_tree(v@), 1, 16);
    }
    json_to_bytes(&value)
}

/// The `SecureMessageHeader` that a JSON text denotes.
pub open spec fn header_read(bytes: Seq<u8>) -> Option<HeaderView> {
    match json_parsed(bytes) {
        Some(t) => header_of_tree(t),
        None => None,
    }
}

pub open spec fn message_members(v: MessageView) -> Seq<(Seq<char>, JsonTree)> {
    seq![
        ("header"@, header_tree(v.header)),
        ("ciphertext"@, bytes_tree(v.ciphertext)),
    ]
}

/// The JSON form of an `EncryptedMessage`.
pub open spec fn message_tree(v: MessageView) -> JsonTree {
    JsonTree::Obj(message_members(v))
}

/// The `EncryptedMessage` that a JSON value stands for.
pub open spec fn message_of_tree(t: JsonTree) -> Option<MessageView> {
    let header = match field_tree(t, "header"@, 0, 2) {
        Some(h) => header_of_tree(h),
        None => None,
    };
    let ciphertext = bytes_of(field_tree(t, "ciphertext"@, 1, 2));
    if header is Some && ciphertext is Some {
        Some(MessageView {
            header: header->0,
            ciphertext: ciphertext->0,
        })
    } else {
        None
    }
}

pub proof fn lemma_message_names(v: MessageView)
    ensures
        names_differ(message_members(v)),
{
    reveal_strlit("header");
    assert("header"@.len() == 6);
    reveal_strlit("ciphertext");
    assert("ciphertext"@.len() == 10);
    let m = message_members(v);
    assert forall|i: int, j: int|
        0 <= i < m.len() && 0 <= j < m.len() && (#[trigger] m[i]).0 == (#[trigger] m[j]).0 implies i
        == j by {
        assert(m[0].0 == "header"@);
        assert(m[1].0 == "ciphertext"@);
    }
}

/// The JSON form determines the structure.
pub proof fn lemma_message_tree(v: MessageView)
    ensures
        message_of_tree(message_tree(v)) == Some(v),
        writable(message_tree(v), 2),
{
    reveal_with_fuel(writable, 3);
    lemma_message_names(v);
    let m = message_members(v);
    lemma_member_at(m, 0);
    lemma_member_at(m, 1);
    lemma_header_tree(v.header);
    lemma_bytes_tree(v.ciphertext);
}

pub(crate) fn message_to_json(v: &EncryptedMessage) -> (value: serde_json::Value)
    ensures
        value_tree(value) == message_tree(v@),
{
    let mut m: Vec<(String, serde_json::Value)> = Vec::new();
    m.push(("header".to_owned(), header_to_json(&v.header)));
    m.push(("ciphertext".to_owned(), json_bytes_value(v.ciphertext.as_slice())));
    proof {
        lemma_message_names(v@);
        assert(m@.map_values(|e: (String, serde_json::Value)| (e.0@, value_tree(e.1)))
            =~= message_members(v@));
    }
    json_object(m)
}

pub(crate) fn message_from_json(value: &serde_json::Value) -> (out: Option<EncryptedMessage>)
    ensures
        match (out, message_of_tree(value_tree(*value))) {
            (Some(v), Some(t)) => v@ == t,
            (None, None) => true,
            _ => false,
        },
{
    let header = match json_field(value, "header", 0, 2) {
        Some(h) => match header_from_json(h) {
            Some(x) => x,
            None => {
                return None;
            },
        },
        None => {
            return None;
        },
    };
    let ciphertext = match json_bytes_field(json_field(value, "ciphertext", 1, 2)) {
        Some(x) => x,
        None => {
            return None;
        },
    };
    Some(EncryptedMessage { header, ciphertext })
}

/// The JSON text of an `EncryptedMessage`. Reading it gives the structure back.
pub fn message_to_bytes(v: &EncryptedMessage) -> (bytes: Vec<u8>)
    ensures
        bytes@ == json_bytes(message_tree(v@)),
        message_read(bytes@) == Some(v@),
{
    let value = message_to_json(v);
    proof {
        lemma_message_tree(v@);
        lemma_writable_more(message_tree(v@), 2, 16);
    }
    json_to_bytes(&value)
}

/// The `EncryptedMessage` that a JSON text denotes.
pub open spec fn message_read(bytes: Seq<u8>) -> Option<MessageView> {
    match json_parsed(bytes) {
        Some(t) => message_of_tree(t),
        None => None,
    }
}

/// Reads an `EncryptedMessage` from its JSON text.
pub fn message_from_bytes(bytes: &[u8]) -> (out: Option<EncryptedMessage>)
    ensures
        match (out, message_read(bytes@)) {
            (Some(v), Some(t)) => v@ == t,
            (None, None) => true,
            _ => false,
        },
{
    match json_from_bytes(bytes) {
        Some(value) => message_from_json(&value),
        None => None,
    }
}

pub open spec fn announce_members(v: AnnounceView) -> Seq<(Seq<char>, JsonTree)> {
    seq![
        ("group_id"@, JsonTree::Str(v.group_id)),
        ("epoch"@, JsonTree::Num(v.epoch)),
        ("member_id"@, JsonTree::Str(v.member_id)),
        ("x25519_public"@, bytes_tree(v.x25519_public)),
        ("nonce"@, bytes_tree(v.nonce)),
        ("mac"@, bytes_tree(v.mac)),
    ]
}

/// The JSON form of a `MemberKeyAnnounce`.
pub open spec fn announce_tree(v: AnnounceView) -> JsonTree {
    JsonTree::Obj(announce_members(v))
}

/// The `MemberKeyAnnounce` that a JSON value stands for.
pub open spec fn announce_of_tree(t: JsonTree) -> Option<AnnounceView> {
    let group_id = text_of(field_tree(t, "group_id"@, 0, 6));
    let epoch = number_of(field_tree(t, "epoch"@, 1, 6), u64::MAX);
    let member_id = text_of(field_tree(t, "member_id"@, 2, 6));
    let x25519_public = bytes_of(field_tree(t, "x25519_public"@, 3, 6));
    let nonce = bytes_of(field_tree(t, "nonce"@, 4, 6));
    let mac = bytes_of(field_tree(t, "mac"@, 5, 6));
    if group_id is Some && epoch is Some && member_id is Some && x25519_public is Some
        && nonce is Some && mac is Some {
        Some(AnnounceView {
            group_id: group_id->0,
            epoch: epoch->0,
            member_id: member_id->0,
            x25519_public: x25519_public->0,
            nonce: nonce->0,
            mac: mac->0,
        })
    } else {
        None
    }
}

pub proof fn lemma_announce_names(v: AnnounceView)
    ensures
        names_differ(announce_members(v)),
{
    reveal_strlit("group_id");
    assert("group_id"@.len() == 8);
    reveal_strlit("epoch");
    assert("epoch"@.len() == 5);
    reveal_strlit("member_id");
    assert("member_id"@.len() == 9);
    reveal_strlit("x25519_public");
    assert("x25519_public"@.len() == 13);
    reveal_strlit("nonce");
    assert("nonce"@.len() == 5);
    reveal_strlit("mac");
    assert("mac"@.len() == 3);
    assert("epoch"@[0] != "nonce"@[0]);
    let m = announce_members(v);
    assert forall|i: int, j: int|
        0 <= i < m.len() && 0 <= j < m.len() && (#[trigger] m[i]).0 == (#[trigger] m[j]).0 implies i
        == j by {
        assert(m[0].0 == "group_id"@);
        assert(m[1].0 == "epoch"@);
        assert(m[2].0 == "member_id"@);
        assert(m[3].0 == "x25519_public"@);
        assert(m[4].0 == "nonce"@);
        assert(m[5].0 == "mac"@);
    }
}

/// The JSON form determines the structure.
pub proof fn lemma_announce_tree(v: AnnounceView)
    ensures
        announce_of_tree(announce_tree(v)) == Some(v),
        writable(announce_tree(v), 2),
{
    reveal_with_fuel(writable, 3);
    lemma_announce_names(v);
    let m = announce_members(v);
    lemma_member_at(m, 0);
    lemma_member_at(m, 1);
    lemma_member_at(m, 2);
    lemma_member_at(m, 3);
    lemma_member_at(m, 4);
    lemma_member_at(m, 5);
    lemma_bytes_tree(v.x25519_public);
    lemma_bytes_tree(v.nonce);
    lemma_bytes_tree(v.mac);
}

pub(crate) fn announce_to_json(v: &MemberKeyAnnounce) -> (value: serde_json::Value)
    ensures
        value_tree(value) == announce_tree(v@),
{
    let mut m: Vec<(String, serde_json::Value)> = Vec::new();
    m.push(("group_id".to_owned(), json_string(v.group_id.as_str())));
    m.push(("epoch".to_owned(), json_number(v.epoch)));
    m.push(("member_id".to_owned(), json_string(v.member_id.as_str())));
    m.push(("x25519_public".to_owned(), json_bytes_value(v.x25519_public.as_slice())));
    m.push(("nonce".to_owned(), json_bytes_value(v.nonce.as_slice())));
    m.push(("mac".to_owned(), json_bytes_value(v.mac.as_slice())));
    proof {
        lemma_announce_names(v@);
        assert(m@.map_values(|e: (String, serde_json::Value)| (e.0@, value_tree(e.1)))
            =~= announce_members(v@));
    }
    json_object(m)
}

pub(crate) fn announce_from_json(value: &serde_json::Value) -> (out: Option<MemberKeyAnnounce>)
    ensures
        match (out, announce_of_tree(value_tree(*value))) {
            (Some(v), Some(t)) => v@ == t,
            (None, None) => true,
            _ => false,
        },
{
    let group_id = match json_text(json_field(value, "group_id", 0, 6)) {
        Some(x) => x,
        None => {
            return None;
        },
    };
    let epoch: u64 = match json_number_up_to(json_field(value, "epoch", 1, 6), u64::MAX) {
        Some(x) => x,
        None => {
            return None;
        },
    };
    let member_id = match json_text(json_field(value, "member_id", 2, 6)) {
        Some(x) => x,
        None => {
            return None;
        },
    };
    let x25519_public = match json_bytes_field(json_field(value, "x25519_public", 3, 6)) {
        Some(x) => x,
        None => {
            return None;
        },
    };
    let nonce = match json_bytes_field(json_field(value, "nonce", 4, 6)) {
        Some(x) => x,
        None => {
            return None;
        },
    };
    let mac = match json_bytes_field(json_field(value, "mac", 5, 6)) {
        Some(x) => x,
        None => {
            return None;
        },
    };
    Some(MemberKeyAnnounce { group_id, epoch, member_id, x25519_public, nonce, mac })
}

/// The JSON text of a `MemberKeyAnnounce`. Reading it gives the structure back.
pub fn announce_to_bytes(v: &MemberKeyAnnounce) -> (bytes: Vec<u8>)
    ensures
        bytes@ == json_bytes(announce_tree(v@)),
        announce_read(bytes@) == Some(v@),
{
    let value = announce_to_json(v);
    proof {
        lemma_announce_tree(v@);
        lemma_writable_more(announce_tree(v@), 2, 16);
    }
    json_to_bytes(&value)
}

/// The `MemberKeyAnnounce` that a JSON text denotes.
pub open spec fn announce_read(bytes: Seq<u8>) -> Option<AnnounceView> {
    match json_parsed(bytes) {
        Some(t) => announce_of_tree(t),
        None => None,
    }
}

/// Reads a `MemberKeyAnnounce` from its JSON text.
pub fn announce_from_bytes(bytes: &[u8]) -> (out: Option<MemberKeyAnnounce>)
    ensures
        match (out, announce_read(bytes@)) {
            (Some(v), Some(t)) => v@ == t,
            (None, None) => true,
            _ => false,
        },
{
    match json_from_bytes(bytes) {
        Some(value) => announce_from_json(&value),
        None => None,
    }
}

pub open spec fn wrapped_members(v: WrappedView) -> Seq<(Seq<char>, JsonTree)> {
    seq![
        ("recipient_id"@, JsonTree::Str(v.recipient_id)),
        ("proposer_x25519_pub"@, bytes_tree(v.proposer_x25519_pub)),
        ("nonce"@, bytes_tree(v.nonce)),
        ("ciphertext"@, bytes_tree(v.ciphertext)),
    ]
}

/// The JSON form of a `WrappedEpochSecret`.
pub open spec fn wrapped_tree(v: WrappedView) -> JsonTree {
    JsonTree::Obj(wrapped_members(v))
}

/// The `WrappedEpochSecret` that a JSON value stands for.
pub open spec fn wrapped_of_tree(t: JsonTree) -> Option<WrappedView> {
    let recipient_id = text_of(field_tree(t, "recipient_id"@, 0, 4));
    let proposer_x25519_pub = bytes_of(field_tree(t, "proposer_x25519_pub"@, 1, 4));
    let nonce = bytes_of(field_tree(t, "nonce"@, 2, 4));
    let ciphertext = bytes_of(field_tree(t, "ciphertext"@, 3, 4));
    if recipient_id is Some && proposer_x25519_pub is Some && nonce is Some && ciphertext is Some {
        Some(WrappedView {
            recipient_id: recipient_id->0,
            proposer_x25519_pub: proposer_x25519_pub->0,
            nonce: nonce->0,
            ciphertext: ciphertext->0,
        })
    } else {
        None
    }
}

/// The wrapped secrets that a JSON array stands for.
pub open spec fn wrappeds_of(tree: Option<JsonTree>) -> Option<Seq<WrappedView>> {
    match tree {
        Some(JsonTree::Arr(items)) => if forall|i: int|
            0 <= i < items.len() ==> wrapped_of_tree(#[trigger] items[i]) is Some {
            Some(items.map_values(|t: JsonTree| wrapped_of_tree(t)->0))
        } else {
            None
        },
        _ => None,
    }
}

pub proof fn lemma_wrapped_names(v: WrappedView)
    ensures
        names_differ(wrapped_members(v)),
{
    reveal_strlit("recipient_id");
    assert("recipient_id"@.len() == 12);
    reveal_strlit("proposer_x25519_pub");
    assert("proposer_x25519_pub"@.len() == 19);
    reveal_strlit("nonce");
    assert("nonce"@.len() == 5);
    reveal_strlit("ciphertext");
    assert("ciphertext"@.len() == 10);
    let m = wrapped_members(v);
    assert forall|i: int, j: int|
        0 <= i < m.len() && 0 <= j < m.len() && (#[trigger] m[i]).0 == (#[trigger] m[j]).0 implies i
        == j by {
        assert(m[0].0 == "recipient_id"@);
        assert(m[1].0 == "proposer_x25519_pub"@);
        assert(m[2].0 == "nonce"@);
        assert(m[3].0 == "ciphertext"@);
    }
}

/// The JSON form determines the structure.
pub proof fn lemma_wrapped_tree(v: WrappedView)
    ensures
        wrapped_of_tree(wrapped_tree(v)) == Some(v),
        writable(wrapped_tree(v), 2),
{
    reveal_with_fuel(writable, 3);
    lemma_wrapped_names(v);
    let m = wrapped_members(v);
    lemma_member_at(m, 0);
    lemma_member_at(m, 1);
    lemma_member_at(m, 2);
    lemma_member_at(m, 3);
    lemma_bytes_tree(v.proposer_x25519_pub);
    lemma_bytes_tree(v.nonce);
    lemma_bytes_tree(v.ciphertext);
}

proof fn lemma_writable_more_all(items: Seq<JsonTree>)
    requires
        forall|i: int| 0 <= i < items.len() ==> writable(#[trigger] items[i], 2),
    ensures
        writable(JsonTree::Arr(items), 3),
{
}

pub(crate) fn wrapped_to_json(v: &WrappedEpochSecret) -> (value: serde_json::Value)
    ensures
        value_tree(value) == wrapped_tree(v@),
{
    let mut m: Vec<(String, serde_json::Value)> = Vec::new();
    m.push(("recipient_id".to_owned(), json_string(v.recipient_id.as_str())));
    m.push(("proposer_x25519_pub".to_owned(), json_bytes_value(v.proposer_x25519_pub.as_slice())));
    m.push(("nonce".to_owned(), json_bytes_value(v.nonce.as_slice())));
    m.push(("ciphertext".to_owned(), json_bytes_value(v.ciphertext.as_slice())));
    proof {
        lemma_wrapped_names(v@);
        assert(m@.map_values(|e: (String, serde_json::Value)| (e.0@, value_tree(e.1)))
            =~= wrapped_members(v@));
    }
    json_object(m)
}

pub(crate) fn wrapped_from_json(value: &serde_json::Value) -> (out: Option<WrappedEpochSecret>)
    ensures
        match (out, wrapped_of_tree(value_tree(*value))) {
            (Some(v), Some(t)) => v@ == t,
            (None, None) => true,
            _ => false,
        },
{
    let recipient_id = match json_text(json_field(value, "recipient_id", 0, 4)) {
        Some(x) => x,
        None => {
            return None;
        },
    };
    let proposer_x25519_pub = match json_bytes_field(
        json_field(value, "proposer_x25519_pub", 1, 4),
    ) {
        Some(x) => x,
        None => {
            return None;
        },
    };
    let nonce = match json_bytes_field(json_field(value, "nonce", 2, 4)) {
        Some(x) => x,
        None => {
            return None;
        },
    };
    let ciphertext = match json_bytes_field(json_field(value, "ciphertext", 3, 4)) {
        Some(x) => x,
        None => {
            return None;
        },
    };
    Some(WrappedEpochSecret { recipient_id, proposer_x25519_pub, nonce, ciphertext })
}

pub(crate) fn wrappeds_from_json(value: Option<&serde_json::Value>) -> (out: Option<
    Vec<WrappedEpochSecret>,
>)
    ensures
        match (out, wrappeds_of(opt_tree(value))) {
            (Some(v), Some(t)) => v@.map_values(|w: WrappedEpochSecret| w@) == t,
            (None, None) => true,
            _ => false,
        },
{
    let items = match value {
        Some(v) => match json_as_array(v) {
            Some(items) => items,
            None => {
                return None;
            },
        },
        None => {
            return None;
        },
    };
    let ghost trees = items@.map_values(|x: serde_json::Value| value_tree(x));
    let mut out: Vec<WrappedEpochSecret> = Vec::new();
    let mut i: usize = 0;
    while i < items.len()
        invariant
            i <= items@.len(),
            trees == items@.map_values(|x: serde_json::Value| value_tree(x)),
            opt_tree(value) == Some(JsonTree::Arr(trees)),
            out@.len() == i,
            forall|k: int|
                0 <= k < i ==> wrapped_of_tree(#[trigger] trees[k]) == Some(out@[k]@),
        decreases items.len() - i,
    {
        assert(trees[i as int] == value_tree(items@[i as int]));
        match wrapped_from_json(&items[i]) {
            Some(w) => {
                out.push(w);
            },
            None => {
                return None;
            },
        }
        i += 1;
    }
    assert(out@.map_values(|w: WrappedEpochSecret| w@) =~= trees.map_values(
        |t: JsonTree| wrapped_of_tree(t)->0,
    ));
    Some(out)
}

pub open spec fn commit_members(v: CommitView) -> Seq<(Seq<char>, JsonTree)> {
    seq![
        ("group_id"@, JsonTree::Str(v.group_id)),
        ("old_epoch"@, JsonTree::Num(v.old_epoch)),
        ("new_epoch"@, JsonTree::Num(v.new_epoch)),
        ("event_type"@, JsonTree::Str(v.event_type.name_text())),
        ("affected_member_id"@, JsonTree::Str(v.affected_member_id)),
        ("old_roster_hash"@, JsonTree::Str(v.old_roster_hash)),
        ("new_roster_hash"@, JsonTree::Str(v.new_roster_hash)),
        ("proposer_id"@, JsonTree::Str(v.proposer_id)),
        ("proposer_attempt"@, JsonTree::Num(v.proposer_attempt as u64)),
        (
            "wrapped_secrets"@,
            JsonTree::Arr(v.wrapped_secrets.map_values(|w: WrappedView| wrapped_tree(w))),
        ),
    ]
}

/// The JSON form of an `EpochCommit`.
pub open spec fn commit_tree(v: CommitView) -> JsonTree {
    JsonTree::Obj(commit_members(v))
}

/// The `EpochCommit` that a JSON value stands for.
pub open spec fn commit_of_tree(t: JsonTree) -> Option<CommitView> {
    let group_id = text_of(field_tree(t, "group_id"@, 0, 10));
    let old_epoch = number_of(field_tree(t, "old_epoch"@, 1, 10), u64::MAX);
    let new_epoch = number_of(field_tree(t, "new_epoch"@, 2, 10), u64::MAX);
    let event_type = match variant_of(field_tree(t, "event_type"@, 3, 10)) {
        Some(s) => EpochEventType::of_name(s),
        None => None,
    };
    let affected_member_id = text_of(field_tree(t, "affected_member_id"@, 4, 10));
    let old_roster_hash = text_of(field_tree(t, "old_roster_hash"@, 5, 10));
    let new_roster_hash = text_of(field_tree(t, "new_roster_hash"@, 6, 10));
    let proposer_id = text_of(field_tree(t, "proposer_id"@, 7, 10));
    let proposer_attempt = number_of(field_tree(t, "proposer_attempt"@, 8, 10), 0xffff_ffff);
    let wrapped_secrets = wrappeds_of(field_tree(t, "wrapped_secrets"@, 9, 10));
    if group_id is Some && old_epoch is Some && new_epoch is Some && event_type is Some
        && affected_member_id is Some && old_roster_hash is Some && new_roster_hash is Some
        && proposer_id is Some && proposer_attempt is Some && wrapped_secrets is Some {
        Some(CommitView {
            group_id: group_id->0,
            old_epoch: old_epoch->0,
            new_epoch: new_epoch->0,
            event_type: event_type->0,
            affected_member_id: affected_member_id->0,
            old_roster_hash: old_roster_hash->0,
            new_roster_hash: new_roster_hash->0,
            proposer_id: proposer_id->0,
            proposer_attempt: proposer_attempt->0 as u32,
            wrapped_secrets: wrapped_secrets->0,
        })
    } else {
        None
    }
}

pub proof fn lemma_commit_names(v: CommitView)
    ensures
        names_differ(commit_members(v)),
{
    reveal_strlit("group_id");
    assert("group_id"@.len() == 8);
    reveal_strlit("old_epoch");
    assert("old_epoch"@.len() == 9);
    reveal_strlit("new_epoch");
    assert("new_epoch"@.len() == 9);
    reveal_strlit("event_type");
    assert("event_type"@.len() == 10);
    reveal_strlit("affected_member_id");
    assert("affected_member_id"@.len() == 18);
    reveal_strlit("old_roster_hash");
    assert("old_roster_hash"@.len() == 15);
    reveal_strlit("new_roster_hash");
    assert("new_roster_hash"@.len() == 15);
    reveal_strlit("proposer_id");
    assert("proposer_id"@.len() == 11);
    reveal_strlit("proposer_attempt");
    assert("proposer_attempt"@.len() == 16);
    reveal_strlit("wrapped_secrets");
    assert("wrapped_secrets"@.len() == 15);
    assert("old_epoch"@[0] != "new_epoch"@[0]);
    assert("old_roster_hash"@[0] != "new_roster_hash"@[0]);
    assert("old_roster_hash"@[0] != "wrapped_secrets"@[0]);
    assert("new_roster_hash"@[0] != "wrapped_secrets"@[0]);
    let m = commit_members(v);
    assert forall|i: int, j: int|
        0 <= i < m.len() && 0 <= j < m.len() && (#[trigger] m[i]).0 == (#[trigger] m[j]).0 implies i
        == j by {
        assert(m[0].0 == "group_id"@);
        assert(m[1].0 == "old_epoch"@);
        assert(m[2].0 == "new_epoch"@);
        assert(m[3].0 == "event_type"@);
        assert(m[4].0 == "affected_member_id"@);
        assert(m[5].0 == "old_roster_hash"@);
        assert(m[6].0 == "new_roster_hash"@);
        assert(m[7].0 == "proposer_id"@);
        assert(m[8].0 == "proposer_attempt"@);
        assert(m[9].0 == "wrapped_secrets"@);
    }
}

/// The JSON form determines the structure.
pub proof fn lemma_commit_tree(v: CommitView)
    ensures
        commit_of_tree(commit_tree(v)) == Some(v),
        writable(commit_tree(v), 4),
{
    reveal_with_fuel(writable, 5);
    lemma_commit_names(v);
    let m = commit_members(v);
    lemma_member_at(m, 0);
    lemma_member_at(m, 1);
    lemma_member_at(m, 2);
    lemma_member_at(m, 3);
    lemma_member_at(m, 4);
    lemma_member_at(m, 5);
    lemma_member_at(m, 6);
    lemma_member_at(m, 7);
    lemma_member_at(m, 8);
    lemma_member_at(m, 9);
    v.event_type.lemma_of_name();
    let items = v.wrapped_secrets.map_values(|w: WrappedView| wrapped_tree(w));
    assert forall|i: int| 0 <= i < items.len() implies wrapped_of_tree(#[trigger] items[i]) == Some(
        v.wrapped_secrets[i],
    ) && writable(items[i], 2) by {
        lemma_wrapped_tree(v.wrapped_secrets[i]);
    }
    assert(items.map_values(|t: JsonTree| wrapped_of_tree(t)->0) =~= v.wrapped_secrets);
    lemma_writable_more_all(items);
}

pub(crate) fn commit_to_json(v: &EpochCommit) -> (value: serde_json::Value)
    ensures
        value_tree(value) == commit_tree(v@),
{
    let mut wrapped: Vec<serde_json::Value> = Vec::new();
    let mut i: usize = 0;
    while i < v.wrapped_secrets.len()
        invariant
            i <= v.wrapped_secrets@.len(),
            wrapped@.len() == i,
            forall|k: int|
                0 <= k < i ==> value_tree(#[trigger] wrapped@[k]) == wrapped_tree(
                    v.wrapped_secrets@[k]@,
                ),
        decreases v.wrapped_secrets.len() - i,
    {
        wrapped.push(wrapped_to_json(&v.wrapped_secrets[i]));
        i += 1;
    }
    assert(wrapped@.map_values(|x: serde_json::Value| value_tree(x))
        =~= v@.wrapped_secrets.map_values(|w: WrappedView| wrapped_tree(w)));
    let mut m: Vec<(String, serde_json::Value)> = Vec::new();
    m.push(("group_id".to_owned(), json_string(v.group_id.as_str())));
    m.push(("old_epoch".to_owned(), json_number(v.old_epoch)));
    m.push(("new_epoch".to_owned(), json_number(v.new_epoch)));
    m.push(("event_type".to_owned(), json_string(v.event_type.name())));
    m.push(("affected_member_id".to_owned(), json_string(v.affected_member_id.as_str())));
    m.push(("old_roster_hash".to_owned(), json_string(v.old_roster_hash.as_str())));
    m.push(("new_roster_hash".to_owned(), json_string(v.new_roster_hash.as_str())));
    m.push(("proposer_id".to_owned(), json_string(v.proposer_id.as_str())));
    m.push(("proposer_attempt".to_owned(), json_number(v.proposer_attempt as u64)));
    m.push(("wrapped_secrets".to_owned(), json_array(wrapped)));
    proof {
        lemma_commit_names(v@);
        assert(m@.map_values(|e: (String, serde_json::Value)| (e.0@, value_tree(e.1)))
            =~= commit_members(v@));
    }
    json_object(m)
}

pub(crate) fn commit_from_json(value: &serde_json::Value) -> (out: Option<EpochCommit>)
    ensures
        match (out, commit_of_tree(value_tree(*value))) {
            (Some(v), Some(t)) => v@ == t,
            (None, None) => true,
            _ => false,
        },
{
    let group_id = match json_text(json_field(value, "group_id", 0, 10)) {
        Some(x) => x,
        None => {
            return None;
        },
    };
    let old_epoch: u64 = match json_number_up_to(json_field(value, "old_epoch", 1, 10), u64::MAX) {
        Some(x) => x,
        None => {
            return None;
        },
    };
    let new_epoch: u64 = match json_number_up_to(json_field(value, "new_epoch", 2, 10), u64::MAX) {
        Some(x) => x,
        None => {
            return None;
        },
    };
    let event_type = match json_variant(json_field(value, "event_type", 3, 10)) {
        Some(s) => match EpochEventType::from_name(s.as_str()) {
            Some(x) => x,
            None => {
                return None;
            },
        },
        None => {
            return None;
        },
    };
    let affected_member_id = match json_text(json_field(value, "affected_member_id", 4, 10)) {
        Some(x) => x,
        None => {
            return None;
        },
    };
    let old_roster_hash = match json_text(json_field(value, "old_roster_hash", 5, 10)) {
        Some(x) => x,
        None => {
            return None;
        },
    };
    let new_roster_hash = match json_text(json_field(value, "new_roster_hash", 6, 10)) {
        Some(x) => x,
        None => {
            return None;
        },
    };
    let proposer_id = match json_text(json_field(value, "proposer_id", 7, 10)) {
        Some(x) => x,
        None => {
            return None;
        },
    };
    let proposer_attempt: u32 = match json_number_up_to(
        json_field(value, "proposer_attempt", 8, 10),
        0xffff_ffff,
    ) {
        Some(x) => x as u32,
        None => {
            return None;
        },
    };
    let wrapped_secrets = match wrappeds_from_json(json_field(value, "wrapped_secrets", 9, 10)) {
        Some(x) => x,
        None => {
            return None;
        },
    };
    Some(
        EpochCommit {
            group_id,
            old_epoch,
            new_epoch,
            event_type,
            affected_member_id,
            old_roster_hash,
            new_roster_hash,
            proposer_id,
            proposer_attempt,
            wrapped_secrets,
        },
    )
}

/// The JSON text of an `EpochCommit`. Reading it gives the structure back.
pub fn commit_to_bytes(v: &EpochCommit) -> (bytes: Vec<u8>)
    ensures
        bytes@ == json_bytes(commit_tree(v@)),
        commit_read(bytes@) == Some(v@),
{
    let value = commit_to_json(v);
    proof {
        lemma_commit_tree(v@);
        lemma_writable_more(commit_tree(v@), 4, 16);
    }
    json_to_bytes(&value)
}

/// The `EpochCommit` that a JSON text denotes.
pub open spec fn commit_read(bytes: Seq<u8>) -> Option<CommitView> {
    match json_parsed(bytes) {
        Some(t) => commit_of_tree(t),
        None => None,
    }
}

/// Reads an `EpochCommit` from its JSON text.
pub fn commit_from_bytes(bytes: &[u8]) -> (out: Option<EpochCommit>)
    ensures
        match (out, commit_read(bytes@)) {
            (Some(v), Some(t)) => v@ == t,
            (None, None) => true,
            _ => false,
        },
{
    match json_from_bytes(bytes) {
        Some(value) => commit_from_json(&value),
        None => None,
    }
}

pub open spec fn plain_members(v: PlainView) -> Seq<(Seq<char>, JsonTree)> {
    seq![
        ("group_id"@, JsonTree::Str(v.group_id)),
        ("old_epoch"@, JsonTree::Num(v.old_epoch)),
        ("new_epoch"@, JsonTree::Num(v.new_epoch)),
        ("event_type"@, JsonTree::Str(v.event_type.name_text())),
        ("recipient_id"@, JsonTree::Str(v.recipient_id)),
        ("group_secret"@, bytes_tree(v.group_secret)),
        ("new_roster_hash"@, JsonTree::Str(v.new_roster_hash)),
    ]
}

/// The JSON form of an `EpochSecretPlain`.
pub open spec fn plain_tree(v: PlainView) -> JsonTree {
    JsonTree::Obj(plain_members(v))
}

/// The `EpochSecretPlain` that a JSON value stands for.
pub open spec fn plain_of_tree(t: JsonTree) -> Option<PlainView> {
    let group_id = text_of(field_tree(t, "group_id"@, 0, 7));
    let old_epoch = number_of(field_tree(t, "old_epoch"@, 1, 7), u64::MAX);
    let new_epoch = number_of(field_tree(t, "new_epoch"@, 2, 7), u64::MAX);
    let event_type = match variant_of(field_tree(t, "event_type"@, 3, 7)) {
        Some(s) => EpochEventType::of_name(s),
        None => None,
    };
    let recipient_id = text_of(field_tree(t, "recipient_id"@, 4, 7));
    let group_secret = bytes_of(field_tree(t, "group_secret"@, 5, 7));
    let new_roster_hash = text_of(field_tree(t, "new_roster_hash"@, 6, 7));
    if group_id is Some && old_epoch is Some && new_epoch is Some && event_type is Some
        && recipient_id is Some && group_secret is Some && new_roster_hash is Some {
        Some(PlainView {
            group_id: group_id->0,
            old_epoch: old_epoch->0,
            new_epoch: new_epoch->0,
            event_type: event_type->0,
            recipient_id: recipient_id->0,
            group_secret: group_secret->0,
            new_roster_hash: new_roster_hash->0,
        })
    } else {
        None
    }
}

pub proof fn lemma_plain_names(v: PlainView)
    ensures
        names_differ(plain_members(v)),
{
    reveal_strlit("group_id");
    assert("group_id"@.len() == 8);
    reveal_strlit("old_epoch");
    assert("old_epoch"@.len() == 9);
    reveal_strlit("new_epoch");
    assert("new_epoch"@.len() == 9);
    reveal_strlit("event_type");
    assert("event_type"@.len() == 10);
    reveal_strlit("recipient_id");
    assert("recipient_id"@.len() == 12);
    reveal_strlit("group_secret");
    assert("group_secret"@.len() == 12);
    reveal_strlit("new_roster_hash");
    assert("new_roster_hash"@.len() == 15);
    assert("old_epoch"@[0] != "new_epoch"@[0]);
    assert("recipient_id"@[0] != "group_secret"@[0]);
    let m = plain_members(v);
    assert forall|i: int, j: int|
        0 <= i < m.len() && 0 <= j < m.len() && (#[trigger] m[i]).0 == (#[trigger] m[j]).0 implies i
        == j by {
        assert(m[0].0 == "group_id"@);
        assert(m[1].0 == "old_epoch"@);
        assert(m[2].0 == "new_epoch"@);
        assert(m[3].0 == "event_type"@);
        assert(m[4].0 == "recipient_id"@);
        assert(m[5].0 == "group_secret"@);
        assert(m[6].0 == "new_roster_hash"@);
    }
}

/// The JSON form determines the structure.
pub proof fn lemma_plain_tree(v: PlainView)
    ensures
        plain_of_tree(plain_tree(v)) == Some(v),
        writable(plain_tree(v), 2),
{
    reveal_with_fuel(writable, 3);
    lemma_plain_names(v);
    let m = plain_members(v);
    lemma_member_at(m, 0);
    lemma_member_at(m, 1);
    lemma_member_at(m, 2);
    lemma_member_at(m, 3);
    lemma_member_at(m, 4);
    lemma_member_at(m, 5);
    lemma_member_at(m, 6);
    v.event_type.lemma_of_name();
    lemma_bytes_tree(v.group_secret);
}

pub(crate) fn plain_to_json(v: &EpochSecretPlain) -> (value: serde_json::Value)
    ensures
        value_tree(value) == plain_tree(v@),
{
    let mut m: Vec<(String, serde_json::Value)> = Vec::new();
    m.push(("group_id".to_owned(), json_string(v.group_id.as_str())));
    m.push(("old_epoch".to_owned(), json_number(v.old_epoch)));
    m.push(("new_epoch".to_owned(), json_number(v.new_epoch)));
    m.push(("event_type".to_owned(), json_string(v.event_type.name())));
    m.push(("recipient_id".to_owned(), json_string(v.recipient_id.as_str())));
    m.push(("group_secret".to_owned(), json_bytes_value(v.group_secret.as_slice())));
    m.push(("new_roster_hash".to_owned(), json_string(v.new_roster_hash.as_str())));
    proof {
        lemma_plain_names(v@);
        assert(m@.map_values(|e: (String, serde_json::Value)| (e.0@, value_tree(e.1)))
            =~= plain_members(v@));
    }
    json_object(m)
}

pub(crate) fn plain_from_json(value: &serde_json::Value) -> (out: Option<EpochSecretPlain>)
    ensures
        match (out, plain_of_tree(value_tree(*value))) {
            (Some(v), Some(t)) => v@ == t,
            (None, None) => true,
            _ => false,
        },
{
    let group_id = match json_text(json_field(value, "group_id", 0, 7)) {
        Some(x) => x,
        None => {
            return None;
        },
    };
    let old_epoch: u64 = match json_number_up_to(json_field(value, "old_epoch", 1, 7), u64::MAX) {
        Some(x) => x,
        None => {
            return None;
        },
    };
    let new_epoch: u64 = match json_number_up_to(json_field(value, "new_epoch", 2, 7), u64::MAX) {
        Some(x) => x,
        None => {
            return None;
        },
    };
    let event_type = match json_variant(json_field(value, "event_type", 3, 7)) {
        Some(s) => match EpochEventType::from_name(s.as_str()) {
            Some(x) => x,
            None => {
                return None;
            },
        },
        None => {
            return None;
        },
    };
    let recipient_id = match json_text(json_field(value, "recipient_id", 4, 7)) {
        Some(x) => x,
        None => {
            return None;
        },
    };
    let group_secret = match json_bytes_field(json_field(value, "group_secret", 5, 7)) {
        Some(x) => x,
        None => {
            return None;
        },
    };
    let new_roster_hash = match json_text(json_field(value, "new_roster_hash", 6, 7)) {
        Some(x) => x,
        None => {
            return None;
        },
    };
    Some(
        EpochSecretPlain {
            group_id,
            old_epoch,
            new_epoch,
            event_type,
            recipient_id,
            group_secret,
            new_roster_hash,
        },
    )
}

/// The JSON text of an `EpochSecretPlain`. Reading it gives the structure back.
pub fn plain_to_bytes(v: &EpochSecretPlain) -> (bytes: Vec<u8>)
    ensures
        bytes@ == json_bytes(plain_tree(v@)),
        plain_read(bytes@) == Some(v@),
{
    let value = plain_to_json(v);
    proof {
        lemma_plain_tree(v@);
        lemma_writable_more(plain_tree(v@), 2, 16);
    }
    json_to_bytes(&value)
}

/// The `EpochSecretPlain` that a JSON text denotes.
pub open spec fn plain_read(bytes: Seq<u8>) -> Option<PlainView> {
    match json_parsed(bytes) {
        Some(t) => plain_of_tree(t),
        None => None,
    }
}

/// Reads an `EpochSecretPlain` from its JSON text.
pub fn plain_from_bytes(bytes: &[u8]) -> (out: Option<EpochSecretPlain>)
    ensures
        match (out, plain_read(bytes@)) {
            (Some(v), Some(t)) => v@ == t,
            (None, None) => true,
            _ => false,
        },
{
    match json_from_bytes(bytes) {
        Some(value) => plain_from_json(&value),
        None => None,
    }
}

/// A group message after decryption.
#[derive(Debug, PartialEq, Eq)]
pub struct DecryptedMessage {
    pub header: SecureMessageHeader,
    pub plaintext: Vec<u8>,
}

/// A value that is within a nesting is within a larger one.
proof fn lemma_writable_more(t: JsonTree, small: nat, large: nat)
    requires
        writable(t, small),
        small <= large,
    ensures
        writable(t, large),
    decreases small,
{
    match t {
        JsonTree::Arr(items) => {
            assert forall|i: int| 0 <= i < items.len() implies writable(
                #[trigger] items[i],
                (large - 1) as nat,
            ) by {
                lemma_writable_more(items[i], (small - 1) as nat, (large - 1) as nat);
            }
        },
        JsonTree::Obj(members) => {
            assert forall|i: int| 0 <= i < members.len() implies writable(
                (#[trigger] members[i]).1,
                (large - 1) as nat,
            ) by {
                lemma_writable_more(members[i].1, (small - 1) as nat, (large - 1) as nat);
            }
        },
        _ => {},
    }
}

} // verus!
