//! Invite tokens: each opens a room once, within its time.
use crate::util::id_map::{view_map, IdMap};
use crate::util::order::same_bytes;
use vstd::prelude::*;

verus! {

/// How long an invite handshake may take, in seconds.
pub const INVITE_PENDING_TTL_SECS: i64 = 30;

/// Whether a token may still be used.
#[derive(Debug)]
pub enum InviteUseState {
    Unused,
    Pending { client_nonce: [u8; 32], server_nonce: [u8; 32], pending_until: i64 },
    Used,
}

/// An invite that the server has handed out.
#[derive(Debug)]
pub struct InviteTokenInfo {
    pub room_id: String,
    pub expires_at: i64,
    pub blob_b64: String,
    pub token_secret: [u8; 32],
    pub state: InviteUseState,
}

/// Whether a token may still be used.
pub ghost enum UseView {
    Unused,
    Pending { client_nonce: Seq<u8>, server_nonce: Seq<u8>, pending_until: i64 },
    Used,
}

/// An invite that the server has handed out.
#[verifier::ext_equal]
pub ghost struct TokenView {
    pub room_id: Seq<char>,
    pub expires_at: i64,
    pub blob_b64: Seq<char>,
    pub token_secret: Seq<u8>,
    pub state: UseView,
}

impl View for InviteUseState {
    type V = UseView;

    open spec fn view(&self) -> UseView {
        match self {
            InviteUseState::Unused => UseView::Unused,
            InviteUseState::Pending { client_nonce, server_nonce, pending_until } => {
                UseView::Pending {
                    client_nonce: client_nonce@,
                    server_nonce: server_nonce@,
                    pending_until: *pending_until,
                }
            },
            InviteUseState::Used => UseView::Used,
        }
    }
}

impl View for InviteTokenInfo {
    type V = TokenView;

    open spec fn view(&self) -> TokenView {
        TokenView {
            room_id: self.room_id@,
            expires_at: self.expires_at,
            blob_b64: self.blob_b64@,
            token_secret: self.token_secret@,
            state: self.state@,
        }
    }
}

/// The tokens by their identifiers.
pub type Invites = IdMap<InviteTokenInfo>;

/// The tokens by their identifiers.
pub type TokensView = Map<Seq<char>, TokenView>;

/// The tokens of the server.
pub open spec fn tokens(invites: &Invites) -> TokensView {
    view_map(invites.map())
}

/// Whether a token is kept: not expired and not used.
pub open spec fn is_kept(token: TokenView, now: i64) -> bool {
    token.expires_at >= now && token.state !is Used
}

/// A token whose handshake took too long may be used again.
pub open spec fn released(token: TokenView, now: i64) -> TokenView {
    match token.state {
        UseView::Pending { pending_until, .. } => if pending_until < now {
            TokenView { state: UseView::Unused, ..token }
        } else {
            token
        },
        _ => token,
    }
}

/// The tokens that count at a time.
pub open spec fn normalized(m: TokensView, now: i64) -> TokensView {
    Map::new(
        |id: Seq<char>| m.contains_key(id) && is_kept(m[id], now),
        |id: Seq<char>| released(m[id], now),
    )
}

/// Drops expired and used tokens, and releases handshakes that took too long.
pub fn normalize_invites(invites: &mut Invites, now: i64)
    requires
        old(invites).wf(),
    ensures
        final(invites).wf(),
        tokens(final(invites)) == normalized(tokens(old(invites)), now),
{
    let ghost all = tokens(invites);
    let mut rest: Invites = IdMap::new();
    std::mem::swap(&mut rest, invites);
    assert(tokens(invites) =~= normalized(all.remove_keys(tokens(&rest).dom()), now));
    loop
        invariant
            rest.wf(),
            invites.wf(),
            tokens(&rest).submap_of(all),
            tokens(invites) == normalized(all.remove_keys(tokens(&rest).dom()), now),
        ensures
            invites.wf(),
            tokens(invites) == normalized(all, now),
        decreases rest.entries@.len(),
    {
        let ghost before = tokens(&rest);
        let ghost done = tokens(invites);
        match rest.pop() {
            None => {
                assert(all.remove_keys(before.dom()) =~= all);
                break ;
            },
            Some((id, info)) => {
                let mut info = info;
                proof {
                    assert(before.dom().contains(id@));
                    assert(before[id@] == info@);
                    assert(all.dom().contains(id@));
                    assert(all[id@] == info@);
                    assert(tokens(&rest) =~= before.remove(id@));
                }
                let used = match info.state {
                    InviteUseState::Used => true,
                    _ => false,
                };
                if info.expires_at >= now && !used {
                    match info.state {
                        InviteUseState::Pending { pending_until, .. } => {
                            if pending_until < now {
                                info.state = InviteUseState::Unused;
                            }
                        },
                        _ => {},
                    }
                    let ghost kept = info@;
                    let ghost key = id@;
                    invites.insert(id, info);
                    assert(tokens(invites) =~= done.insert(key, kept));
                }
                assert(tokens(invites) =~= normalized(all.remove_keys(tokens(&rest).dom()), now));
            },
        }
    }
}

/// Hands out a token.
pub fn insert_invite_token(
    invites: &mut Invites,
    token_id_hex: String,
    room_id: String,
    expires_at: i64,
    blob_b64: String,
    token_secret: [u8; 32],
)
    requires
        old(invites).wf(),
    ensures
        final(invites).wf(),
        tokens(final(invites)) == tokens(old(invites)).insert(
            token_id_hex@,
            (TokenView {
                room_id: room_id@,
                expires_at,
                blob_b64: blob_b64@,
                token_secret: token_secret@,
                state: UseView::Unused,
            }),
        ),
{
    let info = InviteTokenInfo {
        room_id,
        expires_at,
        blob_b64,
        token_secret,
        state: InviteUseState::Unused,
    };
    let ghost key = token_id_hex@;
    let ghost token = info@;
    invites.insert(token_id_hex, info);
    assert(tokens(invites) =~= tokens(old(invites)).insert(key, token));
}

/// A token whose handshake has begun.
pub open spec fn pending(token: TokenView, cn: Seq<u8>, sn: Seq<u8>, now: i64) -> TokenView {
    TokenView {
        state: UseView::Pending {
            client_nonce: cn,
            server_nonce: sn,
            pending_until: (now + INVITE_PENDING_TTL_SECS) as i64,
        },
        ..token
    }
}

/// What beginning a handshake with a token does, and what it gives.
pub open spec fn begun(m: TokensView, id: Seq<char>, cn: Seq<u8>, sn: Seq<u8>, now: i64) -> (
    TokensView,
    Option<TokenView>,
) {
    let n = normalized(m, now);
    if n.contains_key(id) && n[id].state is Unused {
        (n.insert(id, pending(n[id], cn, sn, now)), Some(n[id]))
    } else {
        (n, None)
    }
}

/// Begins a handshake with a token: its secret, its room and its blob, when it may be used.
pub fn begin_pending_invite(
    invites: &mut Invites,
    token_id_hex: &str,
    client_nonce: [u8; 32],
    server_nonce: [u8; 32],
    now: i64,
) -> (out: Option<([u8; 32], String, String)>)
    requires
        old(invites).wf(),
        now + INVITE_PENDING_TTL_SECS <= i64::MAX,
    ensures
        final(invites).wf(),
        tokens(final(invites)) == begun(
            tokens(old(invites)),
            token_id_hex@,
            client_nonce@,
            server_nonce@,
            now,
        ).0,
        match (
            out,
            begun(tokens(old(invites)), token_id_hex@, client_nonce@, server_nonce@, now).1,
        ) {
            (Some(o), Some(t)) => o.0@ == t.token_secret && o.1@ == t.room_id && o.2@ == t.blob_b64,
            (None, None) => true,
            _ => false,
        },
{
    normalize_invites(invites, now);
    let ghost n = tokens(invites);
    match invites.get_mut(token_id_hex) {
        Some(info) => {
            let unused = match info.state {
                InviteUseState::Unused => true,
                _ => false,
            };
            if !unused {
                proof {
                    assert(n[token_id_hex@].state !is Unused);
                    assert(n.insert(token_id_hex@, n[token_id_hex@]) =~= n);
                }
                return None;
            }
            let token_secret = info.token_secret;
            let room_id = info.room_id.clone();
            let blob_b64 = info.blob_b64.clone();
            info.state = InviteUseState::Pending {
                client_nonce,
                server_nonce,
                pending_until: now + INVITE_PENDING_TTL_SECS,
            };
            assert(tokens(invites) =~= n.insert(
                token_id_hex@,
                pending(n[token_id_hex@], client_nonce@, server_nonce@, now),
            ));
            Some((token_secret, room_id, blob_b64))
        },
        None => None,
    }
}

/// The tokens after a handshake that was given up.
pub open spec fn reset(m: TokensView, id: Seq<char>, now: i64) -> TokensView {
    let n = normalized(m, now);
    if n.contains_key(id) {
        n.insert(id, TokenView { state: UseView::Unused, ..n[id] })
    } else {
        n
    }
}

/// Gives up a handshake: the token may be used again.
pub fn reset_invite_to_unused(invites: &mut Invites, token_id_hex: &str, now: i64)
    requires
        old(invites).wf(),
    ensures
        final(invites).wf(),
        tokens(final(invites)) == reset(tokens(old(invites)), token_id_hex@, now),
{
    normalize_invites(invites, now);
    let ghost n = tokens(invites);
    match invites.get_mut(token_id_hex) {
        Some(info) => {
            info.state = InviteUseState::Unused;
        },
        None => {},
    }
    assert(tokens(invites) =~= reset(tokens(old(invites)), token_id_hex@, now));
}

/// What completing a handshake does, and whether it succeeds.
pub open spec fn consumed(m: TokensView, id: Seq<char>, cn: Seq<u8>, sn: Seq<u8>, now: i64) -> (
    TokensView,
    bool,
) {
    let n = normalized(m, now);
    if n.contains_key(id) && (n[id].state matches UseView::Pending {
        client_nonce,
        server_nonce,
        ..
    } && client_nonce == cn && server_nonce == sn) {
        (n.insert(id, TokenView { state: UseView::Used, ..n[id] }), true)
    } else {
        (n, false)
    }
}

/// Completes a handshake: only the one that began it may.
pub fn consume_invite_ready(
    invites: &mut Invites,
    token_id_hex: &str,
    client_nonce: &[u8; 32],
    server_nonce: &[u8; 32],
    now: i64,
) -> (ready: bool)
    requires
        old(invites).wf(),
    ensures
        final(invites).wf(),
        (tokens(final(invites)), ready) == consumed(
            tokens(old(invites)),
            token_id_hex@,
            client_nonce@,
            server_nonce@,
            now,
        ),
{
    normalize_invites(invites, now);
    let ghost n = tokens(invites);
    match invites.get_mut(token_id_hex) {
        Some(info) => {
            let matches_nonces = match &info.state {
                InviteUseState::Pending { client_nonce: c, server_nonce: s, .. } => {
                    same_bytes(c.as_slice(), client_nonce.as_slice()) && same_bytes(
                        s.as_slice(),
                        server_nonce.as_slice(),
                    )
                },
                _ => false,
            };
            if matches_nonces {
                info.state = InviteUseState::Used;
            }
            assert(tokens(invites) =~= consumed(
                tokens(old(invites)),
                token_id_hex@,
                client_nonce@,
                server_nonce@,
                now,
            ).0);
            matches_nonces
        },
        None => false,
    }
}

/// Whether a token can no longer be used.
pub open spec fn spent(m: TokensView, id: Seq<char>) -> bool {
    m.contains_key(id) ==> m[id].state is Used
}

/// A completed handshake spends the token.
pub proof fn law_completed_handshake_spends_token(
    m: TokensView,
    id: Seq<char>,
    cn: Seq<u8>,
    sn: Seq<u8>,
    now: i64,
)
    requires
        consumed(m, id, cn, sn, now).1,
    ensures
        spent(consumed(m, id, cn, sn, now).0, id),
{
}

/// A spent token stays spent, and opens nothing: no handshake with it begins or completes, at any
/// time and whatever happens to other tokens.
pub proof fn law_spent_token_opens_nothing(
    m: TokensView,
    id: Seq<char>,
    other: Seq<char>,
    cn: Seq<u8>,
    sn: Seq<u8>,
    now: i64,
)
    requires
        spent(m, id),
    ensures
        begun(m, id, cn, sn, now).1 is None,
        !consumed(m, id, cn, sn, now).1,
        spent(normalized(m, now), id),
        spent(begun(m, other, cn, sn, now).0, id),
        spent(consumed(m, other, cn, sn, now).0, id),
        spent(reset(m, other, now), id),
{
}

/// An expired token opens nothing.
pub proof fn law_expired_token_opens_nothing(
    m: TokensView,
    id: Seq<char>,
    cn: Seq<u8>,
    sn: Seq<u8>,
    now: i64,
)
    requires
        m.contains_key(id),
        m[id].expires_at < now,
    ensures
        begun(m, id, cn, sn, now).1 is None,
        !consumed(m, id, cn, sn, now).1,
        !normalized(m, now).contains_key(id),
{
}

/// While one handshake with a token is under way, no other can begin; once its time is over, one
/// can.
pub proof fn law_one_handshake_at_a_time(
    m: TokensView,
    id: Seq<char>,
    cn: Seq<u8>,
    sn: Seq<u8>,
    now: i64,
    cn2: Seq<u8>,
    sn2: Seq<u8>,
    later: i64,
)
    requires
        begun(m, id, cn, sn, now).1 is Some,
        now + INVITE_PENDING_TTL_SECS <= i64::MAX,
    ensures
        later <= now + INVITE_PENDING_TTL_SECS ==> begun(
            begun(m, id, cn, sn, now).0,
            id,
            cn2,
            sn2,
            later,
        ).1 is None,
        later > now + INVITE_PENDING_TTL_SECS && later <= m[id].expires_at ==> begun(
            begun(m, id, cn, sn, now).0,
            id,
            cn2,
            sn2,
            later,
        ).1 is Some,
{
}

/// A handshake that has begun can be completed in time by the one that began it, and by no other.
pub proof fn law_begun_handshake_completes(
    m: TokensView,
    id: Seq<char>,
    cn: Seq<u8>,
    sn: Seq<u8>,
    now: i64,
    cn2: Seq<u8>,
    sn2: Seq<u8>,
    later: i64,
)
    requires
        begun(m, id, cn, sn, now).1 is Some,
        now + INVITE_PENDING_TTL_SECS <= i64::MAX,
        later <= now + INVITE_PENDING_TTL_SECS,
        later <= m[id].expires_at,
    ensures
        consumed(begun(m, id, cn, sn, now).0, id, cn2, sn2, later).1 == (cn2 == cn && sn2 == sn),
{
}

} // verus!
