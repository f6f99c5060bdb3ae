//! The sign of life that keeps a connection open.
use crate::crypto::aead::sealable;
use crate::crypto::transport::{
    opened_line, sealed_line, wrapped_next, TransportCrypto, TransportView,
};
use vstd::prelude::*;
use vstd::utf8::encode_utf8;

verus! {

/// The line of a sign of life.
pub const PING: &'static str = "/ping";

/// The next sign of life, sealed.
pub fn ping_line(transport: &mut TransportCrypto) -> (line: String)
    ensures
        line@ == sealed_line(old(transport)@.send_key, old(transport)@.send_seq, PING@),
        opened_line(old(transport)@.send_key, line@) == Some((old(transport)@.send_seq, PING@)),
        final(transport)@ == (TransportView {
            send_seq: wrapped_next(old(transport)@.send_seq),
            ..old(transport)@
        }),
        old(transport).wf() ==> final(transport).wf(),
{
    proof {
        reveal_strlit("/ping");
        assert(vstd::utf8::is_ascii_chars("/ping"@));
        vstd::utf8::is_ascii_chars_encode_utf8("/ping"@);
        assert(sealable(encode_utf8("/ping"@)));
    }
    transport.seal(PING)
}

} // verus!
