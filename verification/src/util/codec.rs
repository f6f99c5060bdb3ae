//! Text carried as unpadded URL-safe base64.
use crate::crypto::chain::bytes32_from_slice;
use crate::outside::encoding::{
    base64url_bytes, base64url_decode, base64url_encode, base64url_text, is_base64_char,
    is_base64url_char,
};
use crate::outside::text::string_from_utf8;
use crate::util::text::{
    is_white, is_word, lemma_split_cons, lemma_split_single, lemma_words_blank, lemma_words_cons,
    lemma_words_single, no_white, split_on, views, words,
};
use vstd::prelude::*;
use vstd::utf8::{decode_utf8, encode_utf8, valid_utf8};

verus! {

/// The base64 form of a text.
pub open spec fn encoded_text(s: Seq<char>) -> Seq<char> {
    base64url_text(encode_utf8(s))
}

/// The text that a base64 form stands for.
pub open spec fn decoded_text(s: Seq<char>) -> Option<Seq<char>> {
    match base64url_bytes(s) {
        Some(bytes) => if valid_utf8(bytes) {
            Some(decode_utf8(bytes))
        } else {
            None
        },
        None => None,
    }
}

/// Whether every character is of the URL-safe base64 alphabet.
pub open spec fn base64url_chars(s: Seq<char>) -> bool {
    forall|i: int| 0 <= i < s.len() ==> is_base64url_char(#[trigger] s[i])
}

/// Base64 text holds no white space and none of the separators of the protocol.
pub proof fn lemma_base64url_chars(s: Seq<char>)
    requires
        base64url_chars(s),
    ensures
        no_white(s),
        s.len() > 0 ==> is_word(s),
        !s.contains('.'),
        !s.contains(','),
        !s.contains(':'),
        !s.contains('~'),
{
    assert forall|i: int| 0 <= i < s.len() implies !is_white(#[trigger] s[i]) by {
        assert(is_base64url_char(s[i]));
    }
    assert forall|c: char| !is_base64url_char(c) implies !s.contains(c) by {
        if s.contains(c) {
            let i = choose|i: int| 0 <= i < s.len() && s[i] == c;
            assert(is_base64url_char(s[i]));
        }
    }
}

/// Standard base64 text holds no white space.
pub proof fn lemma_base64_chars(s: Seq<char>)
    requires
        forall|i: int| 0 <= i < s.len() ==> is_base64_char(#[trigger] s[i]),
    ensures
        no_white(s),
        s.len() > 0 ==> is_word(s),
{
    assert forall|i: int| 0 <= i < s.len() implies !is_white(#[trigger] s[i]) by {
        assert(is_base64_char(s[i]));
    }
}

pub proof fn lemma_utf8_empty(s: Seq<char>)
    ensures
        encode_utf8(s).len() == 0 <==> s.len() == 0,
{
    if s.len() > 0 {
        vstd::utf8::encode_utf8_first_scalar(s);
    }
}

/// The base64 form of a text, which decodes to the text.
pub fn encode_text(s: &str) -> (out: String)
    ensures
        out@ == encoded_text(s@),
        decoded_text(out@) == Some(s@),
        base64url_chars(out@),
        out@.len() == 0 <==> s@.len() == 0,
{
    proof {
        vstd::utf8::encode_utf8_valid_utf8(s@);
        vstd::utf8::encode_utf8_decode_utf8(s@);
        lemma_utf8_empty(s@);
    }
    base64url_encode(s.as_bytes())
}

/// The text that a base64 form stands for.
pub fn decode_text(s: &str) -> (out: Option<String>)
    ensures
        match (out, decoded_text(s@)) {
            (Some(t), Some(v)) => t@ == v,
            (None, None) => true,
            _ => false,
        },
{
    match base64url_decode(s) {
        Some(bytes) => string_from_utf8(bytes),
        None => None,
    }
}

/// The parts joined with a separator between them.
pub open spec fn join_texts(parts: Seq<Seq<char>>, sep: Seq<char>) -> Seq<char>
    decreases parts.len(),
{
    if parts.len() == 0 {
        Seq::empty()
    } else if parts.len() == 1 {
        parts[0]
    } else {
        parts[0] + sep + join_texts(parts.drop_first(), sep)
    }
}

/// The words of a line, with a blank between them.
pub open spec fn spaced(parts: Seq<Seq<char>>) -> Seq<char> {
    join_texts(parts, " "@)
}

/// Joins strings with a separator between them.
pub fn join_strings(parts: &Vec<String>, sep: &str) -> (out: String)
    ensures
        out@ == join_texts(views(parts@), sep@),
{
    let ghost all = views(parts@);
    let mut out = String::new();
    let mut i: usize = 0;
    assert(all.skip(0) =~= all);
    assert(out@ + join_texts(all.skip(0), sep@) =~= join_texts(all, sep@));
    while i < parts.len()
        invariant
            i <= parts@.len(),
            all == views(parts@),
            i < parts@.len()
                ==> out@ + join_texts(all.skip(i as int), sep@) == join_texts(all, sep@),
            i == parts@.len() ==> out@ == join_texts(all, sep@),
        decreases parts.len() - i,
    {
        let ghost before = out@;
        let ghost rest = all.skip(i as int);
        out.append(parts[i].as_str());
        proof {
            assert(rest[0] == parts@[i as int]@);
            assert(rest.drop_first() =~= all.skip(i + 1));
        }
        if i + 1 < parts.len() {
            out.append(sep);
            assert(out@ + join_texts(all.skip(i + 1), sep@) =~= before + join_texts(rest, sep@));
        }
        i += 1;
    }
    out
}

/// Words joined by blanks are the words of the line.
pub proof fn lemma_words_spaced(parts: Seq<Seq<char>>)
    requires
        forall|i: int| 0 <= i < parts.len() ==> is_word(#[trigger] parts[i]),
    ensures
        words(spaced(parts)) == parts,
    decreases parts.len(),
{
    if parts.len() == 0 {
        assert(spaced(parts) =~= Seq::<char>::empty());
        assert(words(Seq::<char>::empty()) =~= parts);
    } else if parts.len() == 1 {
        lemma_words_single(parts[0]);
        assert(seq![parts[0]] =~= parts);
    } else {
        let rest = parts.drop_first();
        lemma_words_spaced(rest);
        reveal_strlit(" ");
        let tail = " "@ + spaced(rest);
        assert(tail[0] == ' ');
        lemma_words_blank(spaced(rest));
        lemma_words_cons(parts[0], tail);
        assert(spaced(parts) =~= parts[0] + tail);
        assert(seq![parts[0]] + rest =~= parts);
    }
}

/// Pieces without `c`, joined by it, are the pieces of the text.
pub proof fn lemma_split_joined(parts: Seq<Seq<char>>, c: char)
    requires
        parts.len() > 0,
        forall|i: int| 0 <= i < parts.len() ==> !(#[trigger] parts[i]).contains(c),
    ensures
        split_on(join_texts(parts, seq![c]), c) == parts,
    decreases parts.len(),
{
    if parts.len() == 1 {
        lemma_split_single(parts[0], c);
        assert(seq![parts[0]] =~= parts);
    } else {
        let rest = parts.drop_first();
        lemma_split_joined(rest, c);
        lemma_split_cons(parts[0], c, join_texts(rest, seq![c]));
        assert(seq![parts[0]] + rest =~= parts);
    }
}

/// A line of several words starts with the first of them and a blank.
pub proof fn lemma_spaced_head(parts: Seq<Seq<char>>)
    requires
        parts.len() >= 2,
    ensures
        spaced(parts) == parts[0] + " "@ + spaced(parts.drop_first()),
{
}

/// A sequence of bytes, when it has the given length.
pub open spec fn sized(bytes: Option<Seq<u8>>, len: nat) -> Option<Seq<u8>> {
    match bytes {
        Some(b) => if b.len() == len {
            Some(b)
        } else {
            None
        },
        None => None,
    }
}

/// The 32 bytes that a base64 text stands for.
pub fn decode_key32(text: &str) -> (key: Option<[u8; 32]>)
    ensures
        match (key, sized(base64url_bytes(text@), 32)) {
            (Some(k), Some(v)) => k@ == v,
            (None, None) => true,
            _ => false,
        },
{
    match base64url_decode(text) {
        Some(bytes) => match bytes32_from_slice(bytes.as_slice()) {
            Ok(key) => Some(key),
            Err(_) => None,
        },
        None => None,
    }
}

/// The 8 bytes that a base64 text stands for.
pub fn decode_key8(text: &str) -> (key: Option<[u8; 8]>)
    ensures
        match (key, sized(base64url_bytes(text@), 8)) {
            (Some(k), Some(v)) => k@ == v,
            (None, None) => true,
            _ => false,
        },
{
    match base64url_decode(text) {
        Some(b) => {
            if b.len() != 8 {
                return None;
            }
            let key: [u8; 8] = [b[0], b[1], b[2], b[3], b[4], b[5], b[6], b[7]];
            assert(key@ =~= b@);
            Some(key)
        },
        None => None,
    }
}

} // verus!
