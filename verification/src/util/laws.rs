//! What texts, orders and paths promise.
use crate::util::codec::join_texts;
use crate::util::order::{byte_values, bytes_leq, codes, lex_leq, ranked_leq, str_leq};
use crate::util::path::{cleaned_name, file_name_of, is_unsafe_char, safe_name};
use crate::util::text::{
    decimal, is_digit, is_white, lemma_char_pos, lemma_char_pos_unique, lemma_split_single,
    lemma_trimmed_same, parsed_signed, parsed_unsigned, signed_decimal, split_on, trimmed,
    trimmed_end, trimmed_start,
};
use vstd::prelude::*;

verus! {

/// Whether a text is nothing but white space.
pub open spec fn all_white(s: Seq<char>) -> bool {
    forall|i: int| 0 <= i < s.len() ==> is_white(#[trigger] s[i])
}

/// What trimming takes away at the start is white space, and what is left does not begin with any.
proof fn lemma_trimmed_start_cuts(s: Seq<char>)
    ensures
        trimmed_start(s).len() <= s.len(),
        trimmed_start(s) == s.skip(s.len() - trimmed_start(s).len()),
        all_white(s.take(s.len() - trimmed_start(s).len())),
        trimmed_start(s).len() > 0 ==> !is_white(trimmed_start(s)[0]),
    decreases s.len(),
{
    if s.len() > 0 && is_white(s[0]) {
        let rest = s.drop_first();
        lemma_trimmed_start_cuts(rest);
        let n = s.len() - trimmed_start(s).len();
        assert(s.skip(n) =~= rest.skip(n - 1));
        assert forall|i: int| 0 <= i < n implies is_white(#[trigger] s.take(n)[i]) by {
            if i > 0 {
                assert(s.take(n)[i] == rest.take(n - 1)[i - 1]);
            }
        }
    } else {
        assert(s.skip(0) =~= s);
    }
}

/// What trimming takes away at the end is white space, and what is left does not end with any.
proof fn lemma_trimmed_end_cuts(s: Seq<char>)
    ensures
        trimmed_end(s).len() <= s.len(),
        trimmed_end(s) == s.take(trimmed_end(s).len() as int),
        all_white(s.skip(trimmed_end(s).len() as int)),
        trimmed_end(s).len() > 0 ==> !is_white(trimmed_end(s).last()),
    decreases s.len(),
{
    if s.len() > 0 && is_white(s.last()) {
        let rest = s.drop_last();
        lemma_trimmed_end_cuts(rest);
        let n = trimmed_end(s).len() as int;
        assert(s.take(n) =~= rest.take(n));
        assert forall|i: int| 0 <= i < s.len() - n implies is_white(#[trigger] s.skip(n)[i]) by {
            if i < s.len() - n - 1 {
                assert(s.skip(n)[i] == rest.skip(n)[i]);
            }
        }
    } else {
        assert(s.take(s.len() as int) =~= s);
    }
}

/// Trimming takes white space away at both ends and nothing else: what is left neither begins nor
/// ends with any, and trimming it again changes nothing.
pub proof fn law_trimming_takes_only_white_space(s: Seq<char>)
    ensures
        exists|before: Seq<char>, after: Seq<char>|
            {
                &&& #[trigger] all_white(before)
                &&& #[trigger] all_white(after)
                &&& s == before + trimmed(s) + after
            },
        trimmed(s).len() > 0 ==> !is_white(trimmed(s)[0]) && !is_white(trimmed(s).last()),
        trimmed(trimmed(s)) == trimmed(s),
        trimmed(s).len() == 0 <==> all_white(s),
{
    lemma_trimmed_start_cuts(s);
    let t = trimmed_start(s);
    lemma_trimmed_end_cuts(t);
    let before = s.take(s.len() - t.len());
    let after = t.skip(trimmed(s).len() as int);
    assert(s =~= before + trimmed(s) + after);
    assert(all_white(before) && all_white(after));
    if trimmed(s).len() > 0 {
        assert(trimmed(s)[0] == t[0]);
    }
    lemma_trimmed_same(trimmed(s));
    if trimmed(s).len() == 0 {
        assert forall|i: int| 0 <= i < s.len() implies is_white(#[trigger] s[i]) by {
            if i < before.len() {
                assert(s[i] == before[i]);
            } else {
                assert(s[i] == after[i - before.len()]);
            }
        }
    }
    if all_white(s) && trimmed(s).len() > 0 {
        assert(s[before.len() as int] == trimmed(s)[0]);
    }
}

/// The pieces of a text, joined by the character that parts them, are the text, and none of them
/// holds it.
pub proof fn law_pieces_make_the_text(s: Seq<char>, c: char)
    ensures
        join_texts(split_on(s, c), seq![c]) == s,
        split_on(s, c).len() > 0,
        forall|i: int| 0 <= i < split_on(s, c).len()
            ==> !(#[trigger] split_on(s, c)[i]).contains(c),
    decreases s.len(),
{
    lemma_char_pos(s, c);
    let p = crate::util::text::char_pos(s, c);
    let all = split_on(s, c);
    if p < s.len() {
        let rest = s.skip(p + 1);
        law_pieces_make_the_text(rest, c);
        let pieces = split_on(rest, c);
        assert(all =~= seq![s.take(p)] + pieces);
        assert(all.drop_first() =~= pieces);
        assert(s.take(p) + seq![c] + rest =~= s);
        assert forall|i: int| 0 <= i < all.len() implies !(#[trigger] all[i]).contains(c) by {
            if i > 0 {
                assert(all[i] == pieces[i - 1]);
            }
        }
    } else {
        assert(all[0] == s);
    }
}

/// Numbers are read back, with their signs, and a number beyond the largest is not read.
pub proof fn law_numbers_are_read_back(n: nat, max: nat, k: i64)
    ensures
        n <= max ==> parsed_unsigned(decimal(n), max) == Some(n),
        n > max ==> parsed_unsigned(decimal(n), max) is None,
        parsed_signed(signed_decimal(k as int)) == Some(k as int),
        parsed_unsigned(Seq::empty(), max) is None,
{
    crate::util::text::lemma_decimal(n);
    assert(is_digit(decimal(n)[0]));
    crate::util::text::lemma_parse_signed(k as int);
}

/// What is read as a number is digits behind an optional sign.
pub proof fn law_only_digits_are_numbers(s: Seq<char>, max: nat)
    requires
        parsed_unsigned(s, max) is Some,
    ensures
        s.len() > 0,
        is_digit(s.last()),
        parsed_unsigned(s, max)->0 <= max,
        forall|i: int| 1 <= i < s.len() ==> is_digit(#[trigger] s[i]),
        s[0] == '+' || is_digit(s[0]),
{
    if s[0] == '+' {
        let t = s.drop_first();
        assert forall|i: int| 1 <= i < s.len() implies is_digit(#[trigger] s[i]) by {
            assert(s[i] == t[i - 1]);
        }
        assert(t.last() == s.last());
    }
}

/// In the order of sequences the first difference decides, and a beginning comes before the whole.
proof fn lemma_lex_difference(p: Seq<int>, x: int, s: Seq<int>, y: int, t: Seq<int>)
    requires
        x < y,
    ensures
        lex_leq(p.push(x) + s, p.push(y) + t),
        !lex_leq(p.push(y) + t, p.push(x) + s),
        lex_leq(p, p.push(x) + s),
        !lex_leq(p.push(x) + s, p),
    decreases p.len(),
{
    let a = p.push(x) + s;
    let b = p.push(y) + t;
    if p.len() > 0 {
        let q = p.drop_first();
        lemma_lex_difference(q, x, s, y, t);
        assert(a.drop_first() =~= q.push(x) + s);
        assert(b.drop_first() =~= q.push(y) + t);
    }
}

/// Texts are ordered by their first difference, and a beginning comes before the whole text.
pub proof fn law_first_difference_orders_texts(
    p: Seq<char>,
    x: char,
    s: Seq<char>,
    y: char,
    t: Seq<char>,
)
    requires
        x < y,
    ensures
        str_leq(p.push(x) + s, p.push(y) + t),
        !str_leq(p.push(y) + t, p.push(x) + s),
        str_leq(p, p.push(x) + s),
        !str_leq(p.push(x) + s, p),
{
    lemma_lex_difference(codes(p), x as int, codes(s), y as int, codes(t));
    assert(codes(p.push(x) + s) =~= codes(p).push(x as int) + codes(s));
    assert(codes(p.push(y) + t) =~= codes(p).push(y as int) + codes(t));
}

/// Bytes are ordered by their first difference, and a beginning comes before the whole. Ranked texts
/// are ordered by their ranks, and by the texts where these are the same.
pub proof fn law_first_difference_orders_bytes(
    p: Seq<u8>,
    x: u8,
    s: Seq<u8>,
    y: u8,
    t: Seq<u8>,
    a: Seq<char>,
    b: Seq<char>,
)
    requires
        x < y,
    ensures
        bytes_leq(p.push(x) + s, p.push(y) + t),
        !bytes_leq(p.push(y) + t, p.push(x) + s),
        bytes_leq(p, p.push(x) + s),
        !bytes_leq(p.push(x) + s, p),
        ranked_leq((p.push(x) + s, a), (p.push(y) + t, b)),
        !ranked_leq((p.push(y) + t, b), (p.push(x) + s, a)),
        ranked_leq((p, a), (p, b)) <==> str_leq(a, b),
{
    lemma_lex_difference(byte_values(p), x as int, byte_values(s), y as int, byte_values(t));
    let u = p.push(x) + s;
    let v = p.push(y) + t;
    assert(byte_values(u) =~= byte_values(p).push(x as int) + byte_values(s));
    assert(byte_values(v) =~= byte_values(p).push(y as int) + byte_values(t));
    assert(u[p.len() as int] == x && v[p.len() as int] == y);
}

/// A name that is safe already is kept as it is; in any other only the unsafe characters change, and
/// each becomes the same mark.
pub proof fn law_safe_name_keeps_what_is_safe(name: Seq<char>, id: Seq<char>)
    requires
        name.len() > 0,
        !is_white(name[0]),
        !is_white(name.last()),
    ensures
        safe_name(Some(name), id).len() == name.len(),
        forall|i: int|
            0 <= i < name.len() ==> #[trigger] safe_name(Some(name), id)[i] == (if is_unsafe_char(
                name[i],
            ) {
                '_'
            } else {
                name[i]
            }),
        (forall|i: int| 0 <= i < name.len() ==> !is_unsafe_char(#[trigger] name[i])) ==> safe_name(
            Some(name),
            id,
        ) == name,
        safe_name(Some(Seq::empty()), id) == "attachment-"@ + id + ".bin"@,
{
    lemma_trimmed_same(name);
    lemma_trimmed_same(Seq::<char>::empty());
    assert(cleaned_name(Some(Seq::<char>::empty())).len() == 0);
    if forall|i: int| 0 <= i < name.len() ==> !is_unsafe_char(#[trigger] name[i]) {
        assert(safe_name(Some(name), id) =~= name);
    }
}

/// No path separator and no control character is safe in a name, nor are the characters with a
/// meaning of their own.
pub proof fn law_separators_are_unsafe(c: char)
    ensures
        c == '/' || c == '\\' || c == ':' || c == '*' || c == '?' || c == '"' || c == '<' || c == '>'
            || c == '|' || (c as u32) < 0x20 || c as u32 == 0x7f ==> is_unsafe_char(c),
        ('a' <= c && c <= 'z') || ('A' <= c && c <= 'Z') || ('0' <= c && c <= '9') || c == '.' || c
            == '-' || c == '_' || c == ' ' ==> !is_unsafe_char(c),
{
}

/// The pieces of a text with one more behind it.
proof fn lemma_split_behind(a: Seq<char>, c: char, b: Seq<char>)
    requires
        !b.contains(c),
    ensures
        split_on(a + seq![c] + b, c) == split_on(a, c).push(b),
    decreases a.len(),
{
    let s = a + seq![c] + b;
    lemma_char_pos(a, c);
    let p = crate::util::text::char_pos(a, c);
    if p < a.len() {
        lemma_char_pos_unique(s, c, p);
        let rest = a.skip(p + 1);
        lemma_split_behind(rest, c, b);
        assert(s.take(p) =~= a.take(p));
        assert(s.skip(p + 1) =~= rest + seq![c] + b);
        assert(split_on(s, c) =~= split_on(a, c).push(b));
    } else {
        lemma_char_pos_unique(s, c, a.len() as int);
        assert(s.take(a.len() as int) =~= a);
        assert(s.skip(a.len() as int + 1) =~= b);
        lemma_split_single(b, c);
        assert(split_on(s, c) =~= split_on(a, c).push(b));
    }
}

/// The name of a file is what follows the last slash of its path; a slash at the end does not count,
/// and a path that ends by going up has no name.
pub proof fn law_file_name_is_the_last_part(dir: Seq<char>, name: Seq<char>)
    requires
        !name.contains('/'),
        name.len() > 0,
        name != "."@,
    ensures
        name != ".."@ ==> file_name_of(dir + seq!['/'] + name) == Some(name),
        name != ".."@ ==> file_name_of(name) == Some(name),
        name == ".."@ ==> file_name_of(dir + seq!['/'] + name) is None,
        file_name_of(dir + seq!['/']) == file_name_of(dir),
{
    let none = Seq::<char>::empty();
    lemma_split_behind(dir, '/', name);
    let parts = split_on(dir, '/').push(name);
    assert(parts.last() == name);
    lemma_split_single(name, '/');
    assert(seq![name].last() == name);
    lemma_split_behind(dir, '/', none);
    assert(dir + seq!['/'] + none =~= dir + seq!['/']);
    let ended = split_on(dir, '/').push(none);
    assert(ended.drop_last() =~= split_on(dir, '/'));
    assert(ended.last().len() == 0);
}

} // verus!
