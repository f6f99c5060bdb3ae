//! What the shown forms of the code tell.
use crate::crypto::safety::{
    digit_code, emoji_code, emoji_text, five_digits, law_member_bytes_tell_members_apart,
    member_bytes, pair_value, plain_member,
};
use crate::protocol::member::IdentityView;
use crate::util::codec::lemma_split_joined;
use crate::util::text::{all_digits, digit_value, digits_value, split_on};
use vstd::prelude::*;

verus! {

/// The number of the symbol that begins with a character.
pub open spec fn symbol_number(c: char) -> int {
    match c {
        '🦊' => 0,
        '🌙' => 1,
        '🧊' => 2,
        '🍀' => 3,
        '🦀' => 4,
        '🌊' => 5,
        '🔥' => 6,
        '🌿' => 7,
        '⭐' => 8,
        '🍎' => 9,
        '🛰' => 10,
        '🪨' => 11,
        '🐳' => 12,
        '🌻' => 13,
        '🍋' => 14,
        '🦉' => 15,
        '🌈' => 16,
        '🍁' => 17,
        '🫐' => 18,
        '⚙' => 19,
        '🧭' => 20,
        '🥝' => 21,
        '🐼' => 22,
        '🌵' => 23,
        '🍄' => 24,
        '🦋' => 25,
        '☁' => 26,
        '🌺' => 27,
        '🐧' => 28,
        '🌲' => 29,
        '🍇' => 30,
        '🌞' => 31,
        '🪐' => 32,
        '🥥' => 33,
        '🦜' => 34,
        '🌼' => 35,
        '🍓' => 36,
        '🐢' => 37,
        '🌪' => 38,
        '🫧' => 39,
        '🐝' => 40,
        '🍉' => 41,
        '🌴' => 42,
        '❄' => 43,
        '🦌' => 44,
        '🌸' => 45,
        '🍒' => 46,
        '🐬' => 47,
        '🌅' => 48,
        '🥑' => 49,
        '🦔' => 50,
        '🌱' => 51,
        '🍐' => 52,
        '🐙' => 53,
        '🌌' => 54,
        '🪵' => 55,
        '🍊' => 56,
        '🦝' => 57,
        '🌾' => 58,
        '🫚' => 59,
        '🍍' => 60,
        '🐚' => 61,
        '🌧' => 62,
        _ => 63,
    }
}

/// A symbol has a character of its own in front, and no blank in it.
#[verifier::spinoff_prover]
#[verifier::rlimit(40)]
proof fn lemma_symbol(index: u8)
    requires
        index < 64,
    ensures
        emoji_text(index).len() > 0,
        symbol_number(emoji_text(index)[0]) == index,
        !emoji_text(index).contains(' '),
{
    if index == 0 {
        reveal_strlit("🦊");
    } else if index == 1 {
        reveal_strlit("🌙");
    } else if index == 2 {
        reveal_strlit("🧊");
    } else if index == 3 {
        reveal_strlit("🍀");
    } else if index == 4 {
        reveal_strlit("🦀");
    } else if index == 5 {
        reveal_strlit("🌊");
    } else if index == 6 {
        reveal_strlit("🔥");
    } else if index == 7 {
        reveal_strlit("🌿");
    } else if index == 8 {
        reveal_strlit("⭐");
    } else if index == 9 {
        reveal_strlit("🍎");
    } else if index == 10 {
        reveal_strlit("🛰");
    } else if index == 11 {
        reveal_strlit("🪨");
    } else if index == 12 {
        reveal_strlit("🐳");
    } else if index == 13 {
        reveal_strlit("🌻");
    } else if index == 14 {
        reveal_strlit("🍋");
    } else if index == 15 {
        reveal_strlit("🦉");
    } else if index == 16 {
        reveal_strlit("🌈");
    } else if index == 17 {
        reveal_strlit("🍁");
    } else if index == 18 {
        reveal_strlit("🫐");
    } else if index == 19 {
        reveal_strlit("⚙️");
    } else if index == 20 {
        reveal_strlit("🧭");
    } else if index == 21 {
        reveal_strlit("🥝");
    } else if index == 22 {
        reveal_strlit("🐼");
    } else if index == 23 {
        reveal_strlit("🌵");
    } else if index == 24 {
        reveal_strlit("🍄");
    } else if index == 25 {
        reveal_strlit("🦋");
    } else if index == 26 {
        reveal_strlit("☁️");
    } else if index == 27 {
        reveal_strlit("🌺");
    } else if index == 28 {
        reveal_strlit("🐧");
    } else if index == 29 {
        reveal_strlit("🌲");
    } else if index == 30 {
        reveal_strlit("🍇");
    } else if index == 31 {
        reveal_strlit("🌞");
    } else if index == 32 {
        reveal_strlit("🪐");
    } else if index == 33 {
        reveal_strlit("🥥");
    } else if index == 34 {
        reveal_strlit("🦜");
    } else if index == 35 {
        reveal_strlit("🌼");
    } else if index == 36 {
        reveal_strlit("🍓");
    } else if index == 37 {
        reveal_strlit("🐢");
    } else if index == 38 {
        reveal_strlit("🌪");
    } else if index == 39 {
        reveal_strlit("🫧");
    } else if index == 40 {
        reveal_strlit("🐝");
    } else if index == 41 {
        reveal_strlit("🍉");
    } else if index == 42 {
        reveal_strlit("🌴");
    } else if index == 43 {
        reveal_strlit("❄️");
    } else if index == 44 {
        reveal_strlit("🦌");
    } else if index == 45 {
        reveal_strlit("🌸");
    } else if index == 46 {
        reveal_strlit("🍒");
    } else if index == 47 {
        reveal_strlit("🐬");
    } else if index == 48 {
        reveal_strlit("🌅");
    } else if index == 49 {
        reveal_strlit("🥑");
    } else if index == 50 {
        reveal_strlit("🦔");
    } else if index == 51 {
        reveal_strlit("🌱");
    } else if index == 52 {
        reveal_strlit("🍐");
    } else if index == 53 {
        reveal_strlit("🐙");
    } else if index == 54 {
        reveal_strlit("🌌");
    } else if index == 55 {
        reveal_strlit("🪵");
    } else if index == 56 {
        reveal_strlit("🍊");
    } else if index == 57 {
        reveal_strlit("🦝");
    } else if index == 58 {
        reveal_strlit("🌾");
    } else if index == 59 {
        reveal_strlit("🫚");
    } else if index == 60 {
        reveal_strlit("🍍");
    } else if index == 61 {
        reveal_strlit("🐚");
    } else if index == 62 {
        reveal_strlit("🌧");
    } else {
        reveal_strlit("🪻");
    }
}

/// The four symbols of a code, read one by one, give the first four bytes of the hash modulo
/// sixty-four.
pub proof fn law_symbols_show_the_hash(hash: Seq<u8>)
    requires
        hash.len() == 32,
    ensures
        split_on(emoji_code(hash), ' ').len() == 4,
        forall|i: int|
            0 <= i < 4 ==> {
                let symbol = #[trigger] split_on(emoji_code(hash), ' ')[i];
                &&& symbol.len() > 0
                &&& symbol_number(symbol[0]) == hash[i] % 64
            },
{
    let parts = Seq::new(4, |i: int| emoji_text(hash[i] % 64));
    assert forall|i: int| 0 <= i < parts.len() implies !(#[trigger] parts[i]).contains(' ') by {
        lemma_symbol(hash[i] % 64);
    }
    reveal_strlit(" ");
    assert(" "@ =~= seq![' ']);
    lemma_split_joined(parts, ' ');
    assert forall|i: int| 0 <= i < 4 implies {
        let symbol = #[trigger] split_on(emoji_code(hash), ' ')[i];
        &&& symbol.len() > 0
        &&& symbol_number(symbol[0]) == hash[i] % 64
    } by {
        assert(split_on(emoji_code(hash), ' ')[i] == emoji_text(hash[i] % 64));
        lemma_symbol(hash[i] % 64);
    }
}

/// The symbols tell hashes apart: two codes look the same exactly when the hashes agree modulo
/// sixty-four in each of their first four bytes.
pub proof fn law_symbols_tell_hashes_apart(a: Seq<u8>, b: Seq<u8>)
    requires
        a.len() == 32,
        b.len() == 32,
    ensures
        emoji_code(a) == emoji_code(b) <==> forall|i: int|
            0 <= i < 4 ==> #[trigger] a[i] % 64 == #[trigger] b[i] % 64,
{
    law_symbols_show_the_hash(a);
    law_symbols_show_the_hash(b);
    if emoji_code(a) == emoji_code(b) {
        assert forall|i: int| 0 <= i < 4 implies #[trigger] a[i] % 64 == #[trigger] b[i] % 64 by {
            let symbol = split_on(emoji_code(a), ' ')[i];
            assert(symbol_number(symbol[0]) == a[i] % 64);
            assert(symbol == split_on(emoji_code(b), ' ')[i]);
        }
    } else if forall|i: int| 0 <= i < 4 ==> #[trigger] a[i] % 64 == #[trigger] b[i] % 64 {
        assert(Seq::new(4, |i: int| emoji_text(a[i] % 64)) =~= Seq::new(
            4,
            |i: int| emoji_text(b[i] % 64),
        ));
    }
}

/// Five digits denote the number that they were made of.
proof fn lemma_five_digits(n: nat)
    requires
        n < 100000,
    ensures
        five_digits(n).len() == 5,
        all_digits(five_digits(n)),
        digits_value(five_digits(n)) == n,
        !five_digits(n).contains(' '),
{
    let s = five_digits(n);
    reveal_with_fuel(digits_value, 6);
    let d4 = s.drop_last();
    let d3 = d4.drop_last();
    let d2 = d3.drop_last();
    let d1 = d2.drop_last();
    assert(digit_value(s[0]) == n / 10000 % 10);
    assert(digit_value(s[1]) == n / 1000 % 10);
    assert(digit_value(s[2]) == n / 100 % 10);
    assert(digit_value(s[3]) == n / 10 % 10);
    assert(digit_value(s[4]) == n % 10);
    assert(d1.drop_last() =~= Seq::<char>::empty());
    assert(digits_value(d1) == n / 10000);
    assert(digits_value(d2) == n / 1000);
    assert(digits_value(d3) == n / 100);
    assert(digits_value(d4) == n / 10);
}

/// The six groups of a code are five digits each, and read as numbers they are the first twelve
/// bytes of the hash, two by two.
pub proof fn law_digits_show_the_hash(hash: Seq<u8>)
    requires
        hash.len() == 32,
    ensures
        split_on(digit_code(hash), ' ').len() == 6,
        forall|i: int|
            0 <= i < 6 ==> {
                let group = #[trigger] split_on(digit_code(hash), ' ')[i];
                &&& group.len() == 5
                &&& all_digits(group)
                &&& digits_value(group) / 256 == hash[2 * i]
                &&& digits_value(group) % 256 == hash[2 * i + 1]
            },
{
    let parts = Seq::new(6, |i: int| five_digits(pair_value(hash, i)));
    assert forall|i: int| 0 <= i < parts.len() implies !(#[trigger] parts[i]).contains(' ') by {
        lemma_five_digits(pair_value(hash, i));
    }
    reveal_strlit(" ");
    assert(" "@ =~= seq![' ']);
    lemma_split_joined(parts, ' ');
    assert forall|i: int| 0 <= i < 6 implies {
        let group = #[trigger] split_on(digit_code(hash), ' ')[i];
        &&& group.len() == 5
        &&& all_digits(group)
        &&& digits_value(group) / 256 == hash[2 * i]
        &&& digits_value(group) % 256 == hash[2 * i + 1]
    } by {
        assert(split_on(digit_code(hash), ' ')[i] == five_digits(pair_value(hash, i)));
        lemma_five_digits(pair_value(hash, i));
    }
}

/// The digits tell hashes apart: two codes look the same exactly when the first twelve bytes of the
/// hashes are the same.
pub proof fn law_digits_tell_hashes_apart(a: Seq<u8>, b: Seq<u8>)
    requires
        a.len() == 32,
        b.len() == 32,
    ensures
        digit_code(a) == digit_code(b) <==> a.take(12) == b.take(12),
{
    law_digits_show_the_hash(a);
    law_digits_show_the_hash(b);
    if digit_code(a) == digit_code(b) {
        assert forall|k: int| 0 <= k < 12 implies #[trigger] a.take(12)[k] == b.take(12)[k] by {
            let i = k / 2;
            let group = split_on(digit_code(a), ' ')[i];
            assert(group == split_on(digit_code(b), ' ')[i]);
            assert(a[2 * i] == b[2 * i] && a[2 * i + 1] == b[2 * i + 1]);
            assert(k == 2 * i || k == 2 * i + 1);
        }
        assert(a.take(12) =~= b.take(12));
    } else if a.take(12) == b.take(12) {
        assert forall|i: int| 0 <= i < 6 implies pair_value(a, i) == #[trigger] pair_value(
            b,
            i,
        ) by {
            assert(a.take(12)[2 * i] == a[2 * i] && b.take(12)[2 * i] == b[2 * i]);
            assert(a.take(12)[2 * i + 1] == a[2 * i + 1] && b.take(12)[2 * i + 1] == b[2 * i + 1]);
        }
        assert(Seq::new(6, |i: int| five_digits(pair_value(a, i))) =~= Seq::new(
            6,
            |i: int| five_digits(pair_value(b, i)),
        ));
    }
}

/// A member of a room enters the code with its identifier and its nickname: different members enter
/// it differently, and have different bytes in it.
pub proof fn law_members_enter_the_code(a: IdentityView, b: IdentityView)
    requires
        member_bytes(plain_member(a)).len() <= u32::MAX,
        member_bytes(plain_member(b)).len() <= u32::MAX,
    ensures
        plain_member(a) == plain_member(b) <==> a == b,
        member_bytes(plain_member(a)) == member_bytes(plain_member(b)) <==> a == b,
{
    if member_bytes(plain_member(a)) == member_bytes(plain_member(b)) {
        law_member_bytes_tell_members_apart(plain_member(a), plain_member(b));
    }
    if plain_member(a) == plain_member(b) {
        assert(a.member_id == b.member_id);
        assert(plain_member(a).nickname->0 == plain_member(b).nickname->0);
    }
}

} // verus!
