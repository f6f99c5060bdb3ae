//! Character-level text functions: trimming, word splitting, prefixes and decimal numbers.
use crate::outside::text::push_char;
use vstd::prelude::*;

verus! {

/// The characters with the Unicode `White_Space` property.
pub open spec fn is_white(c: char) -> bool {
    let n = c as u32;
    ||| 9 <= n <= 13
    ||| n == 0x20
    ||| n == 0x85
    ||| n == 0xa0
    ||| n == 0x1680
    ||| 0x2000 <= n <= 0x200a
    ||| n == 0x2028
    ||| n == 0x2029
    ||| n == 0x202f
    ||| n == 0x205f
    ||| n == 0x3000
}

/// The control characters (Unicode category `Cc`).
pub open spec fn is_control(c: char) -> bool {
    let n = c as u32;
    n <= 0x1f || 0x7f <= n <= 0x9f
}

/// Whether no character of `s` is white space.
pub open spec fn no_white(s: Seq<char>) -> bool {
    forall|i: int| 0 <= i < s.len() ==> !is_white(#[trigger] s[i])
}

/// A nonempty run of characters without white space.
pub open spec fn is_word(s: Seq<char>) -> bool {
    s.len() > 0 && no_white(s)
}

/// `s` without its leading white space.
pub open spec fn trimmed_start(s: Seq<char>) -> Seq<char>
    decreases s.len(),
{
    if s.len() > 0 && is_white(s[0]) {
        trimmed_start(s.drop_first())
    } else {
        s
    }
}

/// `s` without its trailing white space.
pub open spec fn trimmed_end(s: Seq<char>) -> Seq<char>
    decreases s.len(),
{
    if s.len() > 0 && is_white(s.last()) {
        trimmed_end(s.drop_last())
    } else {
        s
    }
}

/// `s` without leading and trailing white space.
pub open spec fn trimmed(s: Seq<char>) -> Seq<char> {
    trimmed_end(trimmed_start(s))
}

/// The number of characters before the first white space of `s`.
pub open spec fn word_len(s: Seq<char>) -> int
    decreases s.len(),
{
    if s.len() == 0 || is_white(s[0]) {
        0
    } else {
        1 + word_len(s.drop_first())
    }
}

pub proof fn lemma_trimmed_start_len(s: Seq<char>)
    ensures
        trimmed_start(s).len() <= s.len(),
        trimmed_start(s).len() > 0 ==> !is_white(trimmed_start(s)[0]),
    decreases s.len(),
{
    if s.len() > 0 && is_white(s[0]) {
        lemma_trimmed_start_len(s.drop_first());
    }
}

pub proof fn lemma_word_len(s: Seq<char>)
    ensures
        0 <= word_len(s) <= s.len(),
        s.len() > 0 && !is_white(s[0]) ==> word_len(s) > 0,
        no_white(s.take(word_len(s))),
        word_len(s) < s.len() ==> is_white(s[word_len(s)]),
    decreases s.len(),
{
    if s.len() == 0 || is_white(s[0]) {
    } else {
        let r = s.drop_first();
        lemma_word_len(r);
        assert forall|i: int| 0 <= i < word_len(s) implies !is_white(
            #[trigger] s.take(word_len(s))[i],
        ) by {
            if i > 0 {
                assert(s.take(word_len(s))[i] == r.take(word_len(r))[i - 1]);
            }
        }
        if word_len(s) < s.len() {
            assert(s[word_len(s)] == r[word_len(r)]);
        }
    }
}

/// The maximal runs of non-white characters of `s`, in order.
pub open spec fn words(s: Seq<char>) -> Seq<Seq<char>>
    decreases s.len(),
{
    let t = trimmed_start(s);
    if t.len() == 0 {
        Seq::empty()
    } else {
        proof {
            lemma_trimmed_start_len(s);
            lemma_word_len(t);
        }
        seq![t.take(word_len(t))] + words(t.skip(word_len(t)))
    }
}

/// An optional text as a sequence.
pub open spec fn opt_text(v: Option<String>) -> Option<Seq<char>> {
    match v {
        Some(s) => Some(s@),
        None => None,
    }
}

/// An optional borrowed text as a sequence.
pub open spec fn opt_str(v: Option<&str>) -> Option<Seq<char>> {
    match v {
        Some(s) => Some(s@),
        None => None,
    }
}

/// Optional bytes as a sequence.
pub open spec fn opt_bytes(v: Option<Vec<u8>>) -> Option<Seq<u8>> {
    match v {
        Some(b) => Some(b@),
        None => None,
    }
}

/// What is left of `s` after the prefix `p`, when `s` starts with it.
pub open spec fn after_prefix(s: Seq<char>, p: Seq<char>) -> Option<Seq<char>> {
    if p.is_prefix_of(s) {
        Some(s.skip(p.len() as int))
    } else {
        None
    }
}

/// The index of the first `c` in `s`, or the length of `s`.
pub open spec fn char_pos(s: Seq<char>, c: char) -> int
    decreases s.len(),
{
    if s.len() == 0 || s[0] == c {
        0
    } else {
        1 + char_pos(s.drop_first(), c)
    }
}

pub proof fn lemma_char_pos(s: Seq<char>, c: char)
    ensures
        0 <= char_pos(s, c) <= s.len(),
        forall|i: int| 0 <= i < char_pos(s, c) ==> s[i] != c,
        char_pos(s, c) < s.len() ==> s[char_pos(s, c)] == c,
    decreases s.len(),
{
    if s.len() == 0 || s[0] == c {
    } else {
        let r = s.drop_first();
        lemma_char_pos(r, c);
        assert forall|i: int| 0 <= i < char_pos(s, c) implies s[i] != c by {
            if i > 0 {
                assert(s[i] == r[i - 1]);
            }
        }
        if char_pos(s, c) < s.len() {
            assert(s[char_pos(s, c)] == r[char_pos(r, c)]);
        }
    }
}

/// `char_pos` is the only index with no `c` before it that is the end of `s` or holds `c`.
pub proof fn lemma_char_pos_unique(s: Seq<char>, c: char, k: int)
    requires
        0 <= k <= s.len(),
        forall|i: int| 0 <= i < k ==> s[i] != c,
        k < s.len() ==> s[k] == c,
    ensures
        char_pos(s, c) == k,
{
    lemma_char_pos(s, c);
    let p = char_pos(s, c);
    if p < k {
        assert(s[p] != c);
    }
}

/// The pieces of `s` between the occurrences of `c`.
pub open spec fn split_on(s: Seq<char>, c: char) -> Seq<Seq<char>>
    decreases s.len(),
{
    let p = char_pos(s, c);
    if 0 <= p < s.len() {
        seq![s.take(p)] + split_on(s.skip(p + 1), c)
    } else {
        seq![s]
    }
}

/// The views of a sequence of strings.
pub open spec fn views(v: Seq<String>) -> Seq<Seq<char>> {
    v.map_values(|s: String| s@)
}

/// The decimal digit with value `d`.
pub open spec fn digit_char(d: nat) -> char {
    (('0' as u32) + d) as char
}

/// Whether `c` is one of `0` to `9`.
pub open spec fn is_digit(c: char) -> bool {
    '0' <= c && c <= '9'
}

/// The value of a decimal digit.
pub open spec fn digit_value(c: char) -> nat {
    ((c as u32) - ('0' as u32)) as nat
}

/// The decimal digits of `n`, without leading zeros.
pub open spec fn decimal(n: nat) -> Seq<char>
    decreases n,
{
    if n < 10 {
        seq![digit_char(n)]
    } else {
        decimal(n / 10).push(digit_char(n % 10))
    }
}

/// The decimal digits of `n`, with a minus sign when it is negative.
pub open spec fn signed_decimal(n: int) -> Seq<char> {
    if n < 0 {
        seq!['-'] + decimal((-n) as nat)
    } else {
        decimal(n as nat)
    }
}

/// Whether `s` consists of decimal digits.
pub open spec fn all_digits(s: Seq<char>) -> bool {
    forall|i: int| 0 <= i < s.len() ==> is_digit(#[trigger] s[i])
}

/// The number that a run of decimal digits denotes.
pub open spec fn digits_value(s: Seq<char>) -> nat
    decreases s.len(),
{
    if s.len() == 0 {
        0
    } else {
        digits_value(s.drop_last()) * 10 + digit_value(s.last())
    }
}

/// The unsigned integer up to `max` that `s` denotes: digits after an optional plus sign.
pub open spec fn parsed_unsigned(s: Seq<char>, max: nat) -> Option<nat> {
    let t = if s.len() > 0 && s[0] == '+' {
        s.drop_first()
    } else {
        s
    };
    if t.len() > 0 && all_digits(t) && digits_value(t) <= max {
        Some(digits_value(t))
    } else {
        None
    }
}

/// The 64-bit signed integer that `s` denotes: digits after an optional sign.
pub open spec fn parsed_signed(s: Seq<char>) -> Option<int> {
    if s.len() > 0 && s[0] == '-' {
        let t = s.drop_first();
        if t.len() > 0 && all_digits(t) && digits_value(t) <= -(i64::MIN as int) {
            Some(-(digits_value(t) as int))
        } else {
            None
        }
    } else {
        match parsed_unsigned(s, i64::MAX as nat) {
            Some(n) => Some(n as int),
            None => None,
        }
    }
}

/// The characters of a string.
pub fn chars_of(s: &str) -> (chars: Vec<char>)
    ensures
        chars@ == s@,
{
    let mut out: Vec<char> = Vec::new();
    for c in it: s.chars()
        invariant
            it.seq() == s@,
            out@ == s@.take(it.index()),
    {
        out.push(c);
        assert(s@.take(it.index()).push(s@[it.index()]) =~= s@.take(it.index() + 1));
    }
    assert(s@.take(s@.len() as int) =~= s@);
    out
}

/// The string with the given characters.
pub fn string_of(chars: &[char]) -> (s: String)
    ensures
        s@ == chars@,
{
    let mut out = String::new();
    let mut i: usize = 0;
    while i < chars.len()
        invariant
            i <= chars.len(),
            out@ == chars@.take(i as int),
        decreases chars.len() - i,
    {
        push_char(&mut out, chars[i]);
        assert(chars@.take(i as int).push(chars@[i as int]) =~= chars@.take(i + 1));
        i += 1;
    }
    assert(chars@.take(chars@.len() as int) =~= chars@);
    out
}

/// Whether two strings hold the same characters.
pub fn same_text(a: &str, b: &str) -> (same: bool)
    ensures
        same == (a@ == b@),
{
    let x = chars_of(a);
    let y = chars_of(b);
    same_chars(x.as_slice(), y.as_slice())
}

/// Whether two character slices are equal.
pub fn same_chars(x: &[char], y: &[char]) -> (same: bool)
    ensures
        same == (x@ == y@),
{
    if x.len() != y.len() {
        return false;
    }
    let mut i: usize = 0;
    while i < x.len()
        invariant
            i <= x.len(),
            x@.len() == y@.len(),
            forall|j: int| 0 <= j < i ==> x@[j] == y@[j],
        decreases x.len() - i,
    {
        if x[i] != y[i] {
            return false;
        }
        i += 1;
    }
    assert(x@ =~= y@);
    true
}

/// `a` followed by `b`.
pub fn joined(a: &str, b: &str) -> (s: String)
    ensures
        s@ == a@ + b@,
{
    let mut out = a.to_owned();
    out.append(b);
    out
}

/// `char::is_whitespace`, from the definition of the property.
pub fn char_is_white(c: char) -> (white: bool)
    ensures
        white == is_white(c),
{
    let n: u32 = c as u32;
    (9 <= n && n <= 13) || n == 0x20 || n == 0x85 || n == 0xa0 || n == 0x1680 || (0x2000 <= n && n
        <= 0x200a) || n == 0x2028 || n == 0x2029 || n == 0x202f || n == 0x205f || n == 0x3000
}

/// `char::is_control`, from the definition of the category.
pub fn char_is_control(c: char) -> (control: bool)
    ensures
        control == is_control(c),
{
    let n: u32 = c as u32;
    n <= 0x1f || (0x7f <= n && n <= 0x9f)
}

/// The first index at or after `from` that does not hold white space.
pub fn skip_white(chars: &[char], from: usize) -> (to: usize)
    requires
        from <= chars@.len(),
    ensures
        from <= to <= chars@.len(),
        chars@.skip(to as int) == trimmed_start(chars@.skip(from as int)),
{
    let mut i: usize = from;
    assert(chars@.skip(i as int) =~= chars@.skip(from as int));
    while i < chars.len() && char_is_white(chars[i])
        invariant
            from <= i <= chars@.len(),
            trimmed_start(chars@.skip(i as int)) == trimmed_start(chars@.skip(from as int)),
        decreases chars.len() - i,
    {
        assert(chars@.skip(i as int).drop_first() =~= chars@.skip(i + 1));
        i += 1;
    }
    i
}

/// The string without leading white space.
pub fn trim_start(s: &str) -> (t: String)
    ensures
        t@ == trimmed_start(s@),
{
    let chars = chars_of(s);
    let i = skip_white(chars.as_slice(), 0);
    assert(s@.skip(0) =~= s@);
    string_of(vstd::slice::slice_subrange(chars.as_slice(), i, chars.len()))
}

/// The string without leading and trailing white space.
pub fn trim(s: &str) -> (t: String)
    ensures
        t@ == trimmed(s@),
{
    let chars = chars_of(s);
    let i = skip_white(chars.as_slice(), 0);
    assert(s@.skip(0) =~= s@);
    let ghost t0 = s@.skip(i as int);
    let mut end: usize = chars.len();
    assert(s@.subrange(i as int, end as int) =~= t0);
    while i < end && char_is_white(chars[end - 1])
        invariant
            i <= end <= chars@.len(),
            chars@ == s@,
            trimmed_end(s@.subrange(i as int, end as int)) == trimmed_end(t0),
        decreases end,
    {
        assert(s@.subrange(i as int, end as int).drop_last() =~= s@.subrange(i as int, end - 1));
        end -= 1;
    }
    string_of(vstd::slice::slice_subrange(chars.as_slice(), i, end))
}

/// The words of a line, as `str::split_whitespace` yields them.
pub fn split_words(s: &str) -> (out: Vec<String>)
    ensures
        views(out@) == words(s@),
{
    let chars = chars_of(s);
    let mut out: Vec<String> = Vec::new();
    let mut i: usize = skip_white(chars.as_slice(), 0);
    assert(s@.skip(0) =~= s@);
    proof {
        lemma_trimmed_start_len(s@);
        lemma_words_trim(s@);
        assert(views(out@) + words(s@.skip(i as int)) =~= words(s@));
    }
    while i < chars.len()
        invariant
            i <= chars@.len(),
            chars@ == s@,
            i < chars@.len() ==> !is_white(s@[i as int]),
            views(out@) + words(s@.skip(i as int)) == words(s@),
        decreases chars.len() - i,
    {
        let ghost rest = s@.skip(i as int);
        let mut j: usize = i + 1;
        proof {
            lemma_word_len(rest);
        }
        while j < chars.len() && !char_is_white(chars[j])
            invariant
                i < j <= chars@.len(),
                chars@ == s@,
                rest == s@.skip(i as int),
                forall|k: int| i <= k < j ==> !is_white(s@[k]),
            decreases chars.len() - j,
        {
            j += 1;
        }
        proof {
            lemma_word_len_is(rest, j - i);
            assert(rest.take(j - i) =~= s@.subrange(i as int, j as int));
            assert(rest.skip(j - i) =~= s@.skip(j as int));
            assert(trimmed_start(rest) == rest);
        }
        let word = string_of(vstd::slice::slice_subrange(chars.as_slice(), i, j));
        let ghost before = out@;
        out.push(word);
        let next = skip_white(chars.as_slice(), j);
        proof {
            assert(views(out@) =~= views(before).push(word@));
            lemma_words_trim(s@.skip(j as int));
            lemma_trimmed_start_len(s@.skip(j as int));
            if next < s@.len() {
                assert(s@.skip(next as int)[0] == s@[next as int]);
            }
            assert(views(out@) + words(s@.skip(next as int)) =~= views(before) + (seq![word@]
                + words(s@.skip(j as int))));
        }
        i = next;
    }
    proof {
        assert(s@.skip(i as int) =~= Seq::<char>::empty());
        assert(words(Seq::<char>::empty()) =~= Seq::<Seq<char>>::empty());
        assert(views(out@) + Seq::<Seq<char>>::empty() =~= views(out@));
    }
    out
}

/// Leading white space does not change the words.
pub proof fn lemma_words_trim(s: Seq<char>)
    ensures
        words(trimmed_start(s)) == words(s),
{
    lemma_trimmed_start_len(s);
    assert(trimmed_start(trimmed_start(s)) == trimmed_start(s));
}

pub proof fn lemma_word_len_is(s: Seq<char>, k: int)
    requires
        0 <= k <= s.len(),
        forall|i: int| 0 <= i < k ==> !is_white(s[i]),
        k < s.len() ==> is_white(s[k]),
    ensures
        word_len(s) == k,
{
    lemma_word_len(s);
    let n = word_len(s);
    if n < k {
        assert(!is_white(s[n]));
    }
    if k < n {
        assert(s.take(n)[k] == s[k]);
    }
}

/// A word followed by white space, or by nothing, is the first of the words.
pub proof fn lemma_words_cons(w: Seq<char>, rest: Seq<char>)
    requires
        is_word(w),
        rest.len() > 0 ==> is_white(rest[0]),
    ensures
        words(w + rest) == seq![w] + words(rest),
{
    let s = w + rest;
    assert(s[0] == w[0]);
    assert forall|i: int| 0 <= i < w.len() implies !is_white(s[i]) by {
        assert(s[i] == w[i]);
    }
    if w.len() < s.len() {
        assert(s[w.len() as int] == rest[0]);
    }
    lemma_word_len_is(s, w.len() as int);
    assert(s.take(w.len() as int) =~= w);
    assert(s.skip(w.len() as int) =~= rest);
}

/// A leading blank does not change the words.
pub proof fn lemma_words_blank(rest: Seq<char>)
    ensures
        words(" "@ + rest) == words(rest),
{
    reveal_strlit(" ");
    let s = " "@ + rest;
    assert(s[0] == ' ');
    assert(s.drop_first() =~= rest);
    assert(trimmed_start(s) == trimmed_start(rest));
}

/// A word on its own.
pub proof fn lemma_words_single(w: Seq<char>)
    requires
        is_word(w),
    ensures
        words(w) == seq![w],
{
    let e = Seq::<char>::empty();
    lemma_words_cons(w, e);
    assert(w + e =~= w);
    assert(words(e) =~= Seq::<Seq<char>>::empty());
    assert(seq![w] + Seq::<Seq<char>>::empty() =~= seq![w]);
}

/// A text that neither starts nor ends with white space is left as it is.
pub proof fn lemma_trimmed_same(s: Seq<char>)
    requires
        s.len() > 0 ==> !is_white(s[0]) && !is_white(s.last()),
    ensures
        trimmed(s) == s,
{
}

/// The part of a line after a prefix.
pub fn strip_prefix(s: &str, prefix: &str) -> (rest: Option<String>)
    ensures
        match (rest, after_prefix(s@, prefix@)) {
            (Some(r), Some(v)) => r@ == v,
            (None, None) => true,
            _ => false,
        },
{
    let chars = chars_of(s);
    let head = chars_of(prefix);
    if head.len() > chars.len() {
        return None;
    }
    let start = vstd::slice::slice_subrange(chars.as_slice(), 0, head.len());
    if !same_chars(start, head.as_slice()) {
        proof {
            if prefix@.is_prefix_of(s@) {
                assert(start@ =~= prefix@);
            }
        }
        return None;
    }
    assert(prefix@ =~= s@.subrange(0, prefix@.len() as int));
    Some(string_of(vstd::slice::slice_subrange(chars.as_slice(), head.len(), chars.len())))
}

/// Whether a line starts with a prefix.
pub fn starts_with(s: &str, prefix: &str) -> (yes: bool)
    ensures
        yes == prefix@.is_prefix_of(s@),
{
    strip_prefix(s, prefix).is_some()
}

/// Whether a text stands in another.
pub open spec fn occurs(part: Seq<char>, s: Seq<char>) -> bool {
    exists|i: int| 0 <= i <= s.len() && part.is_prefix_of(#[trigger] s.skip(i))
}

/// Whether a text stands in another.
pub fn contains_part(s: &str, part: &str) -> (yes: bool)
    ensures
        yes == occurs(part@, s@),
{
    let chars = chars_of(s);
    let head = chars_of(part);
    let mut i: usize = 0;
    while i < chars.len()
        invariant
            i <= chars@.len(),
            chars@ == s@,
            head@ == part@,
            forall|k: int| 0 <= k < i ==> !part@.is_prefix_of(#[trigger] s@.skip(k)),
        decreases chars.len() - i,
    {
        if is_at(chars.as_slice(), head.as_slice(), i) {
            return true;
        }
        i += 1;
    }
    is_at(chars.as_slice(), head.as_slice(), i)
}

/// Whether a text stands at a place of another.
fn is_at(chars: &[char], part: &[char], at: usize) -> (yes: bool)
    requires
        at <= chars@.len(),
    ensures
        yes == part@.is_prefix_of(chars@.skip(at as int)),
{
    let n: usize = chars.len();
    if n - at < part.len() {
        return false;
    }
    let mut k: usize = 0;
    while k < part.len()
        invariant
            k <= part@.len(),
            n == chars@.len(),
            at + part@.len() <= n,
            forall|j: int| 0 <= j < k ==> part@[j] == chars@[at + j],
        decreases part.len() - k,
    {
        if chars[at + k] != part[k] {
            assert(chars@.skip(at as int)[k as int] != part@[k as int]);
            return false;
        }
        k += 1;
    }
    assert(part@ =~= chars@.skip(at as int).subrange(0, part@.len() as int));
    true
}

/// The texts of a list are its texts, one by one.
pub proof fn lemma_views(list: Seq<String>)
    ensures
        views(list).len() == list.len(),
        forall|k: int|
            #![trigger list[k]]
            #![trigger views(list)[k]]
            0 <= k < list.len() ==> views(list)[k] == list[k]@,
{
}

/// The index of the first `c` at or after `from`, or the length.
pub fn find_char(chars: &[char], c: char, from: usize) -> (at: usize)
    requires
        from <= chars@.len(),
    ensures
        from <= at <= chars@.len(),
        at - from == char_pos(chars@.skip(from as int), c),
{
    let mut i: usize = from;
    while i < chars.len() && chars[i] != c
        invariant
            from <= i <= chars@.len(),
            forall|k: int| from <= k < i ==> chars@[k] != c,
        decreases chars.len() - i,
    {
        i += 1;
    }
    proof {
        lemma_char_pos_unique(chars@.skip(from as int), c, i - from);
    }
    i
}

/// The pieces of a string between the occurrences of a character, as `str::split` yields them.
pub fn split_char(s: &str, c: char) -> (out: Vec<String>)
    ensures
        views(out@) == split_on(s@, c),
        out@.len() > 0,
{
    let chars = chars_of(s);
    let mut out: Vec<String> = Vec::new();
    let mut from: usize = 0;
    assert(s@.skip(0) =~= s@);
    let mut at: usize = find_char(chars.as_slice(), c, 0);
    assert(views(out@) + split_on(s@.skip(0), c) =~= split_on(s@, c));
    while at < chars.len()
        invariant
            from <= at <= chars@.len(),
            chars@ == s@,
            at - from == char_pos(s@.skip(from as int), c),
            views(out@) + split_on(s@.skip(from as int), c) == split_on(s@, c),
        decreases chars.len() - from,
    {
        let ghost rest = s@.skip(from as int);
        let piece = string_of(vstd::slice::slice_subrange(chars.as_slice(), from, at));
        let ghost before = out@;
        out.push(piece);
        proof {
            assert(piece@ =~= rest.take(at - from));
            assert(rest.skip(at - from + 1) =~= s@.skip(at + 1));
            assert(views(out@) =~= views(before).push(piece@));
            assert(views(out@) + split_on(s@.skip(at + 1), c) =~= views(before) + (seq![piece@]
                + split_on(s@.skip(at + 1), c)));
        }
        from = at + 1;
        at = find_char(chars.as_slice(), c, from);
    }
    let ghost before = out@;
    let last = string_of(vstd::slice::slice_subrange(chars.as_slice(), from, chars.len()));
    out.push(last);
    proof {
        assert(last@ =~= s@.skip(from as int));
        assert(views(out@) =~= views(before).push(last@));
        assert(views(before) + seq![last@] =~= views(before).push(last@));
    }
    out
}

/// A text without `c` is its own only piece.
pub proof fn lemma_split_single(s: Seq<char>, c: char)
    requires
        !s.contains(c),
    ensures
        split_on(s, c) == seq![s],
{
    lemma_char_pos_unique(s, c, s.len() as int);
}

/// The first piece ends at the first `c`.
pub proof fn lemma_split_cons(a: Seq<char>, c: char, rest: Seq<char>)
    requires
        !a.contains(c),
    ensures
        split_on(a + seq![c] + rest, c) == seq![a] + split_on(rest, c),
        char_pos(a + seq![c] + rest, c) == a.len(),
{
    let s = a + seq![c] + rest;
    assert forall|i: int| 0 <= i < a.len() implies s[i] != c by {
        assert(s[i] == a[i]);
        assert(a.contains(a[i]));
    }
    lemma_char_pos_unique(s, c, a.len() as int);
    assert(s.take(a.len() as int) =~= a);
    assert(s.skip(a.len() as int + 1) =~= rest);
}

pub proof fn lemma_digit_char(d: nat)
    requires
        d < 10,
    ensures
        is_digit(digit_char(d)),
        digit_value(digit_char(d)) == d,
        !is_white(digit_char(d)),
{
}

/// A number's decimal digits denote it.
pub proof fn lemma_decimal(n: nat)
    ensures
        decimal(n).len() > 0,
        all_digits(decimal(n)),
        digits_value(decimal(n)) == n,
        is_word(decimal(n)),
    decreases n,
{
    if n < 10 {
        reveal_with_fuel(digits_value, 2);
        lemma_digit_char(n);
        assert(decimal(n).drop_last() =~= Seq::<char>::empty());
    } else {
        lemma_decimal(n / 10);
        lemma_digit_char(n % 10);
        assert(decimal(n).drop_last() =~= decimal(n / 10));
    }
}

/// Reading back an unsigned decimal number.
pub proof fn lemma_parse_decimal(n: nat, max: nat)
    requires
        n <= max,
    ensures
        parsed_unsigned(decimal(n), max) == Some(n),
{
    lemma_decimal(n);
    assert(is_digit(decimal(n)[0]));
}

/// Reading back a signed decimal number.
pub proof fn lemma_parse_signed(n: int)
    requires
        i64::MIN <= n <= i64::MAX,
    ensures
        parsed_signed(signed_decimal(n)) == Some(n),
        is_word(signed_decimal(n)),
{
    if n < 0 {
        lemma_decimal((-n) as nat);
        assert(signed_decimal(n).drop_first() =~= decimal((-n) as nat));
        assert(
            forall|i: int| 1 <= i < signed_decimal(n).len()
                ==> signed_decimal(n)[i] == decimal((-n) as nat)[i - 1]
        );
    } else {
        lemma_decimal(n as nat);
        assert(is_digit(decimal(n as nat)[0]));
        lemma_parse_decimal(n as nat, i64::MAX as nat);
    }
}

/// The decimal digits of an unsigned number.
pub fn decimal_text(n: u64) -> (s: String)
    ensures
        s@ == decimal(n as nat),
{
    let mut rev: Vec<char> = Vec::new();
    let mut m: u64 = n;
    let ghost mut tail: Seq<char> = Seq::empty();
    assert(decimal(n as nat) + tail =~= decimal(n as nat));
    while m >= 10
        invariant
            decimal(m as nat) + tail == decimal(n as nat),
            tail == rev@.reverse(),
        decreases m,
    {
        let d: u32 = (m % 10) as u32;
        let c: char = digit(d);
        proof {
            let old_tail = tail;
            tail = seq![c] + tail;
            assert(decimal(m as nat) == decimal((m / 10) as nat).push(c));
            assert(decimal((m / 10) as nat) + tail =~= decimal(m as nat) + old_tail);
        }
        rev.push(c);
        assert(rev@.reverse() =~= tail);
        m = m / 10;
    }
    let c: char = digit(m as u32);
    rev.push(c);
    let mut out = String::new();
    let mut i: usize = rev.len();
    while i > 0
        invariant
            i <= rev@.len(),
            out@ == rev@.reverse().take(rev@.len() - i),
        decreases i,
    {
        i -= 1;
        push_char(&mut out, rev[i]);
        assert(rev@.reverse().take(rev@.len() - i - 1).push(rev@[i as int]) =~= rev@.reverse().take(
            rev@.len() - i,
        ));
    }
    proof {
        assert(rev@.reverse() =~= decimal(m as nat) + tail);
        assert(out@ =~= rev@.reverse());
    }
    out
}

fn digit(d: u32) -> (c: char)
    requires
        d < 10,
    ensures
        c == digit_char(d as nat),
{
    match d {
        0 => '0',
        1 => '1',
        2 => '2',
        3 => '3',
        4 => '4',
        5 => '5',
        6 => '6',
        7 => '7',
        8 => '8',
        _ => '9',
    }
}

/// The decimal digits of a signed number, with its sign when it is negative.
pub fn signed_text(n: i64) -> (s: String)
    ensures
        s@ == signed_decimal(n as int),
{
    if n < 0 {
        let m: u64 = if n == i64::MIN {
            0x8000_0000_0000_0000u64
        } else {
            (-n) as u64
        };
        let mut out = String::new();
        push_char(&mut out, '-');
        let digits = decimal_text(m);
        out.append(digits.as_str());
        assert(out@ =~= signed_decimal(n as int));
        out
    } else {
        decimal_text(n as u64)
    }
}

/// A longer run of digits denotes no smaller number.
proof fn lemma_digits_monotone(s: Seq<char>, i: int)
    requires
        0 <= i <= s.len(),
    ensures
        digits_value(s.take(i)) <= digits_value(s),
    decreases s.len(),
{
    if i == s.len() {
        assert(s.take(i) =~= s);
    } else {
        lemma_digits_monotone(s.drop_last(), i);
        assert(s.drop_last().take(i) =~= s.take(i));
    }
}

/// The value of a nonempty run of digits, when it is at most `max`.
fn digits_to_number(chars: &[char], from: usize, max: u64) -> (n: Option<u64>)
    requires
        from <= chars@.len(),
    ensures
        ({
            let t = chars@.skip(from as int);
            match n {
                Some(v) => t.len() > 0 && all_digits(t) && digits_value(t) == v && v <= max,
                None => !(t.len() > 0 && all_digits(t) && digits_value(t) <= max),
            }
        }),
{
    let ghost t = chars@.skip(from as int);
    if from == chars.len() {
        return None;
    }
    let mut acc: u64 = 0;
    let mut i: usize = from;
    while i < chars.len()
        invariant
            from <= i <= chars@.len(),
            t == chars@.skip(from as int),
            all_digits(t.take(i - from)),
            digits_value(t.take(i - from)) == acc,
            acc <= max,
        decreases chars.len() - i,
    {
        let c = chars[i];
        assert(t[i - from] == c);
        if !('0' <= c && c <= '9') {
            return None;
        }
        let d: u64 = (c as u32 - '0' as u32) as u64;
        proof {
            let u = t.take(i - from + 1);
            assert(u.drop_last() =~= t.take(i - from));
            assert(digits_value(u) == acc * 10 + d);
            lemma_digits_monotone(t, i - from + 1);
            assert forall|k: int| 0 <= k < u.len() implies is_digit(#[trigger] u[k]) by {
                if k < i - from {
                    assert(u[k] == t.take(i - from)[k]);
                }
            }
        }
        if acc > u64::MAX / 10 {
            return None;
        }
        let scaled: u64 = acc * 10;
        if scaled > u64::MAX - d {
            return None;
        }
        acc = scaled + d;
        if acc > max {
            return None;
        }
        i += 1;
    }
    assert(t.take(t.len() as int) =~= t);
    Some(acc)
}

/// Reads an unsigned decimal number as `str::parse` does.
pub fn parse_unsigned(s: &str, max: u64) -> (n: Option<u64>)
    ensures
        match (n, parsed_unsigned(s@, max as nat)) {
            (Some(v), Some(m)) => v == m,
            (None, None) => true,
            _ => false,
        },
{
    let chars = chars_of(s);
    let from: usize = if chars.len() > 0 && chars[0] == '+' {
        1
    } else {
        0
    };
    assert(s@.skip(0) =~= s@);
    assert(s@.len() > 0 ==> s@.skip(1) =~= s@.drop_first());
    digits_to_number(chars.as_slice(), from, max)
}

/// Reads a `u64` as `str::parse` does.
pub fn parse_u64(s: &str) -> (n: Option<u64>)
    ensures
        match (n, parsed_unsigned(s@, u64::MAX as nat)) {
            (Some(v), Some(m)) => v == m,
            (None, None) => true,
            _ => false,
        },
{
    parse_unsigned(s, u64::MAX)
}

/// Reads a `usize` as `str::parse` does.
pub fn parse_usize(s: &str) -> (n: Option<usize>)
    ensures
        match (n, parsed_unsigned(s@, usize::MAX as nat)) {
            (Some(v), Some(m)) => v == m,
            (None, None) => true,
            _ => false,
        },
{
    match parse_unsigned(s, usize::MAX as u64) {
        Some(v) => Some(v as usize),
        None => None,
    }
}

/// Reads an `i64` as `str::parse` does.
pub fn parse_i64(s: &str) -> (n: Option<i64>)
    ensures
        match (n, parsed_signed(s@)) {
            (Some(v), Some(m)) => v == m,
            (None, None) => true,
            _ => false,
        },
{
    let chars = chars_of(s);
    if chars.len() > 0 && chars[0] == '-' {
        assert(s@.skip(1) =~= s@.drop_first());
        match digits_to_number(chars.as_slice(), 1, 0x8000_0000_0000_0000u64) {
            Some(v) => {
                if v == 0x8000_0000_0000_0000u64 {
                    Some(i64::MIN)
                } else {
                    Some(-(v as i64))
                }
            },
            None => None,
        }
    } else {
        match parse_unsigned(s, i64::MAX as u64) {
            Some(v) => Some(v as i64),
            None => None,
        }
    }
}

/// The part of a string without leading and trailing white space.
pub fn trim_ref<'a>(s: &'a str) -> (t: &'a str)
    ensures
        t@ == trimmed(s@),
{
    let chars = chars_of(s);
    let i = skip_white(chars.as_slice(), 0);
    assert(s@.skip(0) =~= s@);
    let ghost t0 = s@.skip(i as int);
    let mut end: usize = chars.len();
    assert(s@.subrange(i as int, end as int) =~= t0);
    while i < end && char_is_white(chars[end - 1])
        invariant
            i <= end <= chars@.len(),
            chars@ == s@,
            trimmed_end(s@.subrange(i as int, end as int)) == trimmed_end(t0),
        decreases end,
    {
        assert(s@.subrange(i as int, end as int).drop_last() =~= s@.subrange(i as int, end - 1));
        end -= 1;
    }
    s.substring_char(i, end)
}

/// The part of a string without trailing white space.
pub fn trim_end_ref<'a>(s: &'a str) -> (t: &'a str)
    ensures
        t@ == trimmed_end(s@),
{
    let chars = chars_of(s);
    let mut end: usize = chars.len();
    assert(s@.subrange(0, end as int) =~= s@);
    while 0 < end && char_is_white(chars[end - 1])
        invariant
            end <= chars@.len(),
            chars@ == s@,
            trimmed_end(s@.subrange(0, end as int)) == trimmed_end(s@),
        decreases end,
    {
        assert(s@.subrange(0, end as int).drop_last() =~= s@.subrange(0, end - 1));
        end -= 1;
    }
    s.substring_char(0, end)
}

/// The part of a line after a prefix.
pub fn strip_prefix_ref<'a>(s: &'a str, prefix: &str) -> (rest: Option<&'a str>)
    ensures
        match (rest, after_prefix(s@, prefix@)) {
            (Some(r), Some(v)) => r@ == v,
            (None, None) => true,
            _ => false,
        },
{
    if !starts_with(s, prefix) {
        return None;
    }
    let n = prefix.unicode_len();
    let m = s.unicode_len();
    let rest = s.substring_char(n, m);
    assert(rest@ =~= s@.skip(prefix@.len() as int));
    Some(rest)
}

/// The value of a line after a prefix: what follows, trimmed, unless nothing is left.
pub open spec fn value_after(line: Seq<char>, prefix: Seq<char>) -> Option<Seq<char>> {
    match after_prefix(line, prefix) {
        Some(rest) => if trimmed(rest).len() > 0 {
            Some(trimmed(rest))
        } else {
            None
        },
        None => None,
    }
}

/// The value of a line after a prefix.
pub fn trimmed_after<'a>(line: &'a str, prefix: &str) -> (value: Option<&'a str>)
    ensures
        match (value, value_after(line@, prefix@)) {
            (Some(o), Some(v)) => o@ == v,
            (None, None) => true,
            _ => false,
        },
{
    match strip_prefix_ref(line, prefix) {
        Some(rest) => {
            let value = trim_ref(rest);
            if value.unicode_len() == 0 {
                None
            } else {
                Some(value)
            }
        },
        None => None,
    }
}

/// A word behind a prefix is the value of the line.
pub proof fn lemma_value_after(prefix: Seq<char>, w: Seq<char>)
    requires
        is_word(w),
    ensures
        value_after(prefix + w, prefix) == Some(w),
{
    let line = prefix + w;
    assert(line.skip(prefix.len() as int) =~= w);
    assert(prefix =~= line.subrange(0, prefix.len() as int));
    lemma_trimmed_same(w);
}

/// The `u64` that a word denotes.
pub open spec fn read_u64(w: Seq<char>) -> Option<u64> {
    match parsed_unsigned(w, u64::MAX as nat) {
        Some(n) => Some(n as u64),
        None => None,
    }
}

/// The `usize` that a word denotes.
pub open spec fn read_usize(w: Seq<char>) -> Option<usize> {
    match parsed_unsigned(w, usize::MAX as nat) {
        Some(n) => Some(n as usize),
        None => None,
    }
}

/// The `i64` that a word denotes.
pub open spec fn read_i64(w: Seq<char>) -> Option<i64> {
    match parsed_signed(w) {
        Some(n) => Some(n as i64),
        None => None,
    }
}

} // verus!
