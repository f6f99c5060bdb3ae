//! Lexicographic order on texts and bytes, and sorting by it.
use vstd::prelude::*;
use vstd::relations::{sorted_by, total_ordering};

verus! {

/// Lexicographic order on sequences of numbers.
pub open spec fn lex_leq(a: Seq<int>, b: Seq<int>) -> bool
    decreases a.len(),
{
    a.len() == 0 || (b.len() > 0 && (a[0] < b[0] || (a[0] == b[0] && lex_leq(
        a.drop_first(),
        b.drop_first(),
    ))))
}

/// The code points of a text.
pub open spec fn codes(s: Seq<char>) -> Seq<int> {
    s.map_values(|c: char| c as int)
}

/// The values of bytes.
pub open spec fn byte_values(s: Seq<u8>) -> Seq<int> {
    s.map_values(|b: u8| b as int)
}

/// The order of `str`: by code points.
pub open spec fn str_leq(a: Seq<char>, b: Seq<char>) -> bool {
    lex_leq(codes(a), codes(b))
}

/// The order of byte slices.
pub open spec fn bytes_leq(a: Seq<u8>, b: Seq<u8>) -> bool {
    lex_leq(byte_values(a), byte_values(b))
}

/// By the bytes first, by the text among equal bytes.
pub open spec fn ranked_leq(a: (Seq<u8>, Seq<char>), b: (Seq<u8>, Seq<char>)) -> bool {
    if a.0 == b.0 {
        str_leq(a.1, b.1)
    } else {
        bytes_leq(a.0, b.0)
    }
}

pub open spec fn str_order() -> spec_fn(Seq<char>, Seq<char>) -> bool {
    |a: Seq<char>, b: Seq<char>| str_leq(a, b)
}

pub open spec fn ranked_order() -> spec_fn(
    (Seq<u8>, Seq<char>),
    (Seq<u8>, Seq<char>),
) -> bool {
    |a: (Seq<u8>, Seq<char>), b: (Seq<u8>, Seq<char>)| ranked_leq(a, b)
}

/// The texts in ascending order.
pub open spec fn sorted_texts(texts: Seq<Seq<char>>) -> Seq<Seq<char>> {
    texts.sort_by(str_order())
}

pub proof fn lemma_lex_reflexive(a: Seq<int>)
    ensures
        lex_leq(a, a),
    decreases a.len(),
{
    if a.len() > 0 {
        lemma_lex_reflexive(a.drop_first());
    }
}

pub proof fn lemma_lex_antisymmetric(a: Seq<int>, b: Seq<int>)
    requires
        lex_leq(a, b),
        lex_leq(b, a),
    ensures
        a == b,
    decreases a.len(),
{
    if a.len() == 0 {
        assert(a =~= b);
    } else {
        lemma_lex_antisymmetric(a.drop_first(), b.drop_first());
        assert(a =~= seq![a[0]] + a.drop_first());
        assert(b =~= seq![b[0]] + b.drop_first());
    }
}

pub proof fn lemma_lex_transitive(a: Seq<int>, b: Seq<int>, c: Seq<int>)
    requires
        lex_leq(a, b),
        lex_leq(b, c),
    ensures
        lex_leq(a, c),
    decreases a.len(),
{
    if a.len() > 0 && a[0] == b[0] && b[0] == c[0] {
        lemma_lex_transitive(a.drop_first(), b.drop_first(), c.drop_first());
    }
}

pub proof fn lemma_lex_total(a: Seq<int>, b: Seq<int>)
    ensures
        lex_leq(a, b) || lex_leq(b, a),
    decreases a.len(),
{
    if a.len() > 0 && b.len() > 0 && a[0] == b[0] {
        lemma_lex_total(a.drop_first(), b.drop_first());
    }
}

pub proof fn lemma_codes_injective(a: Seq<char>, b: Seq<char>)
    requires
        codes(a) == codes(b),
    ensures
        a == b,
{
    assert(a.len() == codes(a).len());
    assert forall|i: int| 0 <= i < a.len() implies a[i] == b[i] by {
        assert(codes(b).len() == b.len());
        assert(codes(a)[i] == a[i] as int);
        assert(codes(b)[i] == b[i] as int);
    }
    assert(a =~= b);
}

pub proof fn lemma_byte_values_injective(a: Seq<u8>, b: Seq<u8>)
    requires
        byte_values(a) == byte_values(b),
    ensures
        a == b,
{
    assert(a.len() == byte_values(a).len());
    assert forall|i: int| 0 <= i < a.len() implies a[i] == b[i] by {
        assert(byte_values(b).len() == b.len());
        assert(byte_values(a)[i] == a[i] as int);
        assert(byte_values(b)[i] == b[i] as int);
    }
    assert(a =~= b);
}

pub proof fn lemma_str_order_total()
    ensures
        total_ordering(str_order()),
{
    let leq = str_order();
    assert forall|a: Seq<char>| #[trigger] leq(a, a) by {
        lemma_lex_reflexive(codes(a));
    }
    assert forall|a: Seq<char>, b: Seq<char>| #[trigger] leq(a, b) && #[trigger] leq(b, a) implies a
        == b by {
        lemma_lex_antisymmetric(codes(a), codes(b));
        lemma_codes_injective(a, b);
    }
    assert forall|a: Seq<char>, b: Seq<char>, c: Seq<char>| #[trigger]
        leq(a, b) && #[trigger] leq(b, c) implies leq(a, c) by {
        lemma_lex_transitive(codes(a), codes(b), codes(c));
    }
    assert forall|a: Seq<char>, b: Seq<char>| #[trigger] leq(a, b) || #[trigger] leq(b, a) by {
        lemma_lex_total(codes(a), codes(b));
    }
}

pub proof fn lemma_ranked_order_total()
    ensures
        total_ordering(ranked_order()),
{
    let leq = ranked_order();
    lemma_str_order_total();
    assert forall|a: (Seq<u8>, Seq<char>)| #[trigger] leq(a, a) by {
        lemma_lex_reflexive(codes(a.1));
    }
    assert forall|a: (Seq<u8>, Seq<char>), b: (Seq<u8>, Seq<char>)| #[trigger]
        leq(a, b) && #[trigger] leq(b, a) implies a == b by {
        if a.0 == b.0 {
            lemma_lex_antisymmetric(codes(a.1), codes(b.1));
            lemma_codes_injective(a.1, b.1);
        } else {
            lemma_lex_antisymmetric(byte_values(a.0), byte_values(b.0));
            lemma_byte_values_injective(a.0, b.0);
        }
    }
    assert forall|
        a: (Seq<u8>, Seq<char>),
        b: (Seq<u8>, Seq<char>),
        c: (Seq<u8>, Seq<char>),
    | #[trigger] leq(a, b) && #[trigger] leq(b, c) implies leq(a, c) by {
        if a.0 == b.0 && b.0 == c.0 {
            lemma_lex_transitive(codes(a.1), codes(b.1), codes(c.1));
        } else if a.0 != b.0 && b.0 != c.0 {
            lemma_lex_transitive(byte_values(a.0), byte_values(b.0), byte_values(c.0));
            if a.0 == c.0 {
                lemma_lex_antisymmetric(byte_values(a.0), byte_values(b.0));
                lemma_byte_values_injective(a.0, b.0);
            }
        }
    }
    assert forall|a: (Seq<u8>, Seq<char>), b: (Seq<u8>, Seq<char>)| #[trigger]
        leq(a, b) || #[trigger] leq(b, a) by {
        lemma_lex_total(codes(a.1), codes(b.1));
        lemma_lex_total(byte_values(a.0), byte_values(b.0));
    }
}

/// A value that is sorted by a key with a total order.
pub trait Ordered: Sized {
    type Key;

    spec fn key(&self) -> Self::Key;

    spec fn order() -> spec_fn(Self::Key, Self::Key) -> bool;

    proof fn order_is_total()
        ensures
            total_ordering(Self::order()),
    ;

    fn at_most(&self, other: &Self) -> (leq: bool)
        ensures
            leq == Self::order()(self.key(), other.key()),
    ;
}

/// A text with bytes that it is ranked by.
pub struct Ranked {
    pub rank: Vec<u8>,
    pub text: String,
}

/// Whether one byte slice is at most another.
pub fn bytes_at_most(a: &[u8], b: &[u8]) -> (leq: bool)
    ensures
        leq == bytes_leq(a@, b@),
{
    let mut i: usize = 0;
    let ghost x = byte_values(a@);
    let ghost y = byte_values(b@);
    assert(x.skip(0) =~= x);
    assert(y.skip(0) =~= y);
    while i < a.len() && i < b.len()
        invariant
            i <= a@.len(),
            i <= b@.len(),
            x == byte_values(a@),
            y == byte_values(b@),
            lex_leq(x, y) == lex_leq(x.skip(i as int), y.skip(i as int)),
        decreases a.len() - i,
    {
        if a[i] < b[i] {
            return true;
        }
        if a[i] > b[i] {
            return false;
        }
        assert(x.skip(i as int).drop_first() =~= x.skip(i + 1));
        assert(y.skip(i as int).drop_first() =~= y.skip(i + 1));
        i += 1;
    }
    i == a.len()
}

/// Whether one text is at most another, by code points.
pub fn chars_at_most(a: &[char], b: &[char]) -> (leq: bool)
    ensures
        leq == str_leq(a@, b@),
{
    let mut i: usize = 0;
    let ghost x = codes(a@);
    let ghost y = codes(b@);
    assert(x.skip(0) =~= x);
    assert(y.skip(0) =~= y);
    while i < a.len() && i < b.len()
        invariant
            i <= a@.len(),
            i <= b@.len(),
            x == codes(a@),
            y == codes(b@),
            lex_leq(x, y) == lex_leq(x.skip(i as int), y.skip(i as int)),
        decreases a.len() - i,
    {
        if a[i] < b[i] {
            return true;
        }
        if a[i] > b[i] {
            return false;
        }
        assert(x.skip(i as int).drop_first() =~= x.skip(i + 1));
        assert(y.skip(i as int).drop_first() =~= y.skip(i + 1));
        i += 1;
    }
    i == a.len()
}

/// Whether two byte slices are equal.
pub fn same_bytes(a: &[u8], b: &[u8]) -> (same: bool)
    ensures
        same == (a@ == b@),
{
    if a.len() != b.len() {
        return false;
    }
    let mut i: usize = 0;
    while i < a.len()
        invariant
            i <= a@.len(),
            a@.len() == b@.len(),
            forall|j: int| 0 <= j < i ==> a@[j] == b@[j],
        decreases a.len() - i,
    {
        if a[i] != b[i] {
            return false;
        }
        i += 1;
    }
    assert(a@ =~= b@);
    true
}

impl Ordered for String {
    type Key = Seq<char>;

    open spec fn key(&self) -> Seq<char> {
        self@
    }

    open spec fn order() -> spec_fn(Seq<char>, Seq<char>) -> bool {
        str_order()
    }

    proof fn order_is_total() {
        lemma_str_order_total();
    }

    fn at_most(&self, other: &Self) -> (leq: bool) {
        let a = crate::util::text::chars_of(self.as_str());
        let b = crate::util::text::chars_of(other.as_str());
        chars_at_most(a.as_slice(), b.as_slice())
    }
}

impl Ordered for Ranked {
    type Key = (Seq<u8>, Seq<char>);

    open spec fn key(&self) -> (Seq<u8>, Seq<char>) {
        (self.rank@, self.text@)
    }

    open spec fn order() -> spec_fn((Seq<u8>, Seq<char>), (Seq<u8>, Seq<char>)) -> bool {
        ranked_order()
    }

    proof fn order_is_total() {
        lemma_ranked_order_total();
    }

    fn at_most(&self, other: &Self) -> (leq: bool) {
        if same_bytes(self.rank.as_slice(), other.rank.as_slice()) {
            self.text.at_most(&other.text)
        } else {
            bytes_at_most(self.rank.as_slice(), other.rank.as_slice())
        }
    }
}

/// The keys of a sequence of values.
pub open spec fn keys_of<T: Ordered>(v: Seq<T>) -> Seq<T::Key> {
    v.map_values(|x: T| x.key())
}

/// Sorts values by their keys.
pub fn sort_by_key<T: Ordered>(v: Vec<T>) -> (out: Vec<T>)
    ensures
        keys_of(out@) == keys_of(v@).sort_by(T::order()),
        out@.to_multiset() == v@.to_multiset(),
        out@.len() == v@.len(),
{
    let ghost source = v@;
    let mut out: Vec<T> = Vec::new();
    let mut rest = v;
    proof {
        assert(keys_of(out@) =~= Seq::<T::Key>::empty());
        assert(keys_of(rest@) + keys_of(out@) =~= keys_of(source));
        assert(rest@ + out@ =~= source);
    }
    while rest.len() > 0
        invariant
            sorted_by(keys_of(out@), T::order()),
            (keys_of(rest@) + keys_of(out@)).to_multiset() == keys_of(source).to_multiset(),
            (rest@ + out@).to_multiset() == source.to_multiset(),
            rest@.len() + out@.len() == source.len(),
        decreases rest.len(),
    {
        let ghost rest0 = rest@;
        let ghost out0 = out@;
        let item = rest.pop().unwrap();
        let at = insertion_point(&out, &item);
        proof {
            T::order_is_total();
            lemma_insert_sorted(keys_of(out0), item.key(), at as int, T::order());
            lemma_move_multiset(keys_of(rest0), keys_of(out0), at as int);
            lemma_move_multiset(rest0, out0, at as int);
        }
        out.insert(at, item);
        proof {
            assert(keys_of(out@) =~= keys_of(out0).insert(at as int, item.key()));
            assert(keys_of(rest@) =~= keys_of(rest0).drop_last());
            assert(keys_of(rest0).last() == item.key());
        }
    }
    proof {
        assert(keys_of(rest@) + keys_of(out@) =~= keys_of(out@));
        assert(rest@ + out@ =~= out@);
        T::order_is_total();
        keys_of(source).lemma_sort_by_ensures(T::order());
        vstd::seq_lib::lemma_sorted_unique(
            keys_of(out@),
            keys_of(source).sort_by(T::order()),
            T::order(),
        );
    }
    out
}

/// Where to insert a value so that a sorted sequence stays sorted.
fn insertion_point<T: Ordered>(out: &Vec<T>, item: &T) -> (at: usize)
    requires
        sorted_by(keys_of(out@), T::order()),
    ensures
        at <= out@.len(),
        at > 0 ==> T::order()(keys_of(out@)[at - 1], item.key()),
        at < out@.len() ==> T::order()(item.key(), keys_of(out@)[at as int]),
{
    let mut i: usize = 0;
    while i < out.len() && out[i].at_most(item)
        invariant
            i <= out@.len(),
            i > 0 ==> T::order()(keys_of(out@)[i - 1], item.key()),
        decreases out.len() - i,
    {
        i += 1;
    }
    proof {
        T::order_is_total();
        if i < out@.len() {
            let k = keys_of(out@)[i as int];
            assert(T::order()(k, item.key()) || T::order()(item.key(), k));
        }
    }
    i
}

proof fn lemma_insert_sorted<K>(s: Seq<K>, k: K, at: int, leq: spec_fn(K, K) -> bool)
    requires
        total_ordering(leq),
        sorted_by(s, leq),
        0 <= at <= s.len(),
        at > 0 ==> leq(s[at - 1], k),
        at < s.len() ==> leq(k, s[at]),
    ensures
        sorted_by(s.insert(at, k), leq),
{
    let t = s.insert(at, k);
    assert forall|i: int, j: int| 0 <= i < j < t.len() implies #[trigger] leq(t[i], t[j]) by {
        let a = if i < at { s[i] } else { s[i - 1] };
        let b = if j < at { s[j] } else { s[j - 1] };
        if i != at && j != at {
            assert(t[i] == a && t[j] == b);
            if i < at && j < at {
                assert(leq(s[i], s[j]));
            } else if i < at {
                if i == j - 1 {
                    assert(leq(s[at - 1], k));
                }
                assert(leq(s[i], s[j - 1]));
            } else {
                assert(leq(s[i - 1], s[j - 1]));
            }
        } else if j == at {
            if i < at - 1 {
                assert(leq(s[i], s[at - 1]));
            }
            assert(leq(s[at - 1], k));
            assert(leq(t[i], t[j]));
        } else {
            assert(leq(k, s[at]));
            if j - 1 > at {
                assert(leq(s[at], s[j - 1]));
            }
            assert(leq(t[i], t[j]));
        }
    }
}

proof fn lemma_move_multiset<K>(rest: Seq<K>, out: Seq<K>, at: int)
    requires
        rest.len() > 0,
        0 <= at <= out.len(),
    ensures
        (rest.drop_last() + out.insert(at, rest.last())).to_multiset() == (rest
            + out).to_multiset(),
{
    broadcast use vstd::multiset::group_multiset_axioms;

    let r = rest.drop_last();
    let k = rest.last();
    vstd::seq_lib::lemma_multiset_commutative(r, out.insert(at, k));
    vstd::seq_lib::lemma_multiset_commutative(rest, out);
    r.to_multiset_ensures();
    out.insert(at, k).to_multiset_ensures();
    assert(rest =~= r.push(k));
    assert(out.insert(at, k).remove(at) =~= out);
    let m = out.insert(at, k).to_multiset();
    assert(out.insert(at, k).contains(k)) by {
        assert(out.insert(at, k)[at] == k);
    }
    assert(m.count(k) > 0);
    assert(m.remove(k).insert(k) =~= m);
    assert(r.to_multiset().insert(k).add(out.to_multiset()) =~= r.to_multiset().add(
        out.to_multiset().insert(k),
    ));
}

/// Sequences with the same items have the same images.
pub proof fn lemma_map_multiset<A, B>(a: Seq<A>, b: Seq<A>, f: spec_fn(A) -> B)
    requires
        a.to_multiset() == b.to_multiset(),
    ensures
        a.map_values(f).to_multiset() == b.map_values(f).to_multiset(),
    decreases a.len(),
{
    broadcast use vstd::multiset::group_multiset_axioms;

    a.to_multiset_ensures();
    b.to_multiset_ensures();
    if a.len() == 0 {
        assert(a.map_values(f) =~= b.map_values(f));
    } else {
        let x = a.last();
        assert(a.contains(x));
        assert(a.to_multiset().count(x) > 0);
        assert(b.contains(x));
        let j = choose|j: int| 0 <= j < b.len() && b[j] == x;
        let last = a.len() - 1;
        assert(a.remove(last).to_multiset() == a.to_multiset().remove(x));
        assert(b.remove(j).to_multiset() == b.to_multiset().remove(x));
        lemma_map_multiset(a.remove(last), b.remove(j), f);
        let fa = a.map_values(f);
        let fb = b.map_values(f);
        assert(a.remove(last).map_values(f) =~= fa.remove(last));
        assert(b.remove(j).map_values(f) =~= fb.remove(j));
        lemma_remove_insert(fa, last);
        lemma_remove_insert(fb, j);
    }
}

/// Sequences whose images have the same items have the same items, where the images tell the items
/// apart.
pub proof fn lemma_unmap_multiset<A, B>(a: Seq<A>, b: Seq<A>, f: spec_fn(A) -> B)
    requires
        a.map_values(f).to_multiset() == b.map_values(f).to_multiset(),
        forall|i: int, j: int|
            0 <= i < a.len() && 0 <= j < b.len() && #[trigger] f(a[i]) == #[trigger] f(b[j])
                ==> a[i] == b[j],
    ensures
        a.to_multiset() == b.to_multiset(),
    decreases a.len(),
{
    broadcast use vstd::multiset::group_multiset_axioms;

    let fa = a.map_values(f);
    let fb = b.map_values(f);
    fa.to_multiset_ensures();
    fb.to_multiset_ensures();
    if a.len() == 0 {
        assert(a =~= b);
    } else {
        let last = a.len() - 1;
        let y = fa[last];
        assert(fa.contains(y));
        assert(fa.to_multiset().count(y) > 0);
        assert(fb.contains(y));
        let j = choose|j: int| 0 <= j < fb.len() && fb[j] == y;
        assert(f(a[last]) == f(b[j]));
        assert(a.remove(last).map_values(f) =~= fa.remove(last));
        assert(b.remove(j).map_values(f) =~= fb.remove(j));
        let a0 = a.remove(last);
        let b0 = b.remove(j);
        assert forall|i: int, k: int|
            0 <= i < a0.len() && 0 <= k < b0.len() && #[trigger] f(a0[i]) == #[trigger] f(
                b0[k],
            ) implies a0[i] == b0[k] by {
            let k0 = if k < j {
                k
            } else {
                k + 1
            };
            assert(a0[i] == a[i]);
            assert(b0[k] == b[k0]);
            assert(f(a[i]) == f(b[k0]));
        }
        lemma_unmap_multiset(a0, b0, f);
        lemma_remove_insert(a, last);
        lemma_remove_insert(b, j);
    }
}

/// An item that is taken out and put back leaves the items as they were.
proof fn lemma_remove_insert<A>(s: Seq<A>, i: int)
    requires
        0 <= i < s.len(),
    ensures
        s.to_multiset() == s.remove(i).to_multiset().insert(s[i]),
{
    assert(s =~= s.remove(i).insert(i, s[i]));
    vstd::seq_lib::to_multiset_insert(s.remove(i), i, s[i]);
}

/// Sorts strings in the order of `str`.
pub fn sort_strings(v: Vec<String>) -> (out: Vec<String>)
    ensures
        crate::util::text::views(out@) == sorted_texts(crate::util::text::views(v@)),
        out@.len() == v@.len(),
{
    let ghost before = v@;
    let out = sort_by_key(v);
    assert(keys_of(before) =~= crate::util::text::views(before));
    assert(keys_of(out@) =~= crate::util::text::views(out@));
    out
}

/// The members of a finite set of texts in ascending order.
pub open spec fn sorted_set(texts: Set<Seq<char>>) -> Seq<Seq<char>> {
    texts.to_sorted_seq(str_order())
}

/// A finite set listed once each, in any order, sorts to the same sequence.
pub proof fn lemma_sorted_distinct<K>(v: Seq<K>, s: Set<K>, leq: spec_fn(K, K) -> bool)
    requires
        s.finite(),
        v.no_duplicates(),
        v.to_set() == s,
        total_ordering(leq),
    ensures
        v.sort_by(leq) == s.to_sorted_seq(leq),
        s.to_sorted_seq(leq).to_multiset() == v.to_multiset(),
{
    let t = s.to_seq();
    s.lemma_to_seq_to_set_id();
    lemma_to_seq_len(s);
    t.lemma_no_dup_set_cardinality();
    v.lemma_multiset_has_no_duplicates();
    t.lemma_multiset_has_no_duplicates();
    broadcast use {
        vstd::multiset::group_multiset_axioms,
        vstd::seq_lib::to_multiset_contains,
    };

    assert forall|x: K| v.to_multiset().count(x) == t.to_multiset().count(x) by {
        assert(v.contains(x) == v.to_set().contains(x));
        assert(t.contains(x) == t.to_set().contains(x));
    }
    assert(v.to_multiset() =~= t.to_multiset());
    v.lemma_sort_by_ensures(leq);
    t.lemma_sort_by_ensures(leq);
    vstd::seq_lib::lemma_sorted_unique(v.sort_by(leq), t.sort_by(leq), leq);
}

/// A finite set of texts listed once each, in any order, sorts to the same sequence.
pub proof fn lemma_sorted_set(v: Seq<Seq<char>>, s: Set<Seq<char>>)
    requires
        s.finite(),
        v.no_duplicates(),
        v.to_set() == s,
    ensures
        sorted_texts(v) == sorted_set(s),
        sorted_set(s).to_multiset() == v.to_multiset(),
{
    lemma_str_order_total();
    lemma_sorted_distinct(v, s, str_order());
}

/// The sorted members of a set are its members, each once, and sorting them again changes nothing.
pub proof fn lemma_sorted_again(s: Set<Seq<char>>)
    requires
        s.finite(),
    ensures
        sorted_set(s).no_duplicates(),
        sorted_set(s).to_set() == s,
        sorted_texts(sorted_set(s)) == sorted_set(s),
{
    let t = s.to_seq();
    let v = sorted_set(s);
    s.lemma_to_seq_to_set_id();
    lemma_to_seq_distinct(s);
    lemma_sorted_set(t, s);
    t.lemma_multiset_has_no_duplicates();
    v.lemma_multiset_has_no_duplicates_conv();
    broadcast use {
        vstd::multiset::group_multiset_axioms,
        vstd::seq_lib::to_multiset_contains,
    };

    assert forall|x: Seq<char>| v.to_set().contains(x) == s.contains(x) by {
        assert(v.contains(x) == (v.to_multiset().count(x) > 0));
        assert(t.contains(x) == (t.to_multiset().count(x) > 0));
        assert(t.to_set().contains(x) == t.contains(x));
    }
    assert(v.to_set() =~= s);
    lemma_sorted_set(v, s);
}

/// A finite set is listed without repetition.
pub proof fn lemma_to_seq_distinct<A>(s: Set<A>)
    requires
        s.finite(),
    ensures
        s.to_seq().no_duplicates(),
{
    s.lemma_to_seq_to_set_id();
    lemma_to_seq_len(s);
    s.to_seq().lemma_no_dup_set_cardinality();
}

proof fn lemma_to_seq_len<A>(s: Set<A>)
    requires
        s.finite(),
    ensures
        s.to_seq().len() == s.len(),
    decreases s.len(),
{
    if s.len() > 0 {
        let x = s.choose();
        lemma_to_seq_len(s.remove(x));
    }
}

} // verus!
