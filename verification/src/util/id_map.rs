//! A map from text identifiers to values, held as a list in which no identifier occurs twice.
use crate::util::text::{same_text, views};
use vstd::prelude::*;

verus! {

#[derive(Debug)]
pub struct IdMap<V> {
    pub entries: Vec<(String, V)>,
}

/// Whether entry `i` is the entry of `id`.
pub open spec fn holds_id<V>(entries: Seq<(String, V)>, id: Seq<char>, i: int) -> bool {
    0 <= i < entries.len() && entries[i].0@ == id
}

/// Whether some entry is the entry of `id`.
pub open spec fn has_id<V>(entries: Seq<(String, V)>, id: Seq<char>) -> bool {
    exists|i: int| holds_id(entries, id, i)
}

/// The map that a list of entries stands for.
pub open spec fn entries_map<V>(entries: Seq<(String, V)>) -> Map<Seq<char>, V> {
    Map::new(
        |id: Seq<char>| has_id(entries, id),
        |id: Seq<char>| entries[choose|i: int| holds_id(entries, id, i)].1,
    )
}

/// No identifier occurs twice.
pub open spec fn distinct_ids<V>(entries: Seq<(String, V)>) -> bool {
    forall|i: int, j: int|
        0 <= i < entries.len() && 0 <= j < entries.len() && (#[trigger] entries[i]).0@ == (
        #[trigger] entries[j]).0@ ==> i == j
}

/// The identifiers of a list of entries, in its order.
pub open spec fn entry_ids<V>(entries: Seq<(String, V)>) -> Seq<Seq<char>> {
    entries.map_values(|e: (String, V)| e.0@)
}

/// The map holds the value of every entry.
pub proof fn lemma_entry_value<V>(entries: Seq<(String, V)>, i: int)
    requires
        distinct_ids(entries),
        0 <= i < entries.len(),
    ensures
        entries_map(entries).contains_key(entries[i].0@),
        entries_map(entries)[entries[i].0@] == entries[i].1,
{
    let id = entries[i].0@;
    assert(holds_id(entries, id, i));
    let j = choose|j: int| holds_id(entries, id, j);
    assert(holds_id(entries, id, j));
    assert(entries[j].0@ == entries[i].0@);
}

proof fn lemma_pushed<V>(entries: Seq<(String, V)>, e: (String, V))
    requires
        distinct_ids(entries),
        !has_id(entries, e.0@),
    ensures
        distinct_ids(entries.push(e)),
        entries_map(entries.push(e)) == entries_map(entries).insert(e.0@, e.1),
{
    let next = entries.push(e);
    assert forall|i: int, j: int|
        0 <= i < next.len() && 0 <= j < next.len() && (#[trigger] next[i]).0@ == (
        #[trigger] next[j]).0@ implies i == j by {
        if i == entries.len() && j < entries.len() {
            assert(holds_id(entries, e.0@, j));
        }
        if j == entries.len() && i < entries.len() {
            assert(holds_id(entries, e.0@, i));
        }
    }
    let a = entries_map(next);
    let b = entries_map(entries).insert(e.0@, e.1);
    assert forall|id: Seq<char>| a.contains_key(id) == b.contains_key(id) by {
        if b.contains_key(id) {
            if id == e.0@ {
                assert(holds_id(next, id, entries.len() as int));
            } else {
                let i = choose|i: int| holds_id(entries, id, i);
                assert(holds_id(next, id, i));
            }
        }
        if a.contains_key(id) && id != e.0@ {
            let i = choose|i: int| holds_id(next, id, i);
            assert(holds_id(entries, id, i));
        }
    }
    assert forall|id: Seq<char>| #[trigger] a.contains_key(id) implies a[id] == b[id] by {
        let i = choose|i: int| holds_id(next, id, i);
        lemma_entry_value(next, i);
        if i < entries.len() {
            lemma_entry_value(entries, i);
            assert(entries[i] == next[i]);
            assert(next[i].0@ == id);
            assert(id != e.0@) by {
                if id == e.0@ {
                    assert(holds_id(entries, e.0@, i));
                }
            }
        }
    }
    assert(a =~= b);
}

proof fn lemma_updated<V>(entries: Seq<(String, V)>, at: int, v: V)
    requires
        distinct_ids(entries),
        0 <= at < entries.len(),
    ensures
        distinct_ids(entries.update(at, (entries[at].0, v))),
        entries_map(entries.update(at, (entries[at].0, v))) == entries_map(entries).insert(
            entries[at].0@,
            v,
        ),
{
    let next = entries.update(at, (entries[at].0, v));
    assert(forall|i: int| 0 <= i < entries.len() ==> next[i].0@ == (#[trigger] entries[i]).0@);
    assert forall|i: int, j: int|
        0 <= i < next.len() && 0 <= j < next.len() && (#[trigger] next[i]).0@ == (
        #[trigger] next[j]).0@ implies i == j by {
        assert(next[i].0@ == entries[i].0@);
        assert(next[j].0@ == entries[j].0@);
    }
    let a = entries_map(next);
    let b = entries_map(entries).insert(entries[at].0@, v);
    assert forall|id: Seq<char>| a.contains_key(id) == b.contains_key(id) by {
        if b.contains_key(id) {
            if id == entries[at].0@ {
                assert(holds_id(next, id, at));
            } else {
                let i = choose|i: int| holds_id(entries, id, i);
                assert(holds_id(next, id, i));
            }
        }
        if a.contains_key(id) {
            let i = choose|i: int| holds_id(next, id, i);
            assert(holds_id(entries, id, i));
        }
    }
    assert forall|id: Seq<char>| #[trigger] a.contains_key(id) implies a[id] == b[id] by {
        let i = choose|i: int| holds_id(next, id, i);
        lemma_entry_value(next, i);
        lemma_entry_value(entries, i);
    }
    assert(a =~= b);
}

proof fn lemma_removed<V>(entries: Seq<(String, V)>, at: int)
    requires
        distinct_ids(entries),
        0 <= at < entries.len(),
    ensures
        distinct_ids(entries.remove(at)),
        entries_map(entries.remove(at)) == entries_map(entries).remove(entries[at].0@),
{
    let next = entries.remove(at);
    assert forall|i: int, j: int|
        0 <= i < next.len() && 0 <= j < next.len() && (#[trigger] next[i]).0@ == (
        #[trigger] next[j]).0@ implies i == j by {
        let x = if i < at { i } else { i + 1 };
        let y = if j < at { j } else { j + 1 };
        assert(next[i] == entries[x]);
        assert(next[j] == entries[y]);
    }
    let a = entries_map(next);
    let b = entries_map(entries).remove(entries[at].0@);
    assert forall|id: Seq<char>| a.contains_key(id) == b.contains_key(id) by {
        if b.contains_key(id) {
            let i = choose|i: int| holds_id(entries, id, i);
            assert(holds_id(entries, id, i));
            assert(i != at);
            let x = if i < at { i } else { i - 1 };
            assert(holds_id(next, id, x));
        }
        if a.contains_key(id) {
            let i = choose|i: int| holds_id(next, id, i);
            assert(holds_id(next, id, i));
            let x = if i < at { i } else { i + 1 };
            assert(next[i] == entries[x]);
            assert(holds_id(entries, id, x));
            if id == entries[at].0@ {
                assert(entries[x].0@ == entries[at].0@);
            }
        }
    }
    assert forall|id: Seq<char>| #[trigger] a.contains_key(id) implies a[id] == b[id] by {
        let i = choose|i: int| holds_id(next, id, i);
        let x = if i < at { i } else { i + 1 };
        assert(next[i] == entries[x]);
        lemma_entry_value(next, i);
        lemma_entry_value(entries, x);
    }
    assert(a =~= b);
}

/// The identifiers of a list are those of its map, each once.
pub proof fn lemma_entry_ids<V>(entries: Seq<(String, V)>)
    requires
        distinct_ids(entries),
    ensures
        entry_ids(entries).no_duplicates(),
        entry_ids(entries).to_set() == entries_map(entries).dom(),
        entries_map(entries).dom().finite(),
        entries_map(entries).dom().len() == entries.len(),
{
    let ids = entry_ids(entries);
    assert(ids.no_duplicates()) by {
        assert forall|i: int, j: int| 0 <= i < ids.len() && 0 <= j < ids.len()
            && i != j implies ids[i]
            != ids[j] by {
            assert(ids[i] == entries[i].0@ && ids[j] == entries[j].0@);
        }
    }
    assert forall|id: Seq<char>|
        ids.to_set().contains(id) == entries_map(entries).dom().contains(id) by {
        if entries_map(entries).dom().contains(id) {
            let i = choose|i: int| holds_id(entries, id, i);
            assert(ids[i] == id);
        }
        if ids.to_set().contains(id) {
            let i = choose|i: int| 0 <= i < ids.len() && ids[i] == id;
            assert(holds_id(entries, id, i));
        }
    }
    assert(ids.to_set() =~= entries_map(entries).dom());
    ids.unique_seq_to_set();
}

impl<V> IdMap<V> {
    pub open spec fn map(&self) -> Map<Seq<char>, V> {
        entries_map(self.entries@)
    }

    pub open spec fn wf(&self) -> bool {
        distinct_ids(self.entries@)
    }

    pub fn new() -> (m: Self)
        ensures
            m.wf(),
            m.map() == Map::<Seq<char>, V>::empty(),
    {
        let m = IdMap { entries: Vec::new() };
        assert(m.map() =~= Map::<Seq<char>, V>::empty()) by {
            assert forall|id: Seq<char>| !m.map().contains_key(id) by {
                if m.map().contains_key(id) {
                    let i = choose|i: int| holds_id(m.entries@, id, i);
                    assert(holds_id(m.entries@, id, i));
                }
            }
        }
        m
    }

    /// The number of identifiers.
    pub fn len(&self) -> (n: usize)
        requires
            self.wf(),
        ensures
            n == self.map().dom().len(),
            self.map().dom().finite(),
            n == self.entries@.len(),
    {
        proof {
            lemma_entry_ids(self.entries@);
        }
        self.entries.len()
    }

    /// Where the entry of an identifier stands.
    pub fn position(&self, id: &str) -> (at: Option<usize>)
        requires
            self.wf(),
        ensures
            match at {
                Some(i) => i < self.entries@.len() && self.entries@[i as int].0@ == id@
                    && self.map().contains_key(id@) && self.map()[id@] == self.entries@[i as int].1,
                None => !self.map().contains_key(id@),
            },
    {
        let mut i: usize = 0;
        while i < self.entries.len()
            invariant
                i <= self.entries@.len(),
                self.wf(),
                forall|j: int| 0 <= j < i ==> (#[trigger] self.entries@[j]).0@ != id@,
            decreases self.entries.len() - i,
        {
            if same_text(self.entries[i].0.as_str(), id) {
                proof {
                    lemma_entry_value(self.entries@, i as int);
                }
                return Some(i);
            }
            i += 1;
        }
        proof {
            if self.map().contains_key(id@) {
                let j = choose|j: int| holds_id(self.entries@, id@, j);
                assert(holds_id(self.entries@, id@, j));
            }
        }
        None
    }

    /// Whether an identifier has a value.
    pub fn contains_key(&self, id: &str) -> (yes: bool)
        requires
            self.wf(),
        ensures
            yes == self.map().contains_key(id@),
    {
        self.position(id).is_some()
    }

    /// The value of an identifier.
    pub fn get(&self, id: &str) -> (v: Option<&V>)
        requires
            self.wf(),
        ensures
            match v {
                Some(x) => self.map().contains_key(id@) && *x == self.map()[id@],
                None => !self.map().contains_key(id@),
            },
    {
        match self.position(id) {
            Some(i) => Some(&self.entries[i].1),
            None => None,
        }
    }

    /// Gives an identifier a value, in place of an earlier one.
    pub fn insert(&mut self, id: String, v: V)
        requires
            old(self).wf(),
        ensures
            final(self).wf(),
            final(self).map() == old(self).map().insert(id@, v),
    {
        match self.position(id.as_str()) {
            Some(i) => {
                proof {
                    lemma_updated(self.entries@, i as int, v);
                }
                self.entries[i].1 = v;
                assert(self.entries@ =~= old(self).entries@.update(
                    i as int,
                    (old(self).entries@[i as int].0, v),
                ));
            },
            None => {
                proof {
                    lemma_pushed(self.entries@, (id, v));
                }
                self.entries.push((id, v));
            },
        }
    }

    /// Takes an identifier's value out.
    pub fn remove(&mut self, id: &str) -> (v: Option<V>)
        requires
            old(self).wf(),
        ensures
            final(self).wf(),
            final(self).map() == old(self).map().remove(id@),
            match v {
                Some(x) => old(self).map().contains_key(id@) && x == old(self).map()[id@],
                None => !old(self).map().contains_key(id@),
            },
    {
        match self.position(id) {
            Some(i) => {
                proof {
                    lemma_removed(self.entries@, i as int);
                }
                let (_, v) = self.entries.remove(i);
                Some(v)
            },
            None => {
                assert(self.map().remove(id@) =~= self.map());
                None
            },
        }
    }

    /// Replaces the value of the entry at an index.
    pub fn set_at(&mut self, at: usize, v: V)
        requires
            old(self).wf(),
            at < old(self).entries@.len(),
        ensures
            final(self).wf(),
            final(self).map() == old(self).map().insert(old(self).entries@[at as int].0@, v),
            entry_ids(final(self).entries@) == entry_ids(old(self).entries@),
            final(self).entries@ == old(self).entries@.update(
                at as int,
                (old(self).entries@[at as int].0, v),
            ),
    {
        proof {
            lemma_updated(self.entries@, at as int, v);
        }
        self.entries[at].1 = v;
        assert(self.entries@ =~= old(self).entries@.update(
            at as int,
            (old(self).entries@[at as int].0, v),
        ));
        assert(entry_ids(self.entries@) =~= entry_ids(old(self).entries@));
    }

    /// The identifiers, each once.
    pub fn ids(&self) -> (ids: Vec<String>)
        requires
            self.wf(),
        ensures
            views(ids@).no_duplicates(),
            views(ids@).to_set() == self.map().dom(),
            self.map().dom().finite(),
    {
        let mut ids: Vec<String> = Vec::new();
        let mut i: usize = 0;
        while i < self.entries.len()
            invariant
                i <= self.entries@.len(),
                views(ids@) == entry_ids(self.entries@).take(i as int),
            decreases self.entries.len() - i,
        {
            let ghost before = ids@;
            ids.push(self.entries[i].0.clone());
            assert(views(ids@) =~= views(before).push(self.entries@[i as int].0@));
            assert(entry_ids(self.entries@).take(i as int).push(self.entries@[i as int].0@)
                =~= entry_ids(self.entries@).take(i + 1));
            i += 1;
        }
        assert(views(ids@) =~= entry_ids(self.entries@));
        proof {
            lemma_entry_ids(self.entries@);
        }
        ids
    }

    pub fn is_empty(&self) -> (yes: bool)
        requires
            self.wf(),
        ensures
            yes == (self.map() == Map::<Seq<char>, V>::empty()),
    {
        proof {
            lemma_entry_ids(self.entries@);
            if self.entries@.len() == 0 {
                assert(self.map() =~= Map::<Seq<char>, V>::empty());
            } else {
                lemma_entry_value(self.entries@, 0);
            }
        }
        self.entries.len() == 0
    }

    /// The place of the value of an identifier.
    pub fn get_mut(&mut self, id: &str) -> (v: Option<&mut V>)
        requires
            old(self).wf(),
        ensures
            final(self).wf(),
            match v {
                Some(x) => old(self).map().contains_key(id@) && *x == old(self).map()[id@]
                    && final(self).map() == old(self).map().insert(id@, *final(x)) && entry_ids(
                    final(self).entries@,
                ) == entry_ids(old(self).entries@),
                None => !old(self).map().contains_key(id@) && *final(self) == *old(self),
            },
    {
        match self.position(id) {
            Some(i) => {
                let ghost before = self.entries@;
                let place = &mut self.entries[i];
                proof {
                    lemma_updated(before, i as int, final(place).1);
                }
                Some(&mut place.1)
            },
            None => None,
        }
    }

    /// Takes out some entry.
    pub fn pop(&mut self) -> (e: Option<(String, V)>)
        requires
            old(self).wf(),
        ensures
            final(self).wf(),
            match e {
                Some(e) => old(self).map().contains_key(e.0@) && e.1 == old(self).map()[e.0@]
                    && final(self).map() == old(self).map().remove(e.0@)
                        && final(self).entries@.len()
                    + 1 == old(self).entries@.len(),
                None => old(self).map() == Map::<Seq<char>, V>::empty()
                    && *final(self) == *old(self),
            },
    {
        let empty = self.is_empty();
        if empty {
            return None;
        }
        let ghost before = self.entries@;
        let ghost last = before.len() - 1;
        proof {
            if before.len() == 0 {
                lemma_entry_ids(before);
                assert(self.map() =~= Map::<Seq<char>, V>::empty());
            }
            lemma_entry_value(before, last);
            lemma_removed(before, last);
            assert(before.remove(last) =~= before.drop_last());
        }
        self.entries.pop()
    }

    /// Keeps the identifiers that another map has.
    pub fn keep_ids_of<W>(self, other: &IdMap<W>) -> (kept: Self)
        requires
            self.wf(),
            other.wf(),
        ensures
            kept.wf(),
            kept.map() == self.map().restrict(other.map().dom()),
    {
        let ghost source = self.entries@;
        let mut rest = self;
        let mut kept = IdMap::<V>::new();
        assert(kept.map() =~= self.map().remove_keys(self.map().dom()).restrict(other.map().dom()));
        while rest.entries.len() > 0
            invariant
                rest.wf(),
                kept.wf(),
                other.wf(),
                rest.map().submap_of(entries_map(source)),
                kept.map() == entries_map(source).remove_keys(rest.map().dom()).restrict(
                    other.map().dom(),
                ),
            decreases rest.entries.len(),
        {
            let ghost last = rest.entries@.len() - 1;
            let ghost before = rest.entries@;
            proof {
                lemma_entry_value(before, last);
                lemma_removed(before, last);
                assert(before.remove(last) =~= before.drop_last());
            }
            let (id, v) = rest.entries.pop().unwrap();
            assert(rest.entries@ =~= before.drop_last());
            let ghost kept0 = kept.map();
            proof {
                assert(entries_map(source).contains_key(id@));
                assert(entries_map(source)[id@] == v);
            }
            if other.contains_key(id.as_str()) {
                kept.insert(id, v);
                assert(kept.map() =~= entries_map(source).remove_keys(rest.map().dom()).restrict(
                    other.map().dom(),
                ));
            } else {
                assert(kept.map() =~= entries_map(source).remove_keys(rest.map().dom()).restrict(
                    other.map().dom(),
                ));
            }
        }
        proof {
            assert(rest.map().dom() =~= Set::<Seq<char>>::empty()) by {
                assert forall|id: Seq<char>| !rest.map().contains_key(id) by {
                    if rest.map().contains_key(id) {
                        let i = choose|i: int| holds_id(rest.entries@, id, i);
                        assert(holds_id(rest.entries@, id, i));
                    }
                }
            }
            assert(kept.map() =~= entries_map(source).restrict(other.map().dom()));
        }
        kept
    }
}

/// The views of the values of a map.
pub open spec fn view_map<V: View>(m: Map<Seq<char>, V>) -> Map<Seq<char>, V::V> {
    m.map_values(|v: V| v@)
}

/// One more identifier of a list.
pub proof fn lemma_restrict_step<W>(m: Map<Seq<char>, W>, ids: Seq<Seq<char>>, i: int)
    requires
        0 <= i < ids.len(),
        m.contains_key(ids[i]),
    ensures
        m.restrict(ids.take(i + 1).to_set()) == m.restrict(ids.take(i).to_set()).insert(
            ids[i],
            m[ids[i]],
        ),
{
    let a = ids.take(i);
    let b = ids.take(i + 1);
    assert(b =~= a.push(ids[i]));
    assert forall|x: Seq<char>|
        b.to_set().contains(x) == (a.to_set().contains(x) || x == ids[i]) by {
        if a.contains(x) {
            let k = choose|k: int| 0 <= k < a.len() && a[k] == x;
            assert(b[k] == x);
        }
        if x == ids[i] {
            assert(b[i] == x);
        }
        if b.contains(x) && x != ids[i] {
            let k = choose|k: int| 0 <= k < b.len() && b[k] == x;
            assert(a[k] == x);
        }
    }
    assert(m.restrict(b.to_set()) =~= m.restrict(a.to_set()).insert(ids[i], m[ids[i]]));
}

/// A copy of a map whose values are copied.
pub fn copy_map<V: Clone + View>(m: &IdMap<V>) -> (out: IdMap<V>)
    requires
        m.wf(),
        forall|a: V, b: V| #[trigger] cloned(a, b) ==> a@ == b@,
    ensures
        out.wf(),
        view_map(out.map()) == view_map(m.map()),
{
    let ghost ids = entry_ids(m.entries@);
    let ghost want = view_map(m.map());
    let mut out = IdMap::<V>::new();
    let mut i: usize = 0;
    proof {
        lemma_entry_ids(m.entries@);
        assert(view_map(out.map()) =~= want.restrict(ids.take(0).to_set()));
    }
    while i < m.entries.len()
        invariant
            i <= m.entries@.len(),
            m.wf(),
            out.wf(),
            ids == entry_ids(m.entries@),
            want == view_map(m.map()),
            forall|a: V, b: V| #[trigger] cloned(a, b) ==> a@ == b@,
            view_map(out.map()) == want.restrict(ids.take(i as int).to_set()),
        decreases m.entries.len() - i,
    {
        let ghost before = out.map();
        let v = m.entries[i].1.clone();
        assert(cloned(m.entries@[i as int].1, v));
        let id = m.entries[i].0.clone();
        proof {
            lemma_entry_value(m.entries@, i as int);
            assert(ids[i as int] == id@);
            lemma_restrict_step(want, ids, i as int);
        }
        out.insert(id, v);
        assert(view_map(out.map()) =~= view_map(before).insert(id@, v@));
        i += 1;
    }
    proof {
        assert(ids.take(ids.len() as int) =~= ids);
        assert(want.restrict(ids.to_set()) =~= want);
    }
    out
}

} // verus!
