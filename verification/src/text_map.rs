//! Maps whose keys are texts.

use vstd::prelude::*;

use crate::text::{owned, same, texts};

verus! {

/// A map from texts.
pub struct TextMap<V> {
    entries: Vec<(String, V)>,
}

/// What some entries map each text to: the last entry of a text counts.
spec fn mapped<V>(entries: Seq<(String, V)>) -> Map<Seq<char>, V>
    decreases entries.len(),
{
    if entries.len() == 0 {
        Map::empty()
    } else {
        mapped(entries.drop_last()).insert(entries.last().0@, entries.last().1)
    }
}

/// No two entries are of one text.
spec fn apart<V>(entries: Seq<(String, V)>) -> bool {
    forall|i: int, j: int|
        #![trigger entries[i], entries[j]]
        0 <= i < j < entries.len() ==> entries[i].0@ != entries[j].0@
}

/// Entries of distinct texts are a map of as many texts.
proof fn lemma_mapped<V>(entries: Seq<(String, V)>)
    requires
        apart(entries),
    ensures
        mapped(entries).dom().finite(),
        mapped(entries).dom().len() == entries.len(),
        forall|i: int|
            0 <= i < entries.len() ==> mapped(entries).contains_key((#[trigger] entries[i]).0@)
                && mapped(entries)[entries[i].0@] == entries[i].1,
        forall|k: Seq<char>|
            #[trigger] mapped(entries).contains_key(k) ==> exists|i: int|
                0 <= i < entries.len() && (#[trigger] entries[i]).0@ == k,
    decreases entries.len(),
{
    if entries.len() > 0 {
        let rest = entries.drop_last();
        assert forall|i: int, j: int|
            #![trigger rest[i], rest[j]]
            0 <= i < j < rest.len() implies rest[i].0@ != rest[j].0@ by {
            assert(rest[i] == entries[i] && rest[j] == entries[j]);
        }
        lemma_mapped(rest);
        let m = mapped(rest);
        let last = entries[entries.len() - 1];
        assert(!m.contains_key(last.0@)) by {
            if m.contains_key(last.0@) {
                let i = choose|i: int| 0 <= i < rest.len() && (#[trigger] rest[i]).0@ == last.0@;
                assert(rest[i] == entries[i]);
            }
        }
        assert forall|i: int| 0 <= i < entries.len() implies mapped(entries).contains_key(
            (#[trigger] entries[i]).0@,
        ) && mapped(entries)[entries[i].0@] == entries[i].1 by {
            if i < rest.len() {
                assert(rest[i] == entries[i]);
            }
        }
        assert forall|k: Seq<char>| #[trigger] mapped(entries).contains_key(k) implies exists|
            i: int,
        |
            0 <= i < entries.len() && (#[trigger] entries[i]).0@ == k by {
            if k == last.0@ {
                assert(entries[entries.len() - 1].0@ == k);
            } else {
                assert(m.contains_key(k));
                let i = choose|i: int| 0 <= i < rest.len() && (#[trigger] rest[i]).0@ == k;
                assert(entries[i].0@ == k);
            }
        }
    }
}

/// A map is what its entries say, and nothing else.
proof fn lemma_is_map<V>(entries: Seq<(String, V)>, want: Map<Seq<char>, V>)
    requires
        apart(entries),
        forall|i: int|
            0 <= i < entries.len() ==> want.contains_key((#[trigger] entries[i]).0@)
                && want[entries[i].0@] == entries[i].1,
        forall|k: Seq<char>|
            #[trigger] want.contains_key(k) ==> exists|i: int|
                0 <= i < entries.len() && (#[trigger] entries[i]).0@ == k,
    ensures
        mapped(entries) == want,
{
    lemma_mapped(entries);
    assert forall|k: Seq<char>| #[trigger] mapped(entries).contains_key(k) <==> want.contains_key(
        k,
    ) by {
        if mapped(entries).contains_key(k) {
            let i = choose|i: int| 0 <= i < entries.len() && (#[trigger] entries[i]).0@ == k;
            assert(want.contains_key(entries[i].0@));
        }
        if want.contains_key(k) {
            let i = choose|i: int| 0 <= i < entries.len() && (#[trigger] entries[i]).0@ == k;
            assert(mapped(entries).contains_key(entries[i].0@));
        }
    }
    assert forall|k: Seq<char>| #[trigger] mapped(entries).contains_key(k) implies mapped(
        entries,
    )[k] == want[k] by {
        let i = choose|i: int| 0 <= i < entries.len() && (#[trigger] entries[i]).0@ == k;
        assert(want[entries[i].0@] == entries[i].1);
    }
    assert(mapped(entries) =~= want);
}

impl<V> View for TextMap<V> {
    type V = Map<Seq<char>, V>;

    closed spec fn view(&self) -> Map<Seq<char>, V> {
        mapped(self.entries@)
    }
}

impl<V> TextMap<V> {
    /// Each text has one entry.
    #[verifier::type_invariant]
    spec fn wf(&self) -> bool {
        apart(self.entries@)
    }

    /// The map of no text.
    pub fn new() -> (r: Self)
        ensures
            r@ == Map::<Seq<char>, V>::empty(),
    {
        TextMap { entries: Vec::new() }
    }

    /// How many texts there are.
    pub fn len(&self) -> (r: usize)
        ensures
            self@.dom().finite(),
            r == self@.dom().len(),
    {
        proof {
            use_type_invariant(self);
            lemma_mapped(self.entries@);
        }
        self.entries.len()
    }

    fn place(&self, key: &str) -> (r: Option<usize>)
        ensures
            match r {
                Some(i) => i < self.entries@.len() && self.entries@[i as int].0@ == key@
                    && self@.contains_key(key@) && self@[key@] == self.entries@[i as int].1,
                None => !self@.contains_key(key@) && (forall|j: int|
                    0 <= j < self.entries@.len() ==> (#[trigger] self.entries@[j]).0@ != key@),
            },
    {
        proof {
            use_type_invariant(self);
            lemma_mapped(self.entries@);
        }
        let mut i: usize = 0;
        while i < self.entries.len()
            invariant
                i <= self.entries@.len(),
                apart(self.entries@),
                forall|j: int| 0 <= j < i ==> (#[trigger] self.entries@[j]).0@ != key@,
            decreases self.entries@.len() - i,
        {
            if same(self.entries[i].0.as_str(), key) {
                proof {
                    lemma_mapped(self.entries@);
                    assert(self@.contains_key(self.entries@[i as int].0@));
                }
                return Some(i);
            }
            i += 1;
        }
        None
    }

    /// What a text is mapped to.
    pub fn get(&self, key: &str) -> (r: Option<&V>)
        ensures
            match r {
                Some(v) => self@.contains_key(key@) && self@[key@] == *v,
                None => !self@.contains_key(key@),
            },
    {
        match self.place(key) {
            Some(i) => Some(&self.entries[i].1),
            None => None,
        }
    }

    /// Maps a text to a value.
    pub fn insert(&mut self, key: String, value: V)
        ensures
            final(self)@ == old(self)@.insert(key@, value),
    {
        let ghost before = self@;
        let ghost old_entries = self.entries@;
        proof {
            use_type_invariant(&*self);
            lemma_mapped(self.entries@);
        }
        let at = self.place(key.as_str());
        let ghost k = key@;
        let mut entries: Vec<(String, V)> = Vec::new();
        std::mem::swap(&mut entries, &mut self.entries);
        match at {
            Some(i) => {
                entries.set(i, (key, value));
                proof {
                    let now = entries@;
                    assert forall|a: int, b: int|
                        #![trigger now[a], now[b]]
                        0 <= a < b < now.len() implies now[a].0@ != now[b].0@ by {
                        assert(old_entries[a].0@ != old_entries[b].0@);
                    }
                    let want = before.insert(k, value);
                    assert forall|j: int| 0 <= j < now.len() implies want.contains_key(
                        (#[trigger] now[j]).0@,
                    ) && want[now[j].0@] == now[j].1 by {
                        if j != i {
                            assert(now[j] == old_entries[j]);
                            assert(old_entries[i as int].0@ == k);
                            assert(old_entries[j].0@ != k);
                        }
                    }
                    assert forall|t: Seq<char>| #[trigger] want.contains_key(t) implies exists|
                        j: int,
                    |
                        0 <= j < now.len() && (#[trigger] now[j]).0@ == t by {
                        if t == k {
                            assert(now[i as int].0@ == t);
                        } else {
                            assert(before.contains_key(t));
                            let j = choose|j: int|
                                0 <= j < old_entries.len() && (#[trigger] old_entries[j]).0@ == t;
                            assert(now[j].0@ == t);
                        }
                    }
                    lemma_is_map(now, want);
                }
            },
            None => {
                entries.push((key, value));
                proof {
                    let now = entries@;
                    assert(now.drop_last() =~= old_entries);
                    assert forall|a: int, b: int|
                        #![trigger now[a], now[b]]
                        0 <= a < b < now.len() implies now[a].0@ != now[b].0@ by {
                        assert(now[a] == old_entries[a]);
                        if b < old_entries.len() {
                            assert(now[b] == old_entries[b]);
                        }
                    }
                }
            },
        }
        self.entries = entries;
    }

    /// Takes a text out of the map.
    pub fn remove(&mut self, key: &str) -> (r: Option<V>)
        ensures
            final(self)@ == old(self)@.remove(key@),
            match r {
                Some(v) => old(self)@.contains_key(key@) && old(self)@[key@] == v,
                None => !old(self)@.contains_key(key@),
            },
    {
        let ghost before = self@;
        let ghost old_entries = self.entries@;
        proof {
            use_type_invariant(&*self);
            lemma_mapped(self.entries@);
        }
        match self.place(key) {
            None => {
                assert(before.remove(key@) =~= before);
                None
            },
            Some(i) => {
                let mut entries: Vec<(String, V)> = Vec::new();
                std::mem::swap(&mut entries, &mut self.entries);
                let pair = entries.remove(i);
                proof {
                    let now = entries@;
                    assert(now =~= old_entries.remove(i as int));
                    assert forall|a: int, b: int|
                        #![trigger now[a], now[b]]
                        0 <= a < b < now.len() implies now[a].0@ != now[b].0@ by {
                        let a0 = if a < i { a } else { a + 1 };
                        let b0 = if b < i { b } else { b + 1 };
                        assert(now[a] == old_entries[a0] && now[b] == old_entries[b0]);
                    }
                    let want = before.remove(key@);
                    assert forall|j: int| 0 <= j < now.len() implies want.contains_key(
                        (#[trigger] now[j]).0@,
                    ) && want[now[j].0@] == now[j].1 by {
                        let j0 = if j < i { j } else { j + 1 };
                        assert(now[j] == old_entries[j0]);
                        assert(old_entries[i as int].0@ == key@);
                        if j0 < i {
                            assert(old_entries[j0].0@ != old_entries[i as int].0@);
                        } else {
                            assert(old_entries[i as int].0@ != old_entries[j0].0@);
                        }
                    }
                    assert forall|t: Seq<char>| #[trigger] want.contains_key(t) implies exists|
                        j: int,
                    |
                        0 <= j < now.len() && (#[trigger] now[j]).0@ == t by {
                        assert(before.contains_key(t));
                        let j0 = choose|j: int|
                            0 <= j < old_entries.len() && (#[trigger] old_entries[j]).0@ == t;
                        assert(j0 != i);
                        let j = if j0 < i { j0 } else { j0 - 1 };
                        assert(now[j] == old_entries[j0]);
                    }
                    lemma_is_map(now, want);
                }
                self.entries = entries;
                Some(pair.1)
            },
        }
    }

    /// The texts, each once. Their order is not fixed.
    pub fn keys(&self) -> (r: Vec<String>)
        ensures
            texts(r@).len() == self@.dom().len(),
            texts(r@).no_duplicates(),
            forall|k: Seq<char>| texts(r@).contains(k) <==> #[trigger] self@.contains_key(k),
    {
        proof {
            use_type_invariant(self);
            lemma_mapped(self.entries@);
        }
        let mut out: Vec<String> = Vec::new();
        let mut i: usize = 0;
        while i < self.entries.len()
            invariant
                i <= self.entries@.len(),
                out@.len() == i,
                forall|j: int| 0 <= j < i ==> (#[trigger] out@[j])@ == self.entries@[j].0@,
            decreases self.entries@.len() - i,
        {
            out.push(owned(self.entries[i].0.as_str()));
            i += 1;
        }
        proof {
            let keys = texts(out@);
            assert forall|a: int, b: int|
                0 <= a < keys.len() && 0 <= b < keys.len() && a != b implies keys[a] != keys[b] by {
                assert(out@[a]@ == self.entries@[a].0@ && out@[b]@ == self.entries@[b].0@);
                if a < b {
                    assert(self.entries@[a].0@ != self.entries@[b].0@);
                } else {
                    assert(self.entries@[b].0@ != self.entries@[a].0@);
                }
            }
            assert forall|k: Seq<char>| keys.contains(k) <==> #[trigger] self@.contains_key(k) by {
                if keys.contains(k) {
                    let i = choose|i: int| 0 <= i < keys.len() && keys[i] == k;
                    assert(out@[i]@ == self.entries@[i].0@);
                    assert(self@.contains_key(self.entries@[i].0@));
                }
                if self@.contains_key(k) {
                    let i = choose|i: int|
                        0 <= i < self.entries@.len() && (#[trigger] self.entries@[i]).0@ == k;
                    assert(out@[i]@ == self.entries@[i].0@);
                    assert(keys[i] == k);
                }
            }
        }
        out
    }
}

} // verus!
