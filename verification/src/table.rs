use vstd::prelude::*;
use crate::chunk_values::{ValueView, Values};

verus! {

/// One binding: a name, its value, and whether it may be assigned again.
#[derive(Debug)]
pub struct Entry {
    pub key: String,
    pub value: Values,
    pub mutable: bool,
}

/// Bindings of names to values, each name bound at most once.
///
/// The bindings are a list of entries with distinct names rather than a
/// `HashMap<String, _>`: vstd specifies a hash map's lookups in terms of its
/// insertions only for keys whose hashing and equality it knows to agree,
/// and `String` is not among them, so with a `String` key nothing could be
/// proved of what a lookup gives back after an insertion. The view of the
/// table is the map from names to bindings that the list holds.
#[derive(Debug)]
pub struct Table {
    entries: Vec<Entry>,
}

/// No name occurs twice.
pub open spec fn distinct_keys(es: Seq<Entry>) -> bool {
    forall|i: int, j: int|
        0 <= i < es.len() && 0 <= j < es.len() && i != j ==> (#[trigger] es[i]).key@
            != (#[trigger] es[j]).key@
}

/// Whether some entry binds `k`.
pub open spec fn has_key(es: Seq<Entry>, k: Seq<char>) -> bool {
    exists|i: int| 0 <= i < es.len() && (#[trigger] es[i]).key@ == k
}

/// The bindings that a sequence of entries holds.
pub open spec fn map_of(es: Seq<Entry>) -> Map<Seq<char>, (ValueView, bool)> {
    Map::new(
        |k: Seq<char>| has_key(es, k),
        |k: Seq<char>|
            {
                let i = choose|i: int| 0 <= i < es.len() && (#[trigger] es[i]).key@ == k;
                (es[i].value@, es[i].mutable)
            },
    )
}

proof fn lemma_map_of_at(es: Seq<Entry>, i: int)
    requires
        distinct_keys(es),
        0 <= i < es.len(),
    ensures
        map_of(es).contains_key(es[i].key@),
        map_of(es)[es[i].key@] == (es[i].value@, es[i].mutable),
{
    let k = es[i].key@;
    assert(has_key(es, k));
    let j = choose|j: int| 0 <= j < es.len() && (#[trigger] es[j]).key@ == k;
    assert(j == i);
}

proof fn lemma_map_of_push(es: Seq<Entry>, e: Entry)
    requires
        distinct_keys(es),
        !has_key(es, e.key@),
    ensures
        distinct_keys(es.push(e)),
        map_of(es.push(e)) == map_of(es).insert(e.key@, (e.value@, e.mutable)),
{
    let n = es.push(e);
    assert forall|i: int, j: int|
        0 <= i < n.len() && 0 <= j < n.len() && i != j implies (#[trigger] n[i]).key@
        != (#[trigger] n[j]).key@ by {
        if i < es.len() && j < es.len() {
            assert(es[i] == n[i] && es[j] == n[j]);
        } else if i < es.len() {
            assert(n[i] == es[i]);
        } else {
            assert(n[j] == es[j]);
        }
    }
    let m1 = map_of(n);
    let m2 = map_of(es).insert(e.key@, (e.value@, e.mutable));
    assert forall|k: Seq<char>| #[trigger] m1.contains_key(k) == m2.contains_key(k) by {
        if has_key(n, k) {
            let i = choose|i: int| 0 <= i < n.len() && (#[trigger] n[i]).key@ == k;
            if i < es.len() {
                assert(es[i] == n[i]);
                assert(has_key(es, k));
            }
        }
        if has_key(es, k) {
            let i = choose|i: int| 0 <= i < es.len() && (#[trigger] es[i]).key@ == k;
            assert(n[i] == es[i]);
            assert(has_key(n, k));
        }
        if k == e.key@ {
            assert(n[es.len() as int] == e);
            assert(has_key(n, k));
        }
    }
    assert forall|k: Seq<char>| #[trigger] m1.contains_key(k) implies m1[k] == m2[k] by {
        let i = choose|i: int| 0 <= i < n.len() && (#[trigger] n[i]).key@ == k;
        lemma_map_of_at(n, i);
        if i < es.len() {
            assert(es[i] == n[i]);
            lemma_map_of_at(es, i);
        } else {
            assert(n[i] == e);
        }
    }
    assert(m1 =~= m2);
}

proof fn lemma_map_of_update(es: Seq<Entry>, i: int, e: Entry)
    requires
        distinct_keys(es),
        0 <= i < es.len(),
        es[i].key@ == e.key@,
    ensures
        distinct_keys(es.update(i, e)),
        map_of(es.update(i, e)) == map_of(es).insert(e.key@, (e.value@, e.mutable)),
{
    let n = es.update(i, e);
    assert forall|a: int, b: int|
        0 <= a < n.len() && 0 <= b < n.len() && a != b implies (#[trigger] n[a]).key@
        != (#[trigger] n[b]).key@ by {
        assert(n[a].key@ == es[a].key@);
        assert(n[b].key@ == es[b].key@);
    }
    let m1 = map_of(n);
    let m2 = map_of(es).insert(e.key@, (e.value@, e.mutable));
    assert forall|k: Seq<char>| #[trigger] m1.contains_key(k) == m2.contains_key(k) by {
        if has_key(n, k) {
            let a = choose|a: int| 0 <= a < n.len() && (#[trigger] n[a]).key@ == k;
            assert(es[a].key@ == k);
            assert(has_key(es, k));
        }
        if has_key(es, k) {
            let a = choose|a: int| 0 <= a < es.len() && (#[trigger] es[a]).key@ == k;
            assert(n[a].key@ == k);
            assert(has_key(n, k));
        }
    }
    assert forall|k: Seq<char>| #[trigger] m1.contains_key(k) implies m1[k] == m2[k] by {
        let a = choose|a: int| 0 <= a < n.len() && (#[trigger] n[a]).key@ == k;
        lemma_map_of_at(n, a);
        if a != i {
            assert(es[a] == n[a]);
            lemma_map_of_at(es, a);
        }
    }
    assert(m1 =~= m2);
}

proof fn lemma_map_of_remove(es: Seq<Entry>, i: int)
    requires
        distinct_keys(es),
        0 <= i < es.len(),
    ensures
        distinct_keys(es.remove(i)),
        map_of(es.remove(i)) == map_of(es).remove(es[i].key@),
{
    let n = es.remove(i);
    let key = es[i].key@;
    assert forall|a: int| 0 <= a < n.len() implies #[trigger] n[a] == es[if a < i {
        a
    } else {
        a + 1
    }] by {}
    assert forall|a: int, b: int|
        0 <= a < n.len() && 0 <= b < n.len() && a != b implies (#[trigger] n[a]).key@
        != (#[trigger] n[b]).key@ by {
        let a2 = if a < i { a } else { a + 1 };
        let b2 = if b < i { b } else { b + 1 };
        assert(n[a] == es[a2] && n[b] == es[b2]);
    }
    let m1 = map_of(n);
    let m2 = map_of(es).remove(key);
    assert forall|k: Seq<char>| #[trigger] m1.contains_key(k) == m2.contains_key(k) by {
        if has_key(n, k) {
            let a = choose|a: int| 0 <= a < n.len() && (#[trigger] n[a]).key@ == k;
            let a2 = if a < i { a } else { a + 1 };
            assert(n[a] == es[a2]);
            assert(has_key(es, k));
        }
        if has_key(es, k) && k != key {
            let a = choose|a: int| 0 <= a < es.len() && (#[trigger] es[a]).key@ == k;
            assert(a != i);
            let a1 = if a < i { a } else { a - 1 };
            assert(n[a1] == es[a]);
            assert(has_key(n, k));
        }
    }
    assert forall|k: Seq<char>| #[trigger] m1.contains_key(k) implies m1[k] == m2[k] by {
        let a = choose|a: int| 0 <= a < n.len() && (#[trigger] n[a]).key@ == k;
        let a2 = if a < i { a } else { a + 1 };
        assert(n[a] == es[a2]);
        lemma_map_of_at(n, a);
        lemma_map_of_at(es, a2);
    }
    assert(m1 =~= m2);
}

impl View for Table {
    type V = Map<Seq<char>, (ValueView, bool)>;

    closed spec fn view(&self) -> Map<Seq<char>, (ValueView, bool)> {
        map_of(self.entries@)
    }
}

impl Table {
    #[verifier::type_invariant]
    closed spec fn inv(&self) -> bool {
        distinct_keys(self.entries@)
    }

    /// An empty table.
    pub fn new() -> (t: Self)
        ensures
            t@ == Map::<Seq<char>, (ValueView, bool)>::empty(),
    {
        let t = Self { entries: Vec::new() };
        assert(map_of(t.entries@) =~= Map::<Seq<char>, (ValueView, bool)>::empty());
        t
    }

    /// The position of the entry for `key`, if there is one.
    fn find(&self, key: &String) -> (r: Option<usize>)
        ensures
            match r {
                Some(i) => i < self.entries@.len() && self.entries@[i as int].key@ == key@,
                None => !has_key(self.entries@, key@),
            },
    {
        let mut i: usize = 0;
        while i < self.entries.len()
            invariant
                0 <= i <= self.entries@.len(),
                forall|j: int| 0 <= j < i ==> (#[trigger] self.entries@[j]).key@ != key@,
            decreases self.entries@.len() - i,
        {
            if self.entries[i].key == *key {
                return Some(i);
            }
            i = i + 1;
        }
        None
    }

    /// Binds `key` to `value`, replacing an earlier binding; tells whether
    /// the name was new.
    pub fn set_table(&mut self, key: String, value: Values, mutable: bool) -> (is_new: bool)
        ensures
            final(self)@ == old(self)@.insert(key@, (value@, mutable)),
            is_new == !old(self)@.contains_key(key@),
    {
        proof {
            use_type_invariant(&*self);
        }
        let ghost es = self.entries@;
        let ghost k = key@;
        let e = Entry { key, value, mutable };
        match self.find(&e.key) {
            Some(i) => {
                proof {
                    lemma_map_of_at(es, i as int);
                    lemma_map_of_update(es, i as int, e);
                }
                let mut entries: Vec<Entry> = Vec::new();
                std::mem::swap(&mut entries, &mut self.entries);
                entries.set(i, e);
                self.entries = entries;
                false
            },
            None => {
                proof {
                    lemma_map_of_push(es, e);
                }
                let mut entries: Vec<Entry> = Vec::new();
                std::mem::swap(&mut entries, &mut self.entries);
                entries.push(e);
                self.entries = entries;
                true
            },
        }
    }

    /// Copies every binding of `table` into this one; a binding of `table`
    /// replaces one of the same name.
    pub fn add_all(&mut self, table: &Table)
        ensures
            final(self)@ == old(self)@.union_prefer_right(table@),
    {
        proof {
            use_type_invariant(table);
        }
        let ghost src = table.entries@;
        let mut i: usize = 0;
        while i < table.entries.len()
            invariant
                0 <= i <= src.len(),
                src == table.entries@,
                distinct_keys(src),
                self@ == old(self)@.union_prefer_right(map_of(src.take(i as int))),
            decreases src.len() - i,
        {
            let e = &table.entries[i];
            proof {
                assert(src.take(i + 1) == src.take(i as int).push(src[i as int]));
                assert(distinct_keys(src.take(i as int)));
                assert(!has_key(src.take(i as int), src[i as int].key@)) by {
                    if has_key(src.take(i as int), src[i as int].key@) {
                        let j = choose|j: int|
                            0 <= j < i && (#[trigger] src.take(i as int)[j]).key@ == src[i as int].key@;
                        assert(src[j] == src.take(i as int)[j]);
                    }
                }
                lemma_map_of_push(src.take(i as int), src[i as int]);
            }
            self.set_table(e.key.clone(), e.value.copy(), e.mutable);
            assert(self@ =~= old(self)@.union_prefer_right(map_of(src.take(i + 1))));
            i = i + 1;
        }
        assert(src.take(src.len() as int) == src);
    }

    /// The value bound to `key` and whether it may be assigned again.
    pub fn get_value(&self, key: &String) -> (r: Option<(Values, bool)>)
        ensures
            match r {
                Some((v, m)) => self@.contains_key(key@) && self@[key@] == (v@, m),
                None => !self@.contains_key(key@),
            },
    {
        proof {
            use_type_invariant(self);
        }
        match self.find(key) {
            Some(i) => {
                proof {
                    lemma_map_of_at(self.entries@, i as int);
                }
                Some((self.entries[i].value.copy(), self.entries[i].mutable))
            },
            None => None,
        }
    }

    /// Removes the binding of `key`; tells whether there was one.
    pub fn delete(&mut self, key: &String) -> (removed: bool)
        ensures
            final(self)@ == old(self)@.remove(key@),
            removed == old(self)@.contains_key(key@),
    {
        proof {
            use_type_invariant(&*self);
        }
        let ghost es = self.entries@;
        match self.find(key) {
            Some(i) => {
                proof {
                    lemma_map_of_at(es, i as int);
                    lemma_map_of_remove(es, i as int);
                }
                let mut entries: Vec<Entry> = Vec::new();
                std::mem::swap(&mut entries, &mut self.entries);
                entries.remove(i);
                self.entries = entries;
                true
            },
            None => {
                assert(map_of(es).remove(key@) =~= map_of(es));
                false
            },
        }
    }
}

} // verus!
