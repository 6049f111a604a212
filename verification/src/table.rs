//! A small map from text keys to values, kept as a list without repeated keys.

use vstd::prelude::*;

verus! {

/// One key with its value.
#[derive(Debug)]
struct Entry<V> {
    key: String,
    value: V,
}

/// A map from text keys to values. Its view is the map from each key's text
/// to the view of its value.
#[derive(Debug)]
pub struct Table<V> {
    entries: Vec<Entry<V>>,
}

spec fn held_at<V>(es: Seq<Entry<V>>, k: Seq<char>, i: int) -> bool {
    0 <= i < es.len() && es[i].key@ == k
}

spec fn distinct<V>(es: Seq<Entry<V>>) -> bool {
    forall|k: Seq<char>, i: int, j: int|
        #[trigger] held_at(es, k, i) && #[trigger] held_at(es, k, j) ==> i == j
}

spec fn model<V: View>(es: Seq<Entry<V>>) -> Map<Seq<char>, V::V> {
    Map::new(
        |k: Seq<char>| exists|i: int| held_at(es, k, i),
        |k: Seq<char>| es[choose|i: int| held_at(es, k, i)].value@,
    )
}

proof fn lemma_model_at<V: View>(es: Seq<Entry<V>>, k: Seq<char>, i: int)
    requires
        distinct(es),
        held_at(es, k, i),
    ensures
        model(es).contains_key(k),
        model(es)[k] == es[i].value@,
{
    let j = choose|j: int| held_at(es, k, j);
    assert(held_at(es, k, j));
}

proof fn lemma_model_absent<V: View>(es: Seq<Entry<V>>, k: Seq<char>)
    requires
        forall|i: int| !held_at(es, k, i),
    ensures
        !model(es).contains_key(k),
{
}

proof fn lemma_model_push<V: View>(es: Seq<Entry<V>>, e: Entry<V>)
    requires
        distinct(es),
        forall|i: int| !held_at(es, e.key@, i),
    ensures
        distinct(es.push(e)),
        model(es.push(e)) == model(es).insert(e.key@, e.value@),
{
    let ns = es.push(e);
    let n = es.len() as int;
    assert forall|k: Seq<char>, i: int| #[trigger] held_at(ns, k, i) implies (i < n && held_at(
        es,
        k,
        i,
    )) || (i == n && k == e.key@) by {}
    assert(held_at(ns, e.key@, n));
    assert forall|k: Seq<char>, i: int| #[trigger] held_at(es, k, i) implies held_at(ns, k, i) by {}
    assert(distinct(ns));
    let target = model(es).insert(e.key@, e.value@);
    assert forall|k: Seq<char>| model(ns).contains_key(k) == target.contains_key(k) by {
        if model(ns).contains_key(k) {
            let i = choose|i: int| held_at(ns, k, i);
            assert(held_at(ns, k, i));
            if i < n {
                assert(held_at(es, k, i));
            }
        }
        if model(es).contains_key(k) {
            let i = choose|i: int| held_at(es, k, i);
            assert(held_at(ns, k, i));
        }
    }
    assert forall|k: Seq<char>| model(ns).contains_key(k) implies model(ns)[k] == target[k] by {
        let i = choose|i: int| held_at(ns, k, i);
        assert(held_at(ns, k, i));
        lemma_model_at(ns, k, i);
        if i < n {
            assert(held_at(es, k, i));
            lemma_model_at(es, k, i);
        }
    }
    assert(model(ns) =~= target);
}

proof fn lemma_model_update<V: View>(es: Seq<Entry<V>>, at: int, e: Entry<V>)
    requires
        distinct(es),
        held_at(es, e.key@, at),
    ensures
        distinct(es.update(at, e)),
        model(es.update(at, e)) == model(es).insert(e.key@, e.value@),
{
    let ns = es.update(at, e);
    assert forall|k: Seq<char>, i: int| #[trigger] held_at(ns, k, i) == held_at(es, k, i) by {}
    assert(distinct(ns));
    let target = model(es).insert(e.key@, e.value@);
    assert forall|k: Seq<char>| model(ns).contains_key(k) == target.contains_key(k) by {
        if model(ns).contains_key(k) {
            let i = choose|i: int| held_at(ns, k, i);
            assert(held_at(es, k, i));
        }
        if model(es).contains_key(k) {
            let i = choose|i: int| held_at(es, k, i);
            assert(held_at(ns, k, i));
        }
        if k == e.key@ {
            assert(held_at(ns, k, at));
        }
    }
    assert forall|k: Seq<char>| model(ns).contains_key(k) implies model(ns)[k] == target[k] by {
        let i = choose|i: int| held_at(ns, k, i);
        assert(held_at(ns, k, i));
        assert(held_at(es, k, i));
        lemma_model_at(ns, k, i);
        lemma_model_at(es, k, i);
    }
    assert(model(ns) =~= target);
}

proof fn lemma_model_remove<V: View>(es: Seq<Entry<V>>, at: int)
    requires
        distinct(es),
        0 <= at < es.len(),
    ensures
        distinct(es.remove(at)),
        model(es.remove(at)) == model(es).remove(es[at].key@),
{
    let ns = es.remove(at);
    let gone = es[at].key@;
    assert(held_at(es, gone, at));
    assert forall|k: Seq<char>, i: int| #[trigger] held_at(ns, k, i) implies held_at(
        es,
        k,
        if i < at {
            i
        } else {
            i + 1
        },
    ) by {}
    assert forall|k: Seq<char>, i: int| #[trigger] held_at(es, k, i) && i != at implies held_at(
        ns,
        k,
        if i < at {
            i
        } else {
            i - 1
        },
    ) by {}
    assert forall|k: Seq<char>, i: int, j: int| #[trigger]
        held_at(ns, k, i) && #[trigger] held_at(ns, k, j) implies i == j by {
        let oi = if i < at { i } else { i + 1 };
        let oj = if j < at { j } else { j + 1 };
        assert(held_at(es, k, oi) && held_at(es, k, oj));
    }
    assert(distinct(ns));
    let target = model(es).remove(gone);
    assert forall|k: Seq<char>| model(ns).contains_key(k) == target.contains_key(k) by {
        if model(ns).contains_key(k) {
            let i = choose|i: int| held_at(ns, k, i);
            let oi = if i < at { i } else { i + 1 };
            assert(held_at(es, k, oi));
            assert(oi != at);
        }
        if model(es).contains_key(k) && k != gone {
            let i = choose|i: int| held_at(es, k, i);
            assert(held_at(es, k, i));
            assert(held_at(ns, k, if i < at { i } else { i - 1 }));
        }
    }
    assert forall|k: Seq<char>| model(ns).contains_key(k) implies model(ns)[k] == target[k] by {
        let i = choose|i: int| held_at(ns, k, i);
        let oi = if i < at { i } else { i + 1 };
        assert(held_at(ns, k, i));
        assert(held_at(es, k, oi));
        lemma_model_at(ns, k, i);
        lemma_model_at(es, k, oi);
    }
    assert(model(ns) =~= target);
}

proof fn lemma_model_len<V: View>(es: Seq<Entry<V>>)
    requires
        distinct(es),
    ensures
        model(es).dom().finite(),
        model(es).dom().len() == es.len(),
    decreases es.len(),
{
    if es.len() == 0 {
        assert(model(es).dom() =~= Set::<Seq<char>>::empty());
    } else {
        let init = es.drop_last();
        let last = es.last();
        let n = es.len() - 1;
        assert forall|k: Seq<char>, i: int| #[trigger] held_at(init, k, i) implies held_at(
            es,
            k,
            i,
        ) by {}
        assert(distinct(init));
        assert(held_at(es, last.key@, n));
        assert forall|i: int| !held_at(init, last.key@, i) by {
            if held_at(init, last.key@, i) {
                assert(held_at(es, last.key@, i));
            }
        }
        lemma_model_len(init);
        lemma_model_absent(init, last.key@);
        lemma_model_push(init, last);
        assert(init.push(last) =~= es);
        assert(model(es).dom() =~= model(init).dom().insert(last.key@));
    }
}

proof fn lemma_model_same<V: View>(es: Seq<Entry<V>>, ns: Seq<Entry<V>>)
    requires
        distinct(es),
        ns.len() == es.len(),
        forall|i: int|
            0 <= i < es.len() ==> (#[trigger] ns[i]).key@ == es[i].key@ && ns[i].value@
                == es[i].value@,
    ensures
        distinct(ns),
        model(ns) == model(es),
{
    assert forall|k: Seq<char>, i: int| #[trigger] held_at(ns, k, i) == held_at(es, k, i) by {
        if 0 <= i < es.len() {
            assert(ns[i].key@ == es[i].key@);
        }
    }
    assert forall|k: Seq<char>| model(ns).contains_key(k) == model(es).contains_key(k) by {
        if model(ns).contains_key(k) {
            let i = choose|i: int| held_at(ns, k, i);
            assert(held_at(es, k, i));
        }
        if model(es).contains_key(k) {
            let i = choose|i: int| held_at(es, k, i);
            assert(held_at(ns, k, i));
        }
    }
    assert forall|k: Seq<char>| model(ns).contains_key(k) implies model(ns)[k] == model(es)[k] by {
        let i = choose|i: int| held_at(ns, k, i);
        assert(held_at(ns, k, i));
        assert(held_at(es, k, i));
        lemma_model_at(ns, k, i);
        lemma_model_at(es, k, i);
        assert(ns[i].value@ == es[i].value@);
    }
    assert(model(ns) =~= model(es));
}

/// Whether `keys` lists the keys of `m`, each once.
pub open spec fn lists_keys_of<T>(keys: Seq<String>, m: Map<Seq<char>, T>) -> bool {
    &&& forall|i: int| 0 <= i < keys.len() ==> m.contains_key((#[trigger] keys[i])@)
    &&& forall|k: Seq<char>|
        #[trigger] m.contains_key(k) ==> exists|i: int|
            0 <= i < keys.len() && (#[trigger] keys[i])@ == k
    &&& forall|i: int, j: int|
        0 <= i < j < keys.len() ==> (#[trigger] keys[i])@ != (#[trigger] keys[j])@
}

fn copy_bytes(v: &Vec<u8>) -> (r: Vec<u8>)
    ensures
        r@ == v@,
{
    let mut r: Vec<u8> = Vec::new();
    let mut i: usize = 0;
    while i < v.len()
        invariant
            i <= v@.len(),
            r@ == v@.subrange(0, i as int),
        decreases v@.len() - i,
    {
        r.push(v[i]);
        i += 1;
        assert(r@ =~= v@.subrange(0, i as int));
    }
    assert(v@.subrange(0, v@.len() as int) =~= v@);
    r
}

/// The place of a key in the list, if it is there.
fn find<V>(entries: &Vec<Entry<V>>, key: &String) -> (r: Option<usize>)
    ensures
        match r {
            Some(i) => held_at(entries@, key@, i as int),
            None => forall|i: int| !held_at(entries@, key@, i),
        },
{
    let mut i: usize = 0;
    while i < entries.len()
        invariant
            i <= entries@.len(),
            forall|j: int| 0 <= j < i ==> !held_at(entries@, key@, j),
        decreases entries@.len() - i,
    {
        if entries[i].key == *key {
            return Some(i);
        }
        i += 1;
    }
    None
}

impl<V: View> View for Table<V> {
    type V = Map<Seq<char>, V::V>;

    closed spec fn view(&self) -> Map<Seq<char>, V::V> {
        model(self.entries@)
    }
}

impl<V> Table<V> {
    #[verifier::type_invariant]
    closed spec fn keys_distinct(self) -> bool {
        distinct(self.entries@)
    }
}

impl<V: View> Table<V> {
    /// An empty table.
    pub fn new() -> (r: Self)
        ensures
            r@ == Map::<Seq<char>, V::V>::empty(),
    {
        let r = Table { entries: Vec::new() };
        assert(r@ =~= Map::<Seq<char>, V::V>::empty());
        r
    }

    /// The number of keys.
    pub fn len(&self) -> (r: usize)
        ensures
            self@.dom().finite(),
            r == self@.len(),
    {
        proof {
            use_type_invariant(self);
            lemma_model_len(self.entries@);
        }
        self.entries.len()
    }

    /// The keys, each once, in no order that callers may rely on.
    pub fn keys(&self) -> (r: Vec<String>)
        ensures
            lists_keys_of(r@, self@),
    {
        proof {
            use_type_invariant(self);
        }
        let mut r: Vec<String> = Vec::new();
        let mut i: usize = 0;
        while i < self.entries.len()
            invariant
                i <= self.entries@.len(),
                r@.len() == i,
                forall|j: int| 0 <= j < i ==> (#[trigger] r@[j])@ == self.entries@[j].key@,
            decreases self.entries@.len() - i,
        {
            r.push(self.entries[i].key.clone());
            i += 1;
        }
        proof {
            let es = self.entries@;
            assert forall|j: int| 0 <= j < r@.len() implies self@.contains_key(
                (#[trigger] r@[j])@,
            ) by {
                assert(held_at(es, r@[j]@, j));
                lemma_model_at(es, r@[j]@, j);
            }
            assert forall|k: Seq<char>| #[trigger] self@.contains_key(k) implies exists|j: int|
                0 <= j < r@.len() && (#[trigger] r@[j])@ == k by {
                let j = choose|j: int| held_at(es, k, j);
                assert(held_at(es, k, j));
                assert(r@[j]@ == k);
            }
            assert forall|a: int, b: int| 0 <= a < b < r@.len() implies (#[trigger] r@[a])@ != (
            #[trigger] r@[b])@ by {
                if r@[a]@ == r@[b]@ {
                    assert(held_at(es, r@[a]@, a));
                    assert(held_at(es, r@[a]@, b));
                }
            }
        }
        r
    }

    /// Looks a key up; an absent key is answered by `None`.
    pub fn get(&self, key: &String) -> (r: Option<&V>)
        ensures
            match r {
                Some(v) => self@.contains_key(key@) && v@ == self@[key@],
                None => !self@.contains_key(key@),
            },
    {
        proof {
            use_type_invariant(self);
        }
        match find(&self.entries, key) {
            Some(i) => {
                proof {
                    lemma_model_at(self.entries@, key@, i as int);
                }
                Some(&self.entries[i].value)
            },
            None => {
                proof {
                    lemma_model_absent(self.entries@, key@);
                }
                None
            },
        }
    }

    /// Whether the key is present.
    pub fn contains(&self, key: &String) -> (r: bool)
        ensures
            r == self@.contains_key(key@),
    {
        self.get(key).is_some()
    }

    /// Puts a value under a key, in place of any value that was there.
    pub fn insert(&mut self, key: String, value: V)
        ensures
            final(self)@ == old(self)@.insert(key@, value@),
    {
        proof {
            use_type_invariant(&*self);
        }
        let mut entries: Vec<Entry<V>> = Vec::new();
        std::mem::swap(&mut entries, &mut self.entries);
        let entry = Entry { key, value };
        match find(&entries, &entry.key) {
            Some(i) => {
                proof {
                    lemma_model_update(entries@, i as int, entry);
                }
                entries.set(i, entry);
            },
            None => {
                proof {
                    lemma_model_push(entries@, entry);
                }
                entries.push(entry);
            },
        }
        self.entries = entries;
    }

    /// Takes a key out with its value; an absent key leaves the table as it
    /// was and is answered by `None`.
    pub fn remove(&mut self, key: &String) -> (r: Option<V>)
        ensures
            final(self)@ == old(self)@.remove(key@),
            match r {
                Some(v) => old(self)@.contains_key(key@) && v@ == old(self)@[key@],
                None => !old(self)@.contains_key(key@),
            },
    {
        proof {
            use_type_invariant(&*self);
        }
        let mut entries: Vec<Entry<V>> = Vec::new();
        std::mem::swap(&mut entries, &mut self.entries);
        let r = match find(&entries, key) {
            Some(i) => {
                proof {
                    lemma_model_at(entries@, key@, i as int);
                    lemma_model_remove(entries@, i as int);
                }
                let entry = entries.remove(i);
                Some(entry.value)
            },
            None => {
                proof {
                    lemma_model_absent(entries@, key@);
                    assert(model(entries@).remove(key@) =~= model(entries@));
                }
                None
            },
        };
        self.entries = entries;
        r
    }
}

impl Table<Vec<u8>> {
    /// A copy with the same contents.
    pub fn duplicate(&self) -> (r: Self)
        ensures
            r@ == self@,
    {
        proof {
            use_type_invariant(self);
        }
        let mut entries: Vec<Entry<Vec<u8>>> = Vec::new();
        let mut i: usize = 0;
        while i < self.entries.len()
            invariant
                i <= self.entries@.len(),
                entries@.len() == i,
                forall|j: int|
                    0 <= j < i ==> (#[trigger] entries@[j]).key@ == self.entries@[j].key@
                        && entries@[j].value@ == self.entries@[j].value@,
            decreases self.entries@.len() - i,
        {
            let e = &self.entries[i];
            entries.push(Entry { key: e.key.clone(), value: copy_bytes(&e.value) });
            i += 1;
        }
        proof {
            lemma_model_same(self.entries@, entries@);
        }
        Table { entries }
    }
}

} // verus!
