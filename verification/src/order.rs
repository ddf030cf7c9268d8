//! The order strings sort in: character by character, by code point, with a
//! proper prefix first. It is the order of their UTF-8 bytes, which is the
//! order a sorted map of strings keeps.

use vstd::prelude::*;

verus! {

/// How two values compare.
#[derive(Debug, Clone, Copy, PartialEq, Eq, Structural)]
pub enum Order {
    Less,
    Equal,
    Greater,
}

/// Whether `a` sorts before `b`, given that they agree before position `i`.
pub open spec fn lex_lt_from(a: Seq<char>, b: Seq<char>, i: int) -> bool
    decreases a.len() - i,
{
    if i < 0 {
        false
    } else if i >= a.len() {
        i < b.len()
    } else if i >= b.len() {
        false
    } else if a[i] != b[i] {
        a[i] < b[i]
    } else {
        lex_lt_from(a, b, i + 1)
    }
}

/// Whether `a` sorts strictly before `b`.
pub open spec fn lex_lt(a: Seq<char>, b: Seq<char>) -> bool {
    lex_lt_from(a, b, 0)
}

/// No string sorts before itself.
pub proof fn lemma_lex_irreflexive(a: Seq<char>, i: int)
    requires
        0 <= i,
    ensures
        !lex_lt_from(a, a, i),
    decreases a.len() - i,
{
    if i < a.len() {
        lemma_lex_irreflexive(a, i + 1);
    }
}

/// Two strings never sort before each other.
pub proof fn lemma_lex_asymmetric(a: Seq<char>, b: Seq<char>, i: int)
    requires
        0 <= i,
        lex_lt_from(a, b, i),
    ensures
        !lex_lt_from(b, a, i),
    decreases a.len() - i,
{
    if i < a.len() && i < b.len() && a[i] == b[i] {
        lemma_lex_asymmetric(a, b, i + 1);
    }
}

/// Of two different strings that agree before `i`, one sorts first.
pub proof fn lemma_lex_total(a: Seq<char>, b: Seq<char>, i: int)
    requires
        0 <= i <= a.len(),
        i <= b.len(),
        forall|j: int| 0 <= j < i ==> a[j] == b[j],
        a != b,
    ensures
        lex_lt_from(a, b, i) || lex_lt_from(b, a, i),
    decreases a.len() - i,
{
    if i == a.len() && i == b.len() {
        assert(a =~= b);
    } else if i < a.len() && i < b.len() && a[i] == b[i] {
        lemma_lex_total(a, b, i + 1);
    } else if i < a.len() && i < b.len() {
        assert(a[i] != b[i]);
    }
}

/// Sorting before is transitive.
pub proof fn lemma_lex_transitive(a: Seq<char>, b: Seq<char>, c: Seq<char>, i: int)
    requires
        0 <= i,
        lex_lt_from(a, b, i),
        lex_lt_from(b, c, i),
    ensures
        lex_lt_from(a, c, i),
    decreases a.len() - i,
{
    if i < a.len() && i < b.len() && i < c.len() && a[i] == b[i] && b[i] == c[i] {
        lemma_lex_transitive(a, b, c, i + 1);
    }
}

/// How two strings compare.
pub open spec fn lex_order(a: Seq<char>, b: Seq<char>) -> Order {
    if a == b {
        Order::Equal
    } else if lex_lt(a, b) {
        Order::Less
    } else {
        Order::Greater
    }
}

/// Compare two character runs in string order.
pub fn compare_chars(a: &[char], b: &[char]) -> (r: Order)
    ensures
        r == lex_order(a@, b@),
        r == Order::Greater <==> lex_lt(b@, a@),
{
    let mut i: usize = 0;
    while i < a.len() && i < b.len() && a[i] == b[i]
        invariant
            i <= a@.len(),
            i <= b@.len(),
            forall|j: int| 0 <= j < i ==> a@[j] == b@[j],
            lex_lt_from(a@, b@, 0) == lex_lt_from(a@, b@, i as int),
            lex_lt_from(b@, a@, 0) == lex_lt_from(b@, a@, i as int),
        decreases a@.len() - i,
    {
        i = i + 1;
    }
    proof {
        if a@ != b@ {
            lemma_lex_total(a@, b@, i as int);
        }
        lemma_lex_irreflexive(a@, 0);
        if lex_lt(a@, b@) {
            lemma_lex_asymmetric(a@, b@, 0);
        }
    }
    if i == a.len() && i == b.len() {
        proof {
            assert(a@ =~= b@);
        }
        Order::Equal
    } else if i == a.len() {
        Order::Less
    } else if i == b.len() {
        Order::Greater
    } else if a[i] < b[i] {
        Order::Less
    } else {
        Order::Greater
    }
}

} // verus!

verus! {

/// Whether keys are in strictly ascending string order.
pub open spec fn keys_ascending(keys: Seq<Seq<char>>) -> bool {
    forall|i: int, j: int| 0 <= i < j < keys.len() ==> lex_lt(#[trigger] keys[i], #[trigger] keys[j])
}

/// The value the last pair with key `k` carries, or `None` when no pair has
/// that key: what a map holds after inserting the pairs in order.
pub open spec fn last_value<V>(pairs: Seq<(Seq<char>, V)>, k: Seq<char>) -> Option<V>
    decreases pairs.len(),
{
    if pairs.len() == 0 {
        None
    } else if pairs.last().0 == k {
        Some(pairs.last().1)
    } else {
        last_value(pairs.drop_last(), k)
    }
}

/// A map from strings to values, kept in ascending key order.
pub struct SortedMap<V> {
    keys: Vec<Vec<char>>,
    vals: Vec<V>,
}

impl<V: View> SortedMap<V> {
    /// The keys, in ascending order.
    pub closed spec fn keys(&self) -> Seq<Seq<char>> {
        Seq::new(self.keys@.len(), |i: int| self.keys@[i]@)
    }

    /// The values, in the order of their keys.
    pub closed spec fn vals(&self) -> Seq<V> {
        self.vals@
    }

    /// Keys and values line up, and the keys ascend.
    pub closed spec fn wf(&self) -> bool {
        &&& self.keys@.len() == self.vals@.len()
        &&& keys_ascending(self.keys())
    }

    /// The value a key maps to.
    pub open spec fn get_spec(&self, k: Seq<char>) -> Option<V> {
        if exists|i: int| 0 <= i < self.keys().len() && self.keys()[i] == k {
            let i = choose|i: int| 0 <= i < self.keys().len() && self.keys()[i] == k;
            Some(self.vals()[i])
        } else {
            None
        }
    }

    /// Whether the map holds exactly what inserting the pairs in order leaves:
    /// each key the pairs name, once, with the value its last pair carries.
    /// The pairs carry values by their views.
    pub open spec fn models(&self, pairs: Seq<(Seq<char>, V::V)>) -> bool {
        &&& self.wf()
        &&& self.keys().len() == self.vals().len()
        &&& keys_ascending(self.keys())
        &&& forall|i: int| 0 <= i < self.keys().len() ==> last_value(pairs, #[trigger] self.keys()[i]) == Some(self.vals()[i]@)
        &&& forall|k: Seq<char>| #[trigger] last_value(pairs, k) is Some ==> self.keys().contains(k)
    }

    /// An empty map.
    pub fn new() -> (r: Self)
        ensures
            r.wf(),
            r.keys().len() == 0,
            r.models(Seq::empty()),
    {
        let r = SortedMap { keys: Vec::new(), vals: Vec::new() };
        assert(r.keys() =~= Seq::<Seq<char>>::empty());
        r
    }

    /// How many keys the map holds.
    pub fn len(&self) -> (r: usize)
        requires
            self.wf(),
        ensures
            r == self.keys().len(),
            r == self.vals().len(),
    {
        self.keys.len()
    }

    /// The key at a position.
    pub fn key_at(&self, i: usize) -> (r: &[char])
        requires
            self.wf(),
            i < self.keys().len(),
        ensures
            r@ == self.keys()[i as int],
    {
        self.keys[i].as_slice()
    }

    /// The value at a position.
    pub fn val_at(&self, i: usize) -> (r: &V)
        requires
            self.wf(),
            i < self.vals().len(),
        ensures
            *r == self.vals()[i as int],
    {
        &self.vals[i]
    }

    /// Where a key is, or where it would go.
    pub fn find(&self, key: &[char]) -> (r: Result<usize, usize>)
        requires
            self.wf(),
        ensures
            match r {
                Ok(i) => i < self.keys().len() && self.keys()[i as int] == key@,
                Err(p) => p <= self.keys().len() && !self.keys().contains(key@) && (forall|j: int|
                    0 <= j < p ==> lex_lt(#[trigger] self.keys()[j], key@)) && (forall|j: int|
                    p <= j < self.keys().len() ==> lex_lt(key@, #[trigger] self.keys()[j])),
            },
    {
        let mut p: usize = 0;
        while p < self.keys.len()
            invariant
                p <= self.keys@.len(),
                keys_ascending(self.keys()),
                forall|j: int| 0 <= j < p ==> lex_lt(#[trigger] self.keys()[j], key@),
            decreases self.keys@.len() - p,
        {
            match compare_chars(self.keys[p].as_slice(), key) {
                Order::Less => {},
                Order::Equal => return Ok(p),
                Order::Greater => {
                    proof {
                        assert forall|j: int| p <= j < self.keys().len() implies lex_lt(key@, #[trigger] self.keys()[j]) by {
                            if j > p {
                                lemma_lex_transitive(key@, self.keys()[p as int], self.keys()[j], 0);
                            }
                        }
                        assert forall|j: int| 0 <= j < self.keys().len() implies self.keys()[j] != key@ by {
                            if j < p {
                                lemma_lex_irreflexive(key@, 0);
                            } else {
                                lemma_lex_irreflexive(key@, 0);
                            }
                        }
                    }
                    return Err(p);
                },
            }
            p = p + 1;
        }
        proof {
            assert forall|j: int| 0 <= j < self.keys().len() implies self.keys()[j] != key@ by {
                lemma_lex_irreflexive(key@, 0);
            }
        }
        Err(p)
    }

    /// The value a key maps to.
    pub fn get(&self, key: &[char]) -> (r: Option<&V>)
        requires
            self.wf(),
        ensures
            match r {
                Some(v) => self.get_spec(key@) == Some(*v),
                None => self.get_spec(key@) is None,
            },
    {
        match self.find(key) {
            Ok(i) => {
                proof {
                    self.lemma_index_unique(i as int, key@);
                }
                Some(&self.vals[i])
            },
            Err(_) => None,
        }
    }

    /// A key sits at one position only.
    pub proof fn lemma_index_unique(&self, i: int, k: Seq<char>)
        requires
            self.wf(),
            0 <= i < self.keys().len(),
            self.keys()[i] == k,
        ensures
            self.get_spec(k) == Some(self.vals()[i]),
    {
        assert(exists|j: int| 0 <= j < self.keys().len() && self.keys()[j] == k);
        let j = choose|j: int| 0 <= j < self.keys().len() && self.keys()[j] == k;
        lemma_lex_irreflexive(k, 0);
        if j < i {
            assert(lex_lt(self.keys()[j], self.keys()[i]));
        } else if j > i {
            assert(lex_lt(self.keys()[i], self.keys()[j]));
        }
        assert(j == i);
    }

    /// What a map that models some pairs holds for a key.
    pub proof fn lemma_models_get(&self, pairs: Seq<(Seq<char>, V::V)>, k: Seq<char>)
        requires
            self.models(pairs),
        ensures
            match self.get_spec(k) {
                Some(v) => last_value(pairs, k) == Some(v@),
                None => last_value(pairs, k) is None,
            },
    {
        if last_value(pairs, k) is Some {
            assert(self.keys().contains(k));
            let i = choose|i: int| 0 <= i < self.keys().len() && self.keys()[i] == k;
            self.lemma_index_unique(i, k);
        } else {
            if self.get_spec(k) is Some {
                let i = choose|i: int| 0 <= i < self.keys().len() && self.keys()[i] == k;
                assert(last_value(pairs, self.keys()[i]) == Some(self.vals()[i]@));
            }
        }
    }

    /// Insert a key with a value, replacing the value a present key had.
    pub fn insert(&mut self, key: Vec<char>, value: V)
        requires
            old(self).wf(),
        ensures
            final(self).wf(),
            forall|pairs: Seq<(Seq<char>, V::V)>| old(self).models(pairs) ==> #[trigger] final(self).models(pairs.push((key@, value@))),
            final(self).keys().len() >= old(self).keys().len(),
            final(self).keys() == sorted_insert(old(self).keys(), key@),
    {
        let ghost k = key@;
        let ghost before_keys = self.keys();
        let ghost before_vals = self.vals();
        match self.find(key.as_slice()) {
            Ok(i) => {
                self.vals.set(i, value);
                proof {
                    assert(self.keys() == before_keys);
                    lemma_sorted_insert_present(before_keys, k, i as int);
                    assert forall|pairs: Seq<(Seq<char>, V::V)>| #![trigger old(self).models(pairs)] old(self).models(pairs) implies final(self).models(pairs.push((k, value@))) by {
                        let np = pairs.push((k, value@));
                        assert(np.drop_last() == pairs);
                        assert forall|j: int| 0 <= j < self.keys().len() implies last_value(np, #[trigger] self.keys()[j]) == Some(self.vals()[j]@) by {
                            if j != i {
                                assert(self.keys()[j] != k) by {
                                    if j < i {
                                        lemma_lex_irreflexive(k, 0);
                                    } else {
                                        lemma_lex_irreflexive(k, 0);
                                    }
                                }
                            }
                        }
                        assert forall|q: Seq<char>| #[trigger] last_value(np, q) is Some implies self.keys().contains(q) by {
                            if q == k {
                                assert(self.keys()[i as int] == k);
                            } else {
                                assert(last_value(pairs, q) is Some);
                            }
                        }
                    }
                }
            },
            Err(p) => {
                self.keys.insert(p, key);
                self.vals.insert(p, value);
                proof {
                    let nk = self.keys();
                    assert(nk =~= before_keys.insert(p as int, k));
                    lemma_sorted_insert_at(before_keys, k, p as int);
                    assert(self.vals() =~= before_vals.insert(p as int, value));
                    assert forall|a: int, b: int| 0 <= a < b < nk.len() implies lex_lt(#[trigger] nk[a], #[trigger] nk[b]) by {
                        if b < p {
                        } else if a > p {
                        } else if a == p {
                        } else if b == p {
                        } else {
                        }
                    }
                    assert forall|pairs: Seq<(Seq<char>, V::V)>| #![trigger old(self).models(pairs)] old(self).models(pairs) implies final(self).models(pairs.push((k, value@))) by {
                        let np = pairs.push((k, value@));
                        assert(np.drop_last() == pairs);
                        assert forall|j: int| 0 <= j < nk.len() implies last_value(np, #[trigger] nk[j]) == Some(self.vals()[j]@) by {
                            if j < p {
                                assert(nk[j] == before_keys[j]);
                                assert(nk[j] != k);
                            } else if j > p {
                                assert(nk[j] == before_keys[j - 1]);
                                assert(nk[j] != k);
                            }
                        }
                        assert forall|q: Seq<char>| #[trigger] last_value(np, q) is Some implies nk.contains(q) by {
                            if q == k {
                                assert(nk[p as int] == k);
                            } else {
                                assert(last_value(pairs, q) is Some);
                                assert(before_keys.contains(q));
                                let j = choose|j: int| 0 <= j < before_keys.len() && before_keys[j] == q;
                                if j < p {
                                    assert(nk[j] == q);
                                } else {
                                    assert(nk[j + 1] == q);
                                }
                            }
                        }
                    }
                }
            },
        }
    }
}

/// A key inserted into keys in ascending order: left as they are when it is
/// already there, else placed before the first key it sorts before.
pub open spec fn sorted_insert(keys: Seq<Seq<char>>, k: Seq<char>) -> Seq<Seq<char>>
    decreases keys.len(),
{
    if keys.len() == 0 {
        seq![k]
    } else if keys[0] == k {
        keys
    } else if lex_lt(k, keys[0]) {
        seq![k] + keys
    } else {
        seq![keys[0]] + sorted_insert(keys.drop_first(), k)
    }
}

/// Inserting where a search found the key's place is [`sorted_insert`].
pub proof fn lemma_sorted_insert_at(keys: Seq<Seq<char>>, k: Seq<char>, p: int)
    requires
        0 <= p <= keys.len(),
        keys_ascending(keys),
        forall|j: int| 0 <= j < p ==> lex_lt(#[trigger] keys[j], k),
        forall|j: int| p <= j < keys.len() ==> lex_lt(k, #[trigger] keys[j]),
    ensures
        sorted_insert(keys, k) == keys.insert(p, k),
    decreases keys.len(),
{
    if keys.len() == 0 {
        assert(keys.insert(p, k) =~= seq![k]);
    } else if p == 0 {
        lemma_lex_irreflexive(k, 0);
        assert(keys[0] != k);
        assert(keys.insert(0, k) =~= seq![k] + keys);
    } else {
        lemma_lex_irreflexive(k, 0);
        assert(keys[0] != k);
        lemma_lex_asymmetric(keys[0], k, 0);
        let rest = keys.drop_first();
        assert forall|a: int, b: int| 0 <= a < b < rest.len() implies lex_lt(#[trigger] rest[a], #[trigger] rest[b]) by {
            assert(rest[a] == keys[a + 1] && rest[b] == keys[b + 1]);
        }
        assert forall|j: int| 0 <= j < p - 1 implies lex_lt(#[trigger] rest[j], k) by {
            assert(rest[j] == keys[j + 1]);
        }
        assert forall|j: int| p - 1 <= j < rest.len() implies lex_lt(k, #[trigger] rest[j]) by {
            assert(rest[j] == keys[j + 1]);
        }
        lemma_sorted_insert_at(rest, k, p - 1);
        assert(keys.insert(p, k) =~= seq![keys[0]] + rest.insert(p - 1, k));
    }
}

/// Keys already holding a key are left as they are.
pub proof fn lemma_sorted_insert_present(keys: Seq<Seq<char>>, k: Seq<char>, i: int)
    requires
        0 <= i < keys.len(),
        keys[i] == k,
        keys_ascending(keys),
    ensures
        sorted_insert(keys, k) == keys,
    decreases keys.len(),
{
    if keys[0] != k {
        assert(i > 0);
        assert(lex_lt(keys[0], keys[i]));
        lemma_lex_asymmetric(keys[0], k, 0);
        let rest = keys.drop_first();
        assert forall|a: int, b: int| 0 <= a < b < rest.len() implies lex_lt(#[trigger] rest[a], #[trigger] rest[b]) by {
            assert(rest[a] == keys[a + 1] && rest[b] == keys[b + 1]);
        }
        lemma_sorted_insert_present(rest, k, i - 1);
        assert(seq![keys[0]] + rest =~= keys);
    }
}

/// The keys inserting these names in order leaves.
pub open spec fn keys_after(names: Seq<Seq<char>>) -> Seq<Seq<char>>
    decreases names.len(),
{
    if names.len() == 0 {
        Seq::empty()
    } else {
        sorted_insert(keys_after(names.drop_last()), names.last())
    }
}

/// Inserting a key keeps every key there was and adds that one.
pub proof fn lemma_sorted_insert_contains(keys: Seq<Seq<char>>, k: Seq<char>)
    ensures
        sorted_insert(keys, k).contains(k),
        forall|i: int| 0 <= i < keys.len() ==> sorted_insert(keys, k).contains(#[trigger] keys[i]),
    decreases keys.len(),
{
    let r = sorted_insert(keys, k);
    if keys.len() == 0 {
        assert(r[0] == k);
    } else if keys[0] == k {
        assert(r[0] == k);
        assert forall|i: int| 0 <= i < keys.len() implies r.contains(#[trigger] keys[i]) by {
            assert(r[i] == keys[i]);
        }
    } else if lex_lt(k, keys[0]) {
        assert(r[0] == k);
        assert forall|i: int| 0 <= i < keys.len() implies r.contains(#[trigger] keys[i]) by {
            assert(r[i + 1] == keys[i]);
        }
    } else {
        let rest = keys.drop_first();
        lemma_sorted_insert_contains(rest, k);
        let sub = sorted_insert(rest, k);
        assert(r == seq![keys[0]] + sub);
        let j = choose|j: int| 0 <= j < sub.len() && sub[j] == k;
        assert(r[j + 1] == k);
        assert forall|i: int| 0 <= i < keys.len() implies r.contains(#[trigger] keys[i]) by {
            if i == 0 {
                assert(r[0] == keys[0]);
            } else {
                assert(rest[i - 1] == keys[i]);
                let m = choose|m: int| 0 <= m < sub.len() && sub[m] == rest[i - 1];
                assert(r[m + 1] == keys[i]);
            }
        }
    }
}

/// Every name inserted is among the keys inserting them leaves.
pub proof fn lemma_keys_after_contains(names: Seq<Seq<char>>, i: int)
    requires
        0 <= i < names.len(),
    ensures
        keys_after(names).contains(names[i]),
    decreases names.len(),
{
    let before = keys_after(names.drop_last());
    lemma_sorted_insert_contains(before, names.last());
    if i < names.len() - 1 {
        lemma_keys_after_contains(names.drop_last(), i);
        let j = choose|j: int| 0 <= j < before.len() && before[j] == names.drop_last()[i];
        assert(sorted_insert(before, names.last()).contains(before[j]));
    }
}

/// No pair under a key leaves no value for it.
pub proof fn lemma_last_value_absent<V>(pairs: Seq<(Seq<char>, V)>, k: Seq<char>)
    requires
        forall|j: int| 0 <= j < pairs.len() ==> (#[trigger] pairs[j]).0 != k,
    ensures
        last_value(pairs, k) is None,
    decreases pairs.len(),
{
    if pairs.len() > 0 {
        assert(pairs.last() == pairs[pairs.len() - 1]);
        let rest = pairs.drop_last();
        assert forall|j: int| 0 <= j < rest.len() implies (#[trigger] rest[j]).0 != k by {
            assert(rest[j] == pairs[j]);
        }
        lemma_last_value_absent(rest, k);
    }
}

/// The value left for a key is that of its last pair.
pub proof fn lemma_last_value_is_last<V>(pairs: Seq<(Seq<char>, V)>, k: Seq<char>, j: int)
    requires
        0 <= j < pairs.len(),
        pairs[j].0 == k,
        forall|i: int| j < i < pairs.len() ==> (#[trigger] pairs[i]).0 != k,
    ensures
        last_value(pairs, k) == Some(pairs[j].1),
    decreases pairs.len(),
{
    if j < pairs.len() - 1 {
        assert(pairs.last() == pairs[pairs.len() - 1]);
        let rest = pairs.drop_last();
        assert forall|i: int| j < i < rest.len() implies (#[trigger] rest[i]).0 != k by {
            assert(rest[i] == pairs[i]);
        }
        assert(rest[j] == pairs[j]);
        lemma_last_value_is_last(rest, k, j);
    }
}

} // verus!
