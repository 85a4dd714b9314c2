//! A table from names to values.

use vstd::prelude::*;

verus! {

/// The map that the first `n` keys and values make, each key with the value
/// at its position.
pub open spec fn entries<V>(keys: Seq<Seq<char>>, values: Seq<V>, n: nat) -> Map<Seq<char>, V>
    decreases n,
{
    if n == 0 {
        Map::empty()
    } else {
        entries(keys, values, (n - 1) as nat).insert(keys[n - 1], values[n - 1])
    }
}

/// Whether `key` is one of the first `n` keys.
pub open spec fn among(keys: Seq<Seq<char>>, n: nat, key: Seq<char>) -> bool {
    exists|i: int| 0 <= i < n && #[trigger] keys[i] == key
}

/// The keys of `entries` are the first `n` keys.
proof fn lemma_entries_keys<V>(keys: Seq<Seq<char>>, values: Seq<V>, n: nat)
    requires
        n <= keys.len(),
        n <= values.len(),
    ensures
        forall|key: Seq<char>| #[trigger]
            entries(keys, values, n).contains_key(key) <==> among(keys, n, key),
    decreases n,
{
    if n > 0 {
        let m = (n - 1) as nat;
        lemma_entries_keys(keys, values, m);
        assert forall|key: Seq<char>| #[trigger]
            entries(keys, values, n).contains_key(key) <==> among(keys, n, key) by {
            if entries(keys, values, n).contains_key(key) {
                if key == keys[n - 1] {
                    assert(keys[n - 1] == key);
                } else {
                    assert(entries(keys, values, m).contains_key(key));
                    assert(among(keys, m, key));
                    let i = choose|i: int| 0 <= i < m && #[trigger] keys[i] == key;
                    assert(keys[i] == key);
                }
            }
            if among(keys, n, key) {
                let i = choose|i: int| 0 <= i < n && #[trigger] keys[i] == key;
                if i < n - 1 {
                    assert(keys[i] == key);
                    assert(among(keys, m, key));
                    assert(entries(keys, values, m).contains_key(key));
                }
            }
        }
    }
}

/// Where no key occurs twice, `entries` maps each of the first `n` keys to
/// the value at its position.
proof fn lemma_entries_value<V>(keys: Seq<Seq<char>>, values: Seq<V>, n: nat, i: int)
    requires
        n <= keys.len(),
        n <= values.len(),
        keys.no_duplicates(),
        0 <= i < n,
    ensures
        entries(keys, values, n).contains_key(keys[i]),
        entries(keys, values, n)[keys[i]] == values[i],
    decreases n,
{
    if i < n - 1 {
        lemma_entries_value(keys, values, (n - 1) as nat, i);
    }
}

/// A table from names to values, in the order in which the names came in. No
/// name occurs twice.
pub struct Table<V> {
    keys: Vec<String>,
    values: Vec<V>,
}

impl<V> Table<V> {
    /// The texts of the names, in the order in which they came in.
    pub closed spec fn names(&self) -> Seq<Seq<char>> {
        self.keys@.map_values(|key: String| key@)
    }

    /// The value of each name.
    pub closed spec fn view(&self) -> Map<Seq<char>, V> {
        entries(self.names(), self.values@, self.keys@.len())
    }

    /// Whether each name has a value and no name occurs twice.
    pub closed spec fn wf(&self) -> bool {
        &&& self.keys@.len() == self.values@.len()
        &&& self.names().no_duplicates()
    }

    /// A name is in the table exactly if it is among `names`, and no name is
    /// there twice.
    pub proof fn lemma_names(&self)
        requires
            self.wf(),
        ensures
            self.names().no_duplicates(),
            forall|name: Seq<char>| #[trigger] self@.contains_key(name) <==> self.names().contains(name),
    {
        lemma_entries_keys(self.names(), self.values@, self.keys@.len());
        assert forall|name: Seq<char>| #[trigger]
            self@.contains_key(name) <==> self.names().contains(name) by {
            if self@.contains_key(name) {
                assert(among(self.names(), self.keys@.len(), name));
                let i = choose|i: int| 0 <= i < self.keys@.len() && #[trigger] self.names()[i] == name;
                assert(self.names()[i] == name);
            }
            if self.names().contains(name) {
                let i = choose|i: int| 0 <= i < self.names().len() && self.names()[i] == name;
                assert(self.names()[i] == name);
                assert(among(self.names(), self.keys@.len(), name));
            }
        }
    }

}

impl<V: Copy> Table<V> {
    /// The table without any name.
    pub fn new() -> (table: Self)
        ensures
            table.wf(),
            table@ == Map::<Seq<char>, V>::empty(),
            table.names() == Seq::<Seq<char>>::empty(),
    {
        let table = Table { keys: Vec::new(), values: Vec::new() };
        assert(table.names() =~= Seq::<Seq<char>>::empty());
        table
    }

    /// The number of names.
    pub fn len(&self) -> (n: usize)
        ensures
            n == self.names().len(),
    {
        self.keys.len()
    }

    /// The value of `name`, if the table has the name.
    pub fn get(&self, name: &String) -> (value: Option<V>)
        requires
            self.wf(),
        ensures
            value == if self@.contains_key(name@) {
                Some(self@[name@])
            } else {
                None
            },
    {
        proof {
            lemma_entries_keys(self.names(), self.values@, self.keys@.len());
        }
        let mut i: usize = 0;
        while i < self.keys.len()
            invariant
                i <= self.keys.len(),
                self.keys@.len() == self.values@.len(),
                self.names().no_duplicates(),
                forall|k: int| 0 <= k < i ==> self.names()[k] != name@,
            decreases self.keys.len() - i,
        {
            if self.keys[i] == *name {
                proof {
                    assert(self.names()[i as int] == name@);
                    lemma_entries_value(self.names(), self.values@, self.keys@.len(), i as int);
                }
                return Some(self.values[i]);
            }
            i += 1;
        }
        None
    }

    /// Gives `name` the value `value`: the name comes in where the table
    /// does not have it, and gets the new value where it does.
    pub fn put(&mut self, name: String, value: V)
        requires
            old(self).wf(),
        ensures
            final(self).wf(),
            final(self)@ == old(self)@.insert(name@, value),
    {
        let mut i: usize = 0;
        while i < self.keys.len()
            invariant
                i <= self.keys.len(),
                *self == *old(self),
                self.wf(),
                forall|k: int| 0 <= k < i ==> self.names()[k] != name@,
            decreases self.keys.len() - i,
        {
            if self.keys[i] == name {
                proof {
                    assert(self.names()[i as int] == name@);
                    lemma_entries_update(self.names(), self.values@, self.keys@.len(), i as int, value);
                }
                self.values.set(i, value);
                return;
            }
            i += 1;
        }
        proof {
            lemma_entries_keys(self.names(), self.values@, self.keys@.len());
            if self@.contains_key(name@) {
                let k = choose|k: int| 0 <= k < self.keys@.len() && #[trigger] self.names()[k] == name@;
                assert(false);
            }
        }
        self.insert(name, value);
    }

    /// Adds `name` with `value`. The name is not yet in the table.
    pub fn insert(&mut self, name: String, value: V)
        requires
            old(self).wf(),
            !old(self)@.contains_key(name@),
        ensures
            final(self).wf(),
            final(self)@ == old(self)@.insert(name@, value),
            final(self).names() == old(self).names().push(name@),
    {
        proof {
            lemma_entries_keys(self.names(), self.values@, self.keys@.len());
        }
        let ghost names = self.names();
        let ghost values = self.values@;
        let ghost n = self.keys@.len();
        self.keys.push(name);
        self.values.push(value);
        proof {
            assert(self.names() =~= names.push(name@));
            assert(self.names().no_duplicates()) by {
                assert forall|i: int, j: int|
                    0 <= i < self.names().len() && 0 <= j < self.names().len() && i != j implies self.names()[i]
                    != self.names()[j] by {
                    if i < n && j < n {
                        assert(names[i] != names[j]);
                    } else if i < n {
                        assert(names[i] != name@);
                    } else {
                        assert(names[j] != name@);
                    }
                }
            }
            lemma_entries_prefix(names, values, self.names(), self.values@, n);
        }
    }
}

/// Two sequences of values that agree at the first `n` positions make the
/// same entries.
proof fn lemma_entries_agree<V>(keys: Seq<Seq<char>>, values: Seq<V>, others: Seq<V>, n: nat)
    requires
        n <= values.len(),
        n <= others.len(),
        forall|k: int| 0 <= k < n ==> values[k] == others[k],
    ensures
        entries(keys, values, n) == entries(keys, others, n),
    decreases n,
{
    if n > 0 {
        lemma_entries_agree(keys, values, others, (n - 1) as nat);
    }
}

/// Where no key occurs twice, a new value at the position `i` is a new value
/// for the key at `i`.
proof fn lemma_entries_update<V>(keys: Seq<Seq<char>>, values: Seq<V>, n: nat, i: int, value: V)
    requires
        n <= keys.len(),
        n <= values.len(),
        keys.no_duplicates(),
        0 <= i < n,
    ensures
        entries(keys, values.update(i, value), n) == entries(keys, values, n).insert(keys[i], value),
    decreases n,
{
    let m = (n - 1) as nat;
    if i == n - 1 {
        lemma_entries_agree(keys, values, values.update(i, value), m);
        assert(entries(keys, values.update(i, value), n) =~= entries(keys, values, n).insert(
            keys[i],
            value,
        ));
    } else {
        lemma_entries_update(keys, values, m, i, value);
        assert(keys[i] != keys[n - 1]);
        assert(entries(keys, values.update(i, value), n) =~= entries(keys, values, n).insert(
            keys[i],
            value,
        ));
    }
}

/// `entries` reads only the first `n` keys and values.
proof fn lemma_entries_prefix<V>(
    keys: Seq<Seq<char>>,
    values: Seq<V>,
    more_keys: Seq<Seq<char>>,
    more_values: Seq<V>,
    n: nat,
)
    requires
        n <= keys.len(),
        n <= values.len(),
        keys.is_prefix_of(more_keys),
        values.is_prefix_of(more_values),
    ensures
        entries(keys, values, n) == entries(more_keys, more_values, n),
    decreases n,
{
    if n > 0 {
        lemma_entries_prefix(keys, values, more_keys, more_values, (n - 1) as nat);
    }
}

} // verus!
