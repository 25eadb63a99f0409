//! Insertion-ordered tables with unique keys.
//!
//! The server keeps clients, environments, virtual machines and port maps
//! in keyed collections. A `Table` stores its entries in a `Vec` and keeps
//! as its invariant that no key occurs twice, so that it behaves as a map
//! whose entries also have a well-defined order.
use vstd::prelude::*;

verus! {

/// A key type whose equality is decided on its view.
pub trait TableKey: View + Sized {
    /// Compares two keys.
    fn same_key(&self, other: &Self) -> (r: bool)
        ensures
            r == (self@ == other@),
    ;

    /// Makes a copy of a key.
    fn dup_key(&self) -> (r: Self)
        ensures
            r@ == self@,
    ;
}

impl TableKey for String {
    fn same_key(&self, other: &Self) -> (r: bool) {
        *self == *other
    }

    fn dup_key(&self) -> (r: Self) {
        self.clone()
    }
}

impl TableKey for i32 {
    fn same_key(&self, other: &Self) -> (r: bool) {
        *self == *other
    }

    fn dup_key(&self) -> (r: Self) {
        *self
    }
}

impl TableKey for u16 {
    fn same_key(&self, other: &Self) -> (r: bool) {
        *self == *other
    }

    fn dup_key(&self) -> (r: Self) {
        *self
    }
}

/// No key occurs twice among the entries.
pub open spec fn unique_keys<A, B>(s: Seq<(A, B)>) -> bool {
    forall|i: int, j: int| 0 <= i < j < s.len() ==> #[trigger] s[i].0 != #[trigger] s[j].0
}

/// Some entry has key `k`.
pub open spec fn has_key<A, B>(s: Seq<(A, B)>, k: A) -> bool {
    exists|i: int| 0 <= i < s.len() && #[trigger] s[i].0 == k
}

/// The keys of the entries, in order.
pub open spec fn keys_of<A, B>(s: Seq<(A, B)>) -> Seq<A> {
    s.map_values(|e: (A, B)| e.0)
}

/// The value stored under `k`, if any (the last entry with that key).
pub open spec fn lookup<A, B>(s: Seq<(A, B)>, k: A) -> Option<B>
    decreases s.len(),
{
    if s.len() == 0 {
        None
    } else if s.last().0 == k {
        Some(s.last().1)
    } else {
        lookup(s.drop_last(), k)
    }
}

/// The entries seen as a map from keys to values.
pub open spec fn as_map<A, B>(s: Seq<(A, B)>) -> Map<A, B> {
    Map::new(|k: A| has_key(s, k), |k: A| lookup(s, k).unwrap())
}

/// The position of the entry with key `k` (meaningful when there is one).
pub open spec fn pos_of<A, B>(s: Seq<(A, B)>, k: A) -> int {
    choose|i: int| 0 <= i < s.len() && #[trigger] s[i].0 == k
}

/// With unique keys, the entry with key `k` is at `pos_of(s, k)`.
pub proof fn lemma_pos_of<A, B>(s: Seq<(A, B)>, i: int)
    requires
        unique_keys(s),
        0 <= i < s.len(),
    ensures
        pos_of(s, s[i].0) == i,
{
    let k = s[i].0;
    assert(has_key(s, k));
    let j = pos_of(s, k);
    assert(0 <= j < s.len() && s[j].0 == k);
    if j != i {
        if j < i {
            assert(s[j].0 != s[i].0);
        } else {
            assert(s[i].0 != s[j].0);
        }
    }
}

/// In a sequence of entries with unique keys, the lookup of the key at
/// position `i` gives the value at position `i`.
pub proof fn lemma_lookup_at<A, B>(s: Seq<(A, B)>, i: int)
    requires
        unique_keys(s),
        0 <= i < s.len(),
    ensures
        lookup(s, s[i].0) == Some(s[i].1),
    decreases s.len(),
{
    if i != s.len() - 1 {
        assert(s.drop_last()[i] == s[i]);
        lemma_lookup_at(s.drop_last(), i);
    }
}

/// A lookup succeeds exactly for the keys present.
pub proof fn lemma_lookup_none<A, B>(s: Seq<(A, B)>, k: A)
    ensures
        lookup(s, k) is None <==> !has_key(s, k),
    decreases s.len(),
{
    if s.len() > 0 {
        lemma_lookup_none(s.drop_last(), k);
        if has_key(s, k) && s.last().0 != k {
            let i = choose|i: int| 0 <= i < s.len() && #[trigger] s[i].0 == k;
            assert(s.drop_last()[i].0 == k);
        }
        if has_key(s.drop_last(), k) {
            let i = choose|i: int| 0 <= i < s.drop_last().len() && #[trigger] s.drop_last()[i].0 == k;
            assert(s[i].0 == k);
        }
    }
}

/// The entries without the one whose key is `k`.
pub open spec fn without_key<A, B>(s: Seq<(A, B)>, k: A) -> Seq<(A, B)>
    decreases s.len(),
{
    if s.len() == 0 {
        s
    } else if s.last().0 == k {
        without_key(s.drop_last(), k)
    } else {
        without_key(s.drop_last(), k).push(s.last())
    }
}

/// The entries without those whose keys occur in `ks`.
pub open spec fn without_keys<A, B>(s: Seq<(A, B)>, ks: Seq<A>) -> Seq<(A, B)>
    decreases ks.len(),
{
    if ks.len() == 0 {
        s
    } else {
        without_key(without_keys(s, ks.drop_last()), ks.last())
    }
}

/// Removing an absent key changes nothing.
pub proof fn lemma_without_absent<A, B>(s: Seq<(A, B)>, k: A)
    requires
        !has_key(s, k),
    ensures
        without_key(s, k) == s,
    decreases s.len(),
{
    if s.len() > 0 {
        assert(s[s.len() - 1].0 != k);
        assert forall|i: int| 0 <= i < s.drop_last().len() implies s.drop_last()[i].0 != k by {
            assert(s[i].0 != k);
        }
        lemma_without_absent(s.drop_last(), k);
        assert(s.drop_last().push(s.last()) =~= s);
    }
}

/// In a sequence with unique keys, removing the entry at `i` is removing its key.
pub proof fn lemma_without_at<A, B>(s: Seq<(A, B)>, i: int)
    requires
        unique_keys(s),
        0 <= i < s.len(),
    ensures
        without_key(s, s[i].0) == s.remove(i),
    decreases s.len(),
{
    let k = s[i].0;
    if i == s.len() - 1 {
        assert forall|j: int| 0 <= j < s.drop_last().len() implies s.drop_last()[j].0 != k by {
            assert(s[j].0 != s[i].0);
        }
        lemma_without_absent(s.drop_last(), k);
        assert(s.remove(i) =~= s.drop_last());
    } else {
        assert(s.last().0 != k);
        lemma_without_at(s.drop_last(), i);
        assert(s.drop_last()[i] == s[i]);
        assert(s.drop_last().remove(i).push(s.last()) =~= s.remove(i));
    }
}

/// Taking an entry out and putting it back with a new value is an update.
pub proof fn lemma_remove_insert<A, B>(s: Seq<(A, B)>, i: int, b: B)
    requires
        unique_keys(s),
        0 <= i < s.len(),
    ensures
        !has_key(s.remove(i), s[i].0),
        s.remove(i).insert(i, (s[i].0, b)) == s.update(i, (s[i].0, b)),
{
    let r = s.remove(i);
    if has_key(r, s[i].0) {
        let j = choose|j: int| 0 <= j < r.len() && #[trigger] r[j].0 == s[i].0;
        if j < i {
            assert(r[j] == s[j]);
        } else {
            assert(r[j] == s[j + 1]);
        }
    }
    assert(r.insert(i, (s[i].0, b)) =~= s.update(i, (s[i].0, b)));
}

/// What a table holds after storing `v` under `k` (as [`Table::insert`] does):
/// the lookup of `k` gives `v`, and every other key gives what it gave before.
pub proof fn law_insert_then_lookup<A, B>(before: Seq<(A, B)>, after: Seq<(A, B)>, k: A, v: B)
    requires
        unique_keys(before),
        unique_keys(after),
        has_key(before, k) ==> exists|i: int|
            0 <= i < before.len() && #[trigger] before[i].0 == k && after == before.update(i, (k, v)),
        !has_key(before, k) ==> after == before.push((k, v)),
    ensures
        lookup(after, k) == Some(v),
        forall|x: A| x != k ==> lookup(after, x) == lookup(before, x),
{
    if has_key(before, k) {
        let i = choose|i: int|
            0 <= i < before.len() && #[trigger] before[i].0 == k && after == before.update(i, (k, v));
        lemma_lookup_at(after, i);
    } else {
        lemma_lookup_at(after, before.len() as int);
    }
    assert forall|x: A| x != k implies lookup(after, x) == lookup(before, x) by {
        lemma_lookup_none(before, x);
        lemma_lookup_none(after, x);
        if has_key(before, x) {
            let j = choose|j: int| 0 <= j < before.len() && #[trigger] before[j].0 == x;
            lemma_lookup_at(before, j);
            assert(after[j] == before[j]);
            lemma_lookup_at(after, j);
        } else if has_key(after, x) {
            let j = choose|j: int| 0 <= j < after.len() && #[trigger] after[j].0 == x;
            if has_key(before, k) {
                let i = choose|i: int|
                    0 <= i < before.len() && #[trigger] before[i].0 == k && after == before.update(i, (k, v));
                assert(before[j].0 == x);
            } else if j < before.len() {
                assert(before[j].0 == x);
            }
        }
    }
}

/// After removing key `k` (as [`Table::remove`] does), its lookup finds
/// nothing and every other key gives what it gave before.
pub proof fn law_remove_then_lookup<A, B>(before: Seq<(A, B)>, k: A)
    requires
        unique_keys(before),
    ensures
        lookup(without_key(before, k), k) is None,
        forall|x: A| x != k ==> lookup(without_key(before, k), x) == lookup(before, x),
    decreases before.len(),
{
    if before.len() > 0 {
        let d = before.drop_last();
        assert(unique_keys(d)) by {
            assert forall|i: int, j: int| 0 <= i < j < d.len() implies #[trigger] d[i].0 != #[trigger] d[j].0 by {
                assert(d[i] == before[i] && d[j] == before[j]);
            }
        }
        law_remove_then_lookup(d, k);
        let w = without_key(d, k);
        if before.last().0 == k {
            assert(without_key(before, k) == w);
            assert forall|x: A| x != k implies lookup(w, x) == lookup(before, x) by {
                assert(lookup(before, x) == lookup(d, x));
            }
        } else {
            assert(without_key(before, k) == w.push(before.last()));
            assert(w.push(before.last()).drop_last() =~= w);
            assert(lookup(w.push(before.last()), k) == lookup(w, k));
            assert forall|x: A| x != k implies lookup(w.push(before.last()), x) == lookup(before, x) by {
                if before.last().0 != x {
                    assert(lookup(w.push(before.last()), x) == lookup(w, x));
                    assert(lookup(before, x) == lookup(d, x));
                }
            }
        }
    }
}

/// Removing a key keeps every other key's lookup and drops the key's own,
/// whether or not keys repeat.
proof fn lemma_without_key_lookup<A, B>(s: Seq<(A, B)>, k: A, x: A)
    ensures
        lookup(without_key(s, k), x) == (if x == k {
            None
        } else {
            lookup(s, x)
        }),
    decreases s.len(),
{
    if s.len() > 0 {
        let d = s.drop_last();
        lemma_without_key_lookup(d, k, x);
        if s.last().0 != k {
            let w = without_key(d, k);
            assert(without_key(s, k) == w.push(s.last()));
            assert(w.push(s.last()).drop_last() =~= w);
            assert(w.push(s.last()).last() == s.last());
        }
    }
}

/// After removing every key of `ks`, the lookup of a key of `ks` finds
/// nothing, and every other key gives what it gave before.
pub proof fn law_without_keys_lookup<A, B>(s: Seq<(A, B)>, ks: Seq<A>, x: A)
    ensures
        ks.contains(x) ==> lookup(without_keys(s, ks), x) is None,
        !ks.contains(x) ==> lookup(without_keys(s, ks), x) == lookup(s, x),
    decreases ks.len(),
{
    if ks.len() > 0 {
        let d = ks.drop_last();
        law_without_keys_lookup(s, d, x);
        lemma_without_key_lookup(without_keys(s, d), ks.last(), x);
        if ks.contains(x) && x != ks.last() {
            let i = choose|i: int| 0 <= i < ks.len() && ks[i] == x;
            assert(d[i] == x);
        }
        if d.contains(x) {
            let i = choose|i: int| 0 <= i < d.len() && d[i] == x;
            assert(ks[i] == x);
        }
        if x == ks.last() {
            assert(ks[ks.len() - 1] == x);
        }
    }
}

/// A table whose entries are kept in insertion order and whose keys are unique.
pub struct Table<K: TableKey, V> {
    keys: Vec<K>,
    vals: Vec<V>,
}

impl<K: TableKey, V> View for Table<K, V> {
    type V = Seq<(K::V, V)>;

    closed spec fn view(&self) -> Seq<(K::V, V)> {
        Seq::new(self.vals@.len(), |i: int| (self.keys@[i]@, self.vals@[i]))
    }
}

impl<K: TableKey, V> Table<K, V> {
    #[verifier::type_invariant]
    closed spec fn inv(self) -> bool {
        &&& self.keys@.len() == self.vals@.len()
        &&& forall|i: int, j: int|
            0 <= i < j < self.keys@.len() ==> #[trigger] self.keys@[i]@ != #[trigger] self.keys@[j]@
    }

    /// Every table has unique keys.
    pub fn lemma_unique(&self)
        ensures
            unique_keys(self@),
    {
        proof {
            use_type_invariant(self);
        }
    }

    /// An empty table.
    pub fn new() -> (t: Self)
        ensures
            t@ == Seq::<(K::V, V)>::empty(),
    {
        let t = Table { keys: Vec::new(), vals: Vec::new() };
        assert(t@ =~= Seq::<(K::V, V)>::empty());
        t
    }

    /// The number of entries.
    pub fn len(&self) -> (n: usize)
        ensures
            n == self@.len(),
    {
        proof {
            use_type_invariant(self);
        }
        self.vals.len()
    }

    /// The key of the entry at position `i`.
    pub fn key_at(&self, i: usize) -> (k: &K)
        requires
            i < self@.len(),
        ensures
            k@ == self@[i as int].0,
    {
        proof {
            use_type_invariant(self);
        }
        &self.keys[i]
    }

    /// The value of the entry at position `i`.
    pub fn value_at(&self, i: usize) -> (v: &V)
        requires
            i < self@.len(),
        ensures
            *v == self@[i as int].1,
    {
        &self.vals[i]
    }

    /// The position of the entry with key `k`, if there is one.
    pub fn find(&self, k: &K) -> (r: Option<usize>)
        ensures
            match r {
                Some(i) => i < self@.len() && self@[i as int].0 == k@ && i == pos_of(self@, k@),
                None => !has_key(self@, k@),
            },
    {
        proof {
            use_type_invariant(self);
        }
        self.lemma_unique();
        let n = self.keys.len();
        let mut i: usize = 0;
        while i < n
            invariant
                unique_keys(self@),
                n == self.keys@.len(),
                n == self@.len(),
                i <= n,
                forall|j: int| 0 <= j < i ==> self@[j].0 != k@,
            decreases n - i,
        {
            if self.keys[i].same_key(k) {
                proof {
                    lemma_pos_of(self@, i as int);
                }
                return Some(i);
            }
            i = i + 1;
        }
        None
    }

    /// Whether some entry has key `k`.
    pub fn contains_key(&self, k: &K) -> (b: bool)
        ensures
            b == has_key(self@, k@),
    {
        match self.find(k) {
            Some(_) => true,
            None => false,
        }
    }

    /// The value stored under `k`, if any.
    pub fn get(&self, k: &K) -> (r: Option<&V>)
        ensures
            match r {
                Some(v) => lookup(self@, k@) == Some(*v),
                None => lookup(self@, k@) is None,
            },
    {
        proof {
            use_type_invariant(self);
            lemma_lookup_none(self@, k@);
        }
        match self.find(k) {
            Some(i) => {
                proof {
                    lemma_lookup_at(self@, i as int);
                }
                Some(&self.vals[i])
            },
            None => None,
        }
    }

    /// Moves the contents out, leaving the table empty.
    fn take_parts(&mut self) -> (p: (Vec<K>, Vec<V>))
        ensures
            final(self)@ == Seq::<(K::V, V)>::empty(),
            p.0@.len() == p.1@.len(),
            p.1@.len() == old(self)@.len(),
            forall|i: int| 0 <= i < p.0@.len() ==> (#[trigger] p.0@[i])@ == old(self)@[i].0,
            forall|i: int| 0 <= i < p.1@.len() ==> #[trigger] p.1@[i] == old(self)@[i].1,
            forall|i: int, j: int|
                0 <= i < j < p.0@.len() ==> #[trigger] p.0@[i]@ != #[trigger] p.0@[j]@,
    {
        proof {
            use_type_invariant(&*self);
        }
        let mut t = Table::new();
        std::mem::swap(self, &mut t);
        proof {
            use_type_invariant(&t);
        }
        let Table { keys, vals } = t;
        (keys, vals)
    }

    /// Replaces the value at position `i`, returning the old one.
    pub fn replace_at(&mut self, i: usize, v: V) -> (old_v: V)
        requires
            i < old(self)@.len(),
        ensures
            old_v == old(self)@[i as int].1,
            final(self)@ == old(self)@.update(i as int, (old(self)@[i as int].0, v)),
    {
        let ghost v_old = self@;
        let (keys, mut vals) = self.take_parts();
        let mut tmp = v;
        std::mem::swap(&mut tmp, &mut vals[i]);
        let t = Table { keys, vals };
        let ghost target = v_old.update(i as int, (v_old[i as int].0, v));
        assert(t@ =~= target);
        *self = t;
        tmp
    }

    /// Appends an entry whose key is not yet present.
    pub fn push_new(&mut self, k: K, v: V)
        requires
            !has_key(old(self)@, k@),
        ensures
            final(self)@ == old(self)@.push((k@, v)),
    {
        let ghost v_old = self@;
        let ghost k_view = k@;
        let (mut keys, mut vals) = self.take_parts();
        assert forall|j: int| 0 <= j < keys@.len() implies keys@[j]@ != k_view by {
            if keys@[j]@ == k_view {
                assert(v_old[j].0 == k_view);
            }
        }
        keys.push(k);
        vals.push(v);
        let t = Table { keys, vals };
        assert(t@ =~= v_old.push((k_view, v)));
        *self = t;
    }

    /// Stores `v` under `k`: an entry with that key keeps its position and
    /// takes the new value, otherwise the entry is appended.
    pub fn insert(&mut self, k: K, v: V)
        ensures
            has_key(old(self)@, k@) ==> exists|i: int|
                0 <= i < old(self)@.len() && #[trigger] old(self)@[i].0 == k@ && final(self)@
                    == old(self)@.update(i, (k@, v)),
            !has_key(old(self)@, k@) ==> final(self)@ == old(self)@.push((k@, v)),
    {
        proof {
            use_type_invariant(&*self);
        }
        match self.find(&k) {
            Some(i) => {
                let _ = self.replace_at(i, v);
                proof {
                    let j = i as int;
                    assert(old(self)@[j].0 == k@);
                }
            },
            None => {
                self.push_new(k, v);
            },
        }
    }

    /// Removes the entry at position `i`, keeping the order of the others.
    pub fn remove_at(&mut self, i: usize) -> (e: (K, V))
        requires
            i < old(self)@.len(),
        ensures
            e.0@ == old(self)@[i as int].0,
            e.1 == old(self)@[i as int].1,
            final(self)@ == old(self)@.remove(i as int),
    {
        let ghost v_old = self@;
        let (mut keys, mut vals) = self.take_parts();
        let ghost keys0 = keys@;
        let k = keys.remove(i);
        let v = vals.remove(i);
        assert forall|a: int, b: int| 0 <= a < b < keys@.len() implies
            #[trigger] keys@[a]@ != #[trigger] keys@[b]@ by {
            let oa = if a < i { a } else { a + 1 };
            let ob = if b < i { b } else { b + 1 };
            assert(keys@[a] == keys0[oa]);
            assert(keys@[b] == keys0[ob]);
        }
        let t = Table { keys, vals };
        assert(t@ =~= v_old.remove(i as int));
        *self = t;
        (k, v)
    }

    /// Puts an entry whose key is not present back at position `i`.
    pub fn insert_at(&mut self, i: usize, k: K, v: V)
        requires
            i <= old(self)@.len(),
            !has_key(old(self)@, k@),
        ensures
            final(self)@ == old(self)@.insert(i as int, (k@, v)),
    {
        let ghost v_old = self@;
        let ghost k_view = k@;
        let (mut keys, mut vals) = self.take_parts();
        let ghost keys0 = keys@;
        assert forall|j: int| 0 <= j < keys0.len() implies keys0[j]@ != k_view by {
            if keys0[j]@ == k_view {
                assert(v_old[j].0 == k_view);
            }
        }
        keys.insert(i, k);
        vals.insert(i, v);
        assert forall|a: int, b: int| 0 <= a < b < keys@.len() implies
            #[trigger] keys@[a]@ != #[trigger] keys@[b]@ by {
            if a != i && b != i {
                let oa = if a < i { a } else { a - 1 };
                let ob = if b < i { b } else { b - 1 };
                assert(keys@[a] == keys0[oa]);
                assert(keys@[b] == keys0[ob]);
            } else if a == i {
                assert(keys@[b] == keys0[b - 1]);
            } else {
                assert(keys@[a] == keys0[a]);
            }
        }
        let t = Table { keys, vals };
        assert(t@ =~= v_old.insert(i as int, (k_view, v)));
        *self = t;
    }

    /// Removes the entry with key `k`, if there is one, and returns its value.
    pub fn remove(&mut self, k: &K) -> (r: Option<V>)
        ensures
            match r {
                Some(v) => exists|i: int|
                    0 <= i < old(self)@.len() && #[trigger] old(self)@[i].0 == k@ && old(
                        self,
                    )@[i].1 == v && final(self)@ == old(self)@.remove(i),
                None => !has_key(old(self)@, k@) && final(self)@ == old(self)@,
            },
            final(self)@ == without_key(old(self)@, k@),
    {
        proof {
            use_type_invariant(&*self);
        }
        match self.find(k) {
            Some(i) => {
                let (_, v) = self.remove_at(i);
                proof {
                    let j = i as int;
                    assert(old(self)@[j].0 == k@);
                    lemma_without_at(old(self)@, j);
                }
                Some(v)
            },
            None => {
                proof {
                    lemma_without_absent(old(self)@, k@);
                }
                None
            },
        }
    }
}


impl<K: TableKey, V: Copy> Table<K, V> {
    /// A copy of a table whose values are plain data.
    pub fn copied(&self) -> (t: Self)
        ensures
            t@ == self@,
    {
        proof {
            use_type_invariant(self);
        }
        let n = self.vals.len();
        let mut keys: Vec<K> = Vec::new();
        let mut vals: Vec<V> = Vec::new();
        let mut i: usize = 0;
        while i < n
            invariant
                n == self.vals@.len(),
                n == self.keys@.len(),
                i <= n,
                keys@.len() == i,
                vals@.len() == i,
                forall|j: int| 0 <= j < i ==> (#[trigger] keys@[j])@ == self.keys@[j]@,
                forall|j: int| 0 <= j < i ==> #[trigger] vals@[j] == self.vals@[j],
            decreases n - i,
        {
            keys.push(self.keys[i].dup_key());
            vals.push(self.vals[i]);
            i = i + 1;
        }
        proof {
            assert forall|a: int, b: int| 0 <= a < b < keys@.len() implies #[trigger] keys@[a]@
                != #[trigger] keys@[b]@ by {
                assert(keys@[a]@ == self.keys@[a]@);
                assert(keys@[b]@ == self.keys@[b]@);
            }
        }
        let t = Table { keys, vals };
        assert(t@ =~= self@);
        t
    }
}

} // verus!
