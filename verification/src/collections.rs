//! Ordered sets and maps kept as strictly sorted vectors.
//!
//! The library's registries are ordered by key, and their listings come out
//! in key order; these two containers carry that order as an invariant.
//!
//! They stand where `BTreeMap` and `BTreeSet` would. vstd's specifications
//! of those (`std_specs::btree`) hold only when the key type satisfies
//! `key_obeys_cmp_spec`, which cannot be shown for the keys used here:
//! `String`, and structs and tuples whose `Ord` is derived, an impl that
//! Verus does not read. A sorted vector whose order is given by each key
//! type's own verified `Ordered` impl keeps every lookup and listing
//! provable.

use crate::order::Rank;
use vstd::prelude::*;

verus! {

/// A key type with a strict total order over its views.
pub trait Ordered: View + Sized {
    spec fn before(a: Self::V, b: Self::V) -> bool;

    proof fn lemma_order(a: Self::V, b: Self::V, c: Self::V)
        ensures
            !Self::before(a, a),
            Self::before(a, b) && Self::before(b, c) ==> Self::before(a, c),
            a == b || Self::before(a, b) || Self::before(b, a),
    ;

    fn rank(&self, other: &Self) -> (r: Rank)
        ensures
            (r == Rank::Before) == Self::before(self@, other@),
            (r == Rank::Same) == (self@ == other@),
            (r == Rank::After) == Self::before(other@, self@),
    ;
}

/// The views of a sequence of values.
pub open spec fn views_of<K: View>(s: Seq<K>) -> Seq<K::V> {
    s.map_values(|k: K| k@)
}

/// A sequence of views in strictly increasing order (hence without repeats).
pub open spec fn views_sorted<K: Ordered>(s: Seq<K::V>) -> bool {
    forall|i: int, j: int| 0 <= i < j < s.len() ==> K::before(#[trigger] s[i], #[trigger] s[j])
}

/// Two places of an increasing sequence hold different elements.
pub proof fn lemma_sorted_distinct<K: Ordered>(s: Seq<K::V>, i: int, j: int)
    requires
        views_sorted::<K>(s),
        0 <= i < s.len(),
        0 <= j < s.len(),
        i != j,
    ensures
        s[i] != s[j],
{
    K::lemma_order(s[i], s[j], s[j]);
    K::lemma_order(s[j], s[i], s[i]);
}

/// An increasing sequence holds no element twice.
pub proof fn lemma_sorted_no_duplicates<K: Ordered>(s: Seq<K::V>)
    requires
        views_sorted::<K>(s),
    ensures
        s.no_duplicates(),
        s.to_set().len() == s.len(),
{
    assert forall|i: int, j: int| 0 <= i < s.len() && 0 <= j < s.len() && i != j implies s[i]
        != s[j] by {
        lemma_sorted_distinct::<K>(s, i, j);
    }
    s.unique_seq_to_set();
}

/// Position search in a sorted sequence: the count of keys before `k`, and
/// whether the key at that position is `k` itself.
fn locate<K: Ordered>(items: &Vec<K>, k: &K) -> (r: (bool, usize))
    requires
        views_sorted::<K>(views_of(items@)),
    ensures
        r.1 <= items@.len(),
        forall|i: int| 0 <= i < r.1 ==> K::before(#[trigger] items@[i]@, k@),
        r.0 ==> r.1 < items@.len() && items@[r.1 as int]@ == k@,
        forall|i: int|
            r.1 <= i < items@.len() ==> (r.0 && i == r.1) || K::before(k@, #[trigger] items@[i]@),
        r.0 == views_of(items@).contains(k@),
{
    let mut i: usize = 0;
    while i < items.len()
        invariant
            views_sorted::<K>(views_of(items@)),
            i <= items@.len(),
            forall|j: int| 0 <= j < i ==> K::before(#[trigger] items@[j]@, k@),
        decreases items.len() - i,
    {
        let rk = items[i].rank(k);
        match rk {
            Rank::Before => {
                i = i + 1;
            },
            Rank::Same => {
                proof {
                    assert forall|j: int| i <= j < items@.len() implies (j == i) || K::before(
                        k@,
                        #[trigger] items@[j]@,
                    ) by {
                        if j != i {
                            assert(views_of(items@)[i as int] == items@[i as int]@);
                            assert(views_of(items@)[j] == items@[j]@);
                        }
                    }
                    assert(views_of(items@)[i as int] == k@);
                }
                return (true, i);
            },
            Rank::After => {
                proof {
                    assert forall|j: int| i <= j < items@.len() implies K::before(
                        k@,
                        #[trigger] items@[j]@,
                    ) by {
                        if j != i {
                            assert(views_of(items@)[i as int] == items@[i as int]@);
                            assert(views_of(items@)[j] == items@[j]@);
                            K::lemma_order(k@, items@[i as int]@, items@[j]@);
                        }
                    }
                    assert forall|j: int| 0 <= j < items@.len() implies views_of(items@)[j]
                        != k@ by {
                        K::lemma_order(k@, items@[j]@, k@);
                    }
                }
                return (false, i);
            },
        }
    }
    proof {
        assert forall|j: int| 0 <= j < items@.len() implies views_of(items@)[j] != k@ by {
            K::lemma_order(k@, items@[j]@, k@);
        }
    }
    (false, i)
}

proof fn lemma_insert_sorted<K: Ordered>(s: Seq<K::V>, p: int, x: K::V)
    requires
        views_sorted::<K>(s),
        0 <= p <= s.len(),
        forall|i: int| 0 <= i < p ==> K::before(#[trigger] s[i], x),
        forall|i: int| p <= i < s.len() ==> K::before(x, #[trigger] s[i]),
    ensures
        views_sorted::<K>(s.insert(p, x)),
        s.insert(p, x).to_set() == s.to_set().insert(x),
{
    let t = s.insert(p, x);
    assert forall|i: int, j: int| 0 <= i < j < t.len() implies K::before(
        #[trigger] t[i],
        #[trigger] t[j],
    ) by {
        if j < p {
        } else if j == p {
        } else if i < p {
            K::lemma_order(s[i], x, s[j - 1]);
        } else if i == p {
        } else {
        }
    }
    assert forall|y: K::V| t.contains(y) <==> s.to_set().insert(x).contains(y) by {
        if t.contains(y) {
            let i = choose|i: int| 0 <= i < t.len() && t[i] == y;
            if i < p {
                assert(s[i] == y);
            } else if i > p {
                assert(s[i - 1] == y);
            }
        }
        if s.contains(y) {
            let i = choose|i: int| 0 <= i < s.len() && s[i] == y;
            if i < p {
                assert(t[i] == y);
            } else {
                assert(t[i + 1] == y);
            }
        }
        if y == x {
            assert(t[p] == y);
        }
    }
    assert(t.to_set() =~= s.to_set().insert(x));
}

proof fn lemma_remove_sorted<K: Ordered>(s: Seq<K::V>, p: int)
    requires
        views_sorted::<K>(s),
        0 <= p < s.len(),
    ensures
        views_sorted::<K>(s.remove(p)),
        s.remove(p).to_set() == s.to_set().remove(s[p]),
{
    let t = s.remove(p);
    assert forall|i: int, j: int| 0 <= i < j < t.len() implies K::before(
        #[trigger] t[i],
        #[trigger] t[j],
    ) by {
        if j < p {
        } else if i < p {
            assert(t[j] == s[j + 1]);
        } else {
            assert(t[i] == s[i + 1]);
            assert(t[j] == s[j + 1]);
        }
    }
    assert forall|y: K::V| t.contains(y) <==> s.to_set().remove(s[p]).contains(y) by {
        if t.contains(y) {
            let i = choose|i: int| 0 <= i < t.len() && t[i] == y;
            if i < p {
                lemma_sorted_distinct::<K>(s, i, p);
                assert(s[i] == y);
            } else {
                lemma_sorted_distinct::<K>(s, i + 1, p);
                assert(s[i + 1] == y);
            }
        }
        if s.contains(y) && y != s[p] {
            let i = choose|i: int| 0 <= i < s.len() && s[i] == y;
            if i < p {
                assert(t[i] == y);
            } else {
                assert(i != p);
                assert(t[i - 1] == y);
            }
        }
    }
    assert(t.to_set() =~= s.to_set().remove(s[p]));
}


/// The increasing sequence of the elements of a finite set.
pub open spec fn sorted_seq_of<K: Ordered>(set: Set<K::V>) -> Seq<K::V> {
    choose|s: Seq<K::V>| views_sorted::<K>(s) && s.to_set() == set
}

/// Two increasing sequences with the same elements are equal.
pub proof fn lemma_sorted_unique<K: Ordered>(s1: Seq<K::V>, s2: Seq<K::V>)
    requires
        views_sorted::<K>(s1),
        views_sorted::<K>(s2),
        s1.to_set() == s2.to_set(),
    ensures
        s1 == s2,
    decreases s1.len(),
{
    if s1.len() == 0 {
        if s2.len() > 0 {
            assert(s2.to_set().contains(s2[0]));
        }
        assert(s1 =~= s2);
    } else {
        assert(s1.to_set().contains(s1[0]));
        assert(s2.len() > 0);
        assert(s2.to_set().contains(s2[0]));
        let a = s1[0];
        let b = s2[0];
        let i = choose|i: int| 0 <= i < s2.len() && s2[i] == a;
        let j = choose|j: int| 0 <= j < s1.len() && s1[j] == b;
        if a != b {
            K::lemma_order(a, a, a);
            K::lemma_order(b, b, b);
            if i > 0 {
                assert(K::before(b, a));
            }
            if j > 0 {
                assert(K::before(a, b));
            }
            K::lemma_order(a, b, a);
        }
        let t1 = s1.drop_first();
        let t2 = s2.drop_first();
        assert(views_sorted::<K>(t1)) by {
            assert forall|x: int, y: int| 0 <= x < y < t1.len() implies K::before(
                #[trigger] t1[x],
                #[trigger] t1[y],
            ) by {
                assert(t1[x] == s1[x + 1]);
                assert(t1[y] == s1[y + 1]);
            }
        }
        assert(views_sorted::<K>(t2)) by {
            assert forall|x: int, y: int| 0 <= x < y < t2.len() implies K::before(
                #[trigger] t2[x],
                #[trigger] t2[y],
            ) by {
                assert(t2[x] == s2[x + 1]);
                assert(t2[y] == s2[y + 1]);
            }
        }
        assert forall|x: K::V| t1.contains(x) <==> t2.contains(x) by {
            if t1.contains(x) {
                let k = choose|k: int| 0 <= k < t1.len() && t1[k] == x;
                assert(s1[k + 1] == x);
                lemma_sorted_distinct::<K>(s1, 0, k + 1);
                assert(s1.to_set().contains(x));
                assert(s2.to_set().contains(x));
                let m = choose|m: int| 0 <= m < s2.len() && s2[m] == x;
                assert(m != 0);
                assert(t2[m - 1] == x);
            }
            if t2.contains(x) {
                let k = choose|k: int| 0 <= k < t2.len() && t2[k] == x;
                assert(s2[k + 1] == x);
                lemma_sorted_distinct::<K>(s2, 0, k + 1);
                assert(s2.to_set().contains(x));
                assert(s1.to_set().contains(x));
                let m = choose|m: int| 0 <= m < s1.len() && s1[m] == x;
                assert(m != 0);
                assert(t1[m - 1] == x);
            }
        }
        assert(t1.to_set() =~= t2.to_set());
        lemma_sorted_unique::<K>(t1, t2);
        assert(s1 =~= seq![a] + t1);
        assert(s2 =~= seq![b] + t2);
    }
}

/// An increasing sequence is the sorted sequence of its elements.
pub proof fn lemma_sorted_seq_of<K: Ordered>(s: Seq<K::V>)
    requires
        views_sorted::<K>(s),
    ensures
        sorted_seq_of::<K>(s.to_set()) == s,
{
    let t = sorted_seq_of::<K>(s.to_set());
    assert(views_sorted::<K>(s) && s.to_set() == s.to_set());
    lemma_sorted_unique::<K>(t, s);
}

/// A finite set kept as a strictly increasing vector; its view is the
/// sequence of the elements' views in that order.
pub struct OrderedSet<K> {
    items: Vec<K>,
}

impl<K: Ordered> View for OrderedSet<K> {
    type V = Seq<K::V>;

    closed spec fn view(&self) -> Seq<K::V> {
        views_of(self.items@)
    }
}

impl<K: Ordered> OrderedSet<K> {
    pub open spec fn wf(&self) -> bool {
        views_sorted::<K>(self@)
    }

    pub fn new() -> (r: Self)
        ensures
            r.wf(),
            r@ == Seq::<K::V>::empty(),
    {
        let r = OrderedSet { items: Vec::new() };
        assert(r@ =~= Seq::<K::V>::empty());
        r
    }

    pub fn len(&self) -> (r: usize)
        ensures
            r == self@.len(),
    {
        self.items.len()
    }

    pub fn get(&self, i: usize) -> (r: &K)
        requires
            i < self@.len(),
        ensures
            r@ == self@[i as int],
    {
        &self.items[i]
    }

    pub fn contains(&self, k: &K) -> (r: bool)
        requires
            self.wf(),
        ensures
            r == self@.contains(k@),
    {
        let (found, _) = locate(&self.items, k);
        found
    }

    /// Add `k`; the result says whether it was absent before.
    pub fn insert(&mut self, k: K) -> (r: bool)
        requires
            old(self).wf(),
        ensures
            final(self).wf(),
            r == !old(self)@.contains(k@),
            final(self)@.to_set() == old(self)@.to_set().insert(k@),
            r ==> final(self)@.len() == old(self)@.len() + 1,
            !r ==> final(self)@ == old(self)@,
    {
        let (found, p) = locate(&self.items, &k);
        if found {
            proof {
                assert(old(self)@.to_set() =~= old(self)@.to_set().insert(k@));
            }
            return false;
        }
        let ghost kv = k@;
        let ghost before = self@;
        self.items.insert(p, k);
        proof {
            assert(self@ =~= before.insert(p as int, kv));
            lemma_insert_sorted::<K>(before, p as int, kv);
        }
        true
    }

    /// Remove `k`; the result says whether it was present before.
    pub fn remove(&mut self, k: &K) -> (r: bool)
        requires
            old(self).wf(),
        ensures
            final(self).wf(),
            r == old(self)@.contains(k@),
            final(self)@.to_set() == old(self)@.to_set().remove(k@),
            r ==> final(self)@.len() + 1 == old(self)@.len(),
            !r ==> final(self)@ == old(self)@,
    {
        let (found, p) = locate(&self.items, k);
        if !found {
            proof {
                assert(old(self)@.to_set() =~= old(self)@.to_set().remove(k@));
            }
            return false;
        }
        let ghost before = self@;
        let _ = self.items.remove(p);
        proof {
            assert(self@ =~= before.remove(p as int));
            lemma_remove_sorted::<K>(before, p as int);
        }
        true
    }
}

/// A finite map kept as a strictly increasing vector of keys and a parallel
/// vector of values.
pub struct OrderedMap<K, V> {
    keys: Vec<K>,
    vals: Vec<V>,
}

impl<K: Ordered, V> View for OrderedMap<K, V> {
    type V = Map<K::V, V>;

    closed spec fn view(&self) -> Map<K::V, V> {
        Map::new(
            |x: K::V| exists|i: int| 0 <= i < self.keys@.len() && #[trigger] self.keys@[i]@ == x,
            |x: K::V|
                self.vals@[choose|i: int| 0 <= i < self.keys@.len() && #[trigger] self.keys@[i]@ == x],
        )
    }
}

impl<K: Ordered, V> OrderedMap<K, V> {
    /// The keys in increasing order.
    pub closed spec fn key_seq(&self) -> Seq<K::V> {
        views_of(self.keys@)
    }

    pub closed spec fn wf(&self) -> bool {
        &&& self.keys@.len() == self.vals@.len()
        &&& views_sorted::<K>(self.key_seq())
    }

    proof fn lemma_view_index(&self, i: int)
        requires
            self.wf(),
            0 <= i < self.keys@.len(),
        ensures
            self@.contains_key(self.keys@[i]@),
            self@[self.keys@[i]@] == self.vals@[i],
    {
        let x = self.keys@[i]@;
        assert(self.keys@[i]@ == x);
        let j = choose|j: int| 0 <= j < self.keys@.len() && #[trigger] self.keys@[j]@ == x;
        if j != i {
            assert(self.key_seq()[i] == x);
            assert(self.key_seq()[j] == x);
            lemma_sorted_distinct::<K>(self.key_seq(), i, j);
        }
    }

    /// What the key sequence says of the map.
    pub proof fn lemma_keys(&self)
        requires
            self.wf(),
        ensures
            views_sorted::<K>(self.key_seq()),
            self.key_seq().to_set() == self@.dom(),
            self.key_seq().len() == self@.len(),
            self@.dom().finite(),
            forall|i: int|
                0 <= i < self.key_seq().len() ==> #[trigger] self@.contains_key(self.key_seq()[i]),
            self.key_seq() == sorted_seq_of::<K>(self@.dom()),
    {
        assert forall|x: K::V| self.key_seq().contains(x) <==> self@.dom().contains(x) by {
            if self.key_seq().contains(x) {
                let i = choose|i: int| 0 <= i < self.key_seq().len() && self.key_seq()[i] == x;
                assert(self.keys@[i]@ == x);
            }
            if self@.dom().contains(x) {
                let i = choose|i: int| 0 <= i < self.keys@.len() && #[trigger] self.keys@[i]@ == x;
                assert(self.key_seq()[i] == x);
            }
        }
        assert(self.key_seq().to_set() =~= self@.dom());
        lemma_sorted_no_duplicates::<K>(self.key_seq());
        assert forall|i: int| 0 <= i < self.key_seq().len() implies #[trigger] self@.contains_key(
            self.key_seq()[i],
        ) by {
            assert(self.keys@[i]@ == self.key_seq()[i]);
        }
        lemma_sorted_seq_of::<K>(self.key_seq());
    }

    pub fn new() -> (r: Self)
        ensures
            r.wf(),
            r@ == Map::<K::V, V>::empty(),
            r.key_seq() == Seq::<K::V>::empty(),
    {
        let r = OrderedMap { keys: Vec::new(), vals: Vec::new() };
        assert(r@ =~= Map::<K::V, V>::empty());
        assert(r.key_seq() =~= Seq::<K::V>::empty());
        r
    }

    pub fn len(&self) -> (r: usize)
        requires
            self.wf(),
        ensures
            r == self@.len(),
            r == self.key_seq().len(),
    {
        proof {
            self.lemma_keys();
        }
        self.keys.len()
    }

    pub fn key_at(&self, i: usize) -> (r: &K)
        requires
            self.wf(),
            i < self.key_seq().len(),
        ensures
            r@ == self.key_seq()[i as int],
    {
        &self.keys[i]
    }

    pub fn value_at(&self, i: usize) -> (r: &V)
        requires
            self.wf(),
            i < self.key_seq().len(),
        ensures
            self@.contains_key(self.key_seq()[i as int]),
            *r == self@[self.key_seq()[i as int]],
    {
        proof {
            self.lemma_view_index(i as int);
        }
        &self.vals[i]
    }

    /// The position of `k` in the key order, when it is present.
    pub fn find(&self, k: &K) -> (r: Option<usize>)
        requires
            self.wf(),
        ensures
            r is Some <==> self@.contains_key(k@),
            r matches Some(i) ==> i < self.key_seq().len() && self.key_seq()[i as int] == k@,
    {
        let (found, p) = locate(&self.keys, k);
        proof {
            if found {
                self.lemma_view_index(p as int);
            } else {
                if self@.contains_key(k@) {
                    let i = choose|i: int| 0 <= i < self.keys@.len() && #[trigger] self.keys@[i]@ == k@;
                    assert(self.key_seq()[i] == k@);
                }
            }
        }
        if found {
            Some(p)
        } else {
            None
        }
    }

    pub fn contains_key(&self, k: &K) -> (r: bool)
        requires
            self.wf(),
        ensures
            r == self@.contains_key(k@),
    {
        self.find(k).is_some()
    }

    pub fn get(&self, k: &K) -> (r: Option<&V>)
        requires
            self.wf(),
        ensures
            r is Some <==> self@.contains_key(k@),
            r matches Some(v) ==> *v == self@[k@],
    {
        match self.find(k) {
            Some(i) => {
                proof {
                    self.lemma_view_index(i as int);
                }
                Some(&self.vals[i])
            },
            None => None,
        }
    }

    /// Insert or replace the value of `k`.
    pub fn insert(&mut self, k: K, v: V)
        requires
            old(self).wf(),
        ensures
            final(self).wf(),
            final(self)@ == old(self)@.insert(k@, v),
    {
        let (found, p) = locate(&self.keys, &k);
        let ghost old_map = self@;
        let ghost old_self = *self;
        if found {
            self.vals.set(p, v);
            proof {
                assert(self.key_seq() == old_self.key_seq());
                assert forall|x: K::V| self@.contains_key(x) <==> old_map.insert(k@, v).contains_key(
                    x,
                ) by {
                    if x == k@ {
                        assert(self.keys@[p as int]@ == x);
                    }
                }
                assert forall|x: K::V| #[trigger]
                    self@.contains_key(x) implies self@[x] == old_map.insert(k@, v)[x] by {
                    let i = choose|i: int| 0 <= i < self.keys@.len() && #[trigger] self.keys@[i]@ == x;
                    self.lemma_view_index(i);
                    if i != p {
                        old_self.lemma_view_index(i);
                        assert(self.key_seq()[i] == x);
                        assert(self.key_seq()[p as int] == k@);
                        lemma_sorted_distinct::<K>(self.key_seq(), i, p as int);
                    }
                }
                assert(self@ =~= old_map.insert(k@, v));
            }
        } else {
            let ghost kv = k@;
            let ghost old_keys = old_self.key_seq();
            self.keys.insert(p, k);
            self.vals.insert(p, v);
            proof {
                assert(self.key_seq() =~= old_keys.insert(p as int, kv));
                lemma_insert_sorted::<K>(old_keys, p as int, kv);
                assert forall|x: K::V| self@.contains_key(x) <==> old_map.insert(kv, v).contains_key(
                    x,
                ) by {
                    if self@.contains_key(x) {
                        let i = choose|i: int| 0 <= i < self.keys@.len() && #[trigger] self.keys@[i]@ == x;
                        if i < p {
                            assert(old_self.keys@[i]@ == x);
                        } else if i > p {
                            assert(old_self.keys@[i - 1]@ == x);
                        }
                    }
                    if old_map.contains_key(x) {
                        let i = choose|i: int| 0 <= i < old_self.keys@.len() && #[trigger] old_self.keys@[i]@ == x;
                        if i < p {
                            assert(self.keys@[i]@ == x);
                        } else {
                            assert(self.keys@[i + 1]@ == x);
                        }
                    }
                    if x == kv {
                        assert(self.keys@[p as int]@ == x);
                    }
                }
                assert forall|x: K::V| #[trigger]
                    self@.contains_key(x) implies self@[x] == old_map.insert(kv, v)[x] by {
                    let i = choose|i: int| 0 <= i < self.keys@.len() && #[trigger] self.keys@[i]@ == x;
                    self.lemma_view_index(i);
                    if i < p {
                        old_self.lemma_view_index(i);
                        K::lemma_order(x, x, x);
                    } else if i > p {
                        old_self.lemma_view_index(i - 1);
                        K::lemma_order(x, x, x);
                    }
                }
                assert(self@ =~= old_map.insert(kv, v));
            }
        }
    }

    /// Remove `k`, handing back its value when it was present.
    pub fn remove(&mut self, k: &K) -> (r: Option<V>)
        requires
            old(self).wf(),
        ensures
            final(self).wf(),
            final(self)@ == old(self)@.remove(k@),
            r is Some <==> old(self)@.contains_key(k@),
            r matches Some(v) ==> v == old(self)@[k@],
    {
        let (found, p) = locate(&self.keys, k);
        let ghost old_map = self@;
        let ghost old_self = *self;
        if !found {
            proof {
                if old_map.contains_key(k@) {
                    let i = choose|i: int| 0 <= i < self.keys@.len() && #[trigger] self.keys@[i]@ == k@;
                    assert(self.key_seq()[i] == k@);
                }
                assert(old_map =~= old_map.remove(k@));
            }
            return None;
        }
        proof {
            old_self.lemma_view_index(p as int);
        }
        let ghost old_keys = old_self.key_seq();
        let _ = self.keys.remove(p);
        let v = self.vals.remove(p);
        proof {
            assert(self.key_seq() =~= old_keys.remove(p as int));
            lemma_remove_sorted::<K>(old_keys, p as int);
            assert forall|x: K::V| self@.contains_key(x) <==> old_map.remove(k@).contains_key(x) by {
                if self@.contains_key(x) {
                    let i = choose|i: int| 0 <= i < self.keys@.len() && #[trigger] self.keys@[i]@ == x;
                    if i < p {
                        assert(old_self.keys@[i]@ == x);
                        lemma_sorted_distinct::<K>(old_keys, i, p as int);
                    } else {
                        assert(old_self.keys@[i + 1]@ == x);
                        lemma_sorted_distinct::<K>(old_keys, i + 1, p as int);
                    }
                }
                if old_map.remove(k@).contains_key(x) {
                    let i = choose|i: int| 0 <= i < old_self.keys@.len() && #[trigger] old_self.keys@[i]@ == x;
                    if i < p {
                        assert(self.keys@[i]@ == x);
                    } else {
                        assert(i != p);
                        assert(self.keys@[i - 1]@ == x);
                    }
                }
            }
            assert forall|x: K::V| #[trigger]
                self@.contains_key(x) implies self@[x] == old_map.remove(k@)[x] by {
                let i = choose|i: int| 0 <= i < self.keys@.len() && #[trigger] self.keys@[i]@ == x;
                self.lemma_view_index(i);
                if i < p {
                    old_self.lemma_view_index(i);
                } else {
                    old_self.lemma_view_index(i + 1);
                }
            }
            assert(self@ =~= old_map.remove(k@));
        }
        Some(v)
    }
}

} // verus!
