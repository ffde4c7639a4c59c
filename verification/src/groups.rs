//! Values grouped under text keys kept in sorted order, as an ordered map of lists gives them.
use vstd::prelude::*;
use crate::text::eq_chars;

verus! {

/// Lexicographic order of texts by character (`Ord` for `str`).
pub open spec fn seq_lt(a: Seq<char>, b: Seq<char>) -> bool
    decreases a.len(),
{
    if a.len() == 0 {
        b.len() > 0
    } else if b.len() == 0 {
        false
    } else if a[0] != b[0] {
        a[0] < b[0]
    } else {
        seq_lt(a.drop_first(), b.drop_first())
    }
}

/// Whether `a` sorts before `b`.
pub fn lt_chars(a: &Vec<char>, b: &Vec<char>) -> (r: bool)
    ensures
        r == seq_lt(a@, b@),
{
    let mut i: usize = 0;
    proof {
        assert(a@.skip(0) =~= a@);
        assert(b@.skip(0) =~= b@);
    }
    while i < a.len() && i < b.len() && a[i] == b[i]
        invariant
            i <= a.len(),
            i <= b.len(),
            seq_lt(a@, b@) == seq_lt(a@.skip(i as int), b@.skip(i as int)),
        decreases a.len() - i,
    {
        proof {
            assert(a@.skip(i as int).drop_first() =~= a@.skip(i + 1));
            assert(b@.skip(i as int).drop_first() =~= b@.skip(i + 1));
        }
        i = i + 1;
    }
    if i == a.len() {
        i < b.len()
    } else if i == b.len() {
        false
    } else {
        a[i] < b[i]
    }
}

/// Adds `v` under the key `k` of groups kept in key order: to the end of the key's list, or as
/// a new group placed before the first larger key.
pub open spec fn spec_insert<V>(g: Seq<(Seq<char>, Seq<V>)>, k: Seq<char>, v: V) -> Seq<(Seq<char>, Seq<V>)>
    decreases g.len(),
{
    if g.len() == 0 {
        seq![(k, seq![v])]
    } else if g[0].0 == k {
        seq![(k, g[0].1.push(v))] + g.drop_first()
    } else if seq_lt(k, g[0].0) {
        seq![(k, seq![v])] + g
    } else {
        seq![g[0]] + spec_insert(g.drop_first(), k, v)
    }
}

/// The groups formed by adding each (key, value) pair in order to empty groups.
pub open spec fn spec_group_all<V>(pairs: Seq<(Seq<char>, V)>) -> Seq<(Seq<char>, Seq<V>)>
    decreases pairs.len(),
{
    if pairs.len() == 0 {
        Seq::empty()
    } else {
        spec_insert(spec_group_all(pairs.drop_last()), pairs.last().0, pairs.last().1)
    }
}

/// The values under the key `k`, if it has a group.
pub open spec fn group_get<V>(g: Seq<(Seq<char>, Seq<V>)>, k: Seq<char>) -> Option<Seq<V>>
    decreases g.len(),
{
    if g.len() == 0 {
        None
    } else if g[0].0 == k {
        Some(g[0].1)
    } else {
        group_get(g.drop_first(), k)
    }
}

/// Groups of values under text keys, keys in increasing order.
pub struct SortedGroups<V> {
    entries: Vec<(Vec<char>, Vec<V>)>,
}

/// The view of one group: its key and the views of its values.
pub open spec fn group_view<V: View>(e: (Vec<char>, Vec<V>)) -> (Seq<char>, Seq<V::V>) {
    (e.0@, e.1@.map_values(|x: V| x@))
}

impl<V: View> View for SortedGroups<V> {
    type V = Seq<(Seq<char>, Seq<V::V>)>;

    closed spec fn view(&self) -> Seq<(Seq<char>, Seq<V::V>)> {
        self.entries@.map_values(|e: (Vec<char>, Vec<V>)| group_view(e))
    }
}

proof fn lemma_insert_skip<V>(g: Seq<(Seq<char>, Seq<V>)>, k: Seq<char>, v: V, j: int)
    requires
        0 <= j <= g.len(),
        forall|i: int| 0 <= i < j ==> (#[trigger] g[i]).0 != k && !seq_lt(k, g[i].0),
    ensures
        spec_insert(g, k, v) == g.take(j) + spec_insert(g.skip(j), k, v),
    decreases j,
{
    if j > 0 {
        let t = g.drop_first();
        assert forall|i: int| 0 <= i < j - 1 implies (#[trigger] t[i]).0 != k && !seq_lt(k, t[i].0) by {
            assert(t[i] == g[i + 1]);
        }
        lemma_insert_skip(t, k, v, j - 1);
        assert(t.skip(j - 1) =~= g.skip(j));
        assert(g.take(j) =~= seq![g[0]] + t.take(j - 1));
    } else {
        assert(g.skip(0) =~= g);
    }
}

impl<V: View> SortedGroups<V> {
    pub fn new() -> (r: Self)
        ensures
            r@ == Seq::<(Seq<char>, Seq<V::V>)>::empty(),
            keys_sorted(r@),
    {
        let r = SortedGroups { entries: Vec::new() };
        proof {
            assert(r@ =~= Seq::<(Seq<char>, Seq<V::V>)>::empty());
        }
        r
    }

    pub fn len(&self) -> (r: usize)
        ensures
            r == self@.len(),
    {
        self.entries.len()
    }

    /// The key of the group at `i`.
    pub fn key(&self, i: usize) -> (r: &Vec<char>)
        requires
            i < self@.len(),
        ensures
            r@ == self@[i as int].0,
    {
        &self.entries[i].0
    }

    /// The values of the group at `i`, in the order they were added.
    pub fn values(&self, i: usize) -> (r: &Vec<V>)
        requires
            i < self@.len(),
        ensures
            r@.map_values(|x: V| x@) == self@[i as int].1,
    {
        &self.entries[i].1
    }

    /// The values under the key `k`, if it has a group.
    pub fn get(&self, k: &Vec<char>) -> (r: Option<&Vec<V>>)
        ensures
            match r {
                Some(v) => group_get(self@, k@) == Some(v@.map_values(|x: V| x@)),
                None => group_get(self@, k@) is None,
            },
    {
        let mut j: usize = 0;
        proof {
            assert(self@.skip(0) =~= self@);
        }
        while j < self.entries.len()
            invariant
                j <= self.entries.len(),
                self@.len() == self.entries.len(),
                group_get(self@, k@) == group_get(self@.skip(j as int), k@),
            decreases self.entries.len() - j,
        {
            proof {
                assert(self@[j as int] == group_view(self.entries@[j as int]));
                assert(self@.skip(j as int)[0] == self@[j as int]);
                assert(self@.skip(j as int).drop_first() =~= self@.skip(j + 1));
            }
            if eq_chars(&self.entries[j].0, k) {
                return Some(&self.entries[j].1);
            }
            j = j + 1;
        }
        None
    }

    /// Adds `v` under the key `k`.
    pub fn insert(&mut self, k: Vec<char>, v: V)
        ensures
            final(self)@ == spec_insert(old(self)@, k@, v@),
            keys_sorted(old(self)@) ==> keys_sorted(final(self)@),
    {
        proof {
            if keys_sorted(old(self)@) {
                law_insert_keeps_keys_sorted(old(self)@, k@, v@);
            }
        }
        let ghost g = self@;
        let mut j: usize = 0;
        while j < self.entries.len()
            invariant
                j <= self.entries.len(),
                self@ == g,
                g == old(self)@,
                keys_sorted(g) ==> keys_sorted(spec_insert(g, k@, v@)),
                forall|i: int| 0 <= i < j ==> (#[trigger] g[i]).0 != k@ && !seq_lt(k@, g[i].0),
            decreases self.entries.len() - j,
        {
            proof {
                assert(g[j as int] == group_view(self.entries@[j as int]));
            }
            if eq_chars(&self.entries[j].0, &k) {
                proof {
                    lemma_insert_skip(g, k@, v@, j as int);
                    assert(g.skip(j as int)[0] == g[j as int]);
                }
                let (key, mut vals) = self.entries.remove(j);
                let ghost old_vals = vals@.map_values(|x: V| x@);
                let ghost vv = v@;
                vals.push(v);
                proof {
                    assert(vals@.map_values(|x: V| x@) =~= old_vals.push(vv));
                }
                let ghost before = self.entries@;
                self.entries.insert(j, (key, vals));
                proof {
                    assert(self@ =~= g.take(j as int) + (seq![(k@, old_vals.push(vv))] + g.skip(j as int).drop_first())) by {
                        assert forall|i: int| 0 <= i < self@.len() implies #[trigger] self@[i] == (g.take(j as int) + (seq![(k@, old_vals.push(vv))] + g.skip(j as int).drop_first()))[i] by {
                            if i < j {
                                assert(self.entries@[i] == before[i]);
                            } else if i > j {
                                assert(self.entries@[i] == before[i - 1]);
                            }
                        }
                    }
                }
                return;
            }
            if lt_chars(&k, &self.entries[j].0) {
                proof {
                    lemma_insert_skip(g, k@, v@, j as int);
                    assert(g.skip(j as int)[0] == g[j as int]);
                }
                let ghost kv = k@;
                let ghost vv = v@;
                let mut vals: Vec<V> = Vec::new();
                vals.push(v);
                proof {
                    assert(vals@.map_values(|x: V| x@) =~= seq![vv]);
                }
                let ghost before = self.entries@;
                self.entries.insert(j, (k, vals));
                proof {
                    assert(self@ =~= g.take(j as int) + (seq![(kv, seq![vv])] + g.skip(j as int))) by {
                        assert forall|i: int| 0 <= i < self@.len() implies #[trigger] self@[i] == (g.take(j as int) + (seq![(kv, seq![vv])] + g.skip(j as int)))[i] by {
                            if i < j {
                                assert(self.entries@[i] == before[i]);
                            } else if i > j {
                                assert(self.entries@[i] == before[i - 1]);
                            }
                        }
                    }
                }
                return;
            }
            j = j + 1;
        }
        proof {
            lemma_insert_skip(g, k@, v@, j as int);
            assert(g.take(j as int) =~= g);
        }
        let ghost kv = k@;
        let ghost vv = v@;
        let mut vals: Vec<V> = Vec::new();
        vals.push(v);
        proof {
            assert(vals@.map_values(|x: V| x@) =~= seq![vv]);
        }
        let ghost before = self.entries@;
        self.entries.push((k, vals));
        proof {
            assert(self@ =~= g + seq![(kv, seq![vv])]) by {
                assert forall|i: int| 0 <= i < self@.len() implies #[trigger] self@[i] == (g + seq![(kv, seq![vv])])[i] by {
                    if i < g.len() {
                        assert(self.entries@[i] == before[i]);
                    }
                }
            }
        }
    }
}


/// Inserts index `i` into `order` before the first index whose key sorts after the key of `i`
/// (so that equal keys keep their first-come order).
pub open spec fn insert_by_key(order: Seq<int>, keys: Seq<Seq<char>>, i: int) -> Seq<int>
    decreases order.len(),
{
    if order.len() == 0 {
        seq![i]
    } else if seq_lt(keys[i], keys[order[0]]) {
        seq![i] + order
    } else {
        seq![order[0]] + insert_by_key(order.drop_first(), keys, i)
    }
}

/// The indices of the first `n` keys in stable sorted order of the keys.
pub open spec fn sort_order(keys: Seq<Seq<char>>, n: int) -> Seq<int>
    decreases n,
{
    if n <= 0 {
        Seq::empty()
    } else {
        insert_by_key(sort_order(keys, n - 1), keys, n - 1)
    }
}

proof fn lemma_insert_by_key_skip(order: Seq<int>, keys: Seq<Seq<char>>, i: int, j: int)
    requires
        0 <= j <= order.len(),
        forall|a: int| 0 <= a < j ==> !seq_lt(keys[i], #[trigger] keys[order[a]]),
    ensures
        insert_by_key(order, keys, i) == order.take(j) + insert_by_key(order.skip(j), keys, i),
    decreases j,
{
    if j > 0 {
        let t = order.drop_first();
        assert forall|a: int| 0 <= a < j - 1 implies !seq_lt(keys[i], #[trigger] keys[t[a]]) by {
            assert(t[a] == order[a + 1]);
        }
        lemma_insert_by_key_skip(t, keys, i, j - 1);
        assert(t.skip(j - 1) =~= order.skip(j));
        assert(order.take(j) =~= seq![order[0]] + t.take(j - 1));
    } else {
        assert(order.skip(0) =~= order);
    }
}

/// The indices of `names` in stable sorted order of the names (`sort_by_key` on the names).
pub fn sorted_order(names: &Vec<Vec<char>>) -> (r: Vec<usize>)
    ensures
        r@.map_values(|x: usize| x as int) == sort_order(names.deep_view(), names@.len() as int),
        r@.len() == names@.len(),
        forall|a: int| 0 <= a < r@.len() ==> (#[trigger] r@[a]) < names@.len(),
{
    let ghost keys = names.deep_view();
    let mut order: Vec<usize> = Vec::new();
    let mut i: usize = 0;
    proof {
        assert(order@.map_values(|x: usize| x as int) =~= Seq::<int>::empty());
    }
    while i < names.len()
        invariant
            i <= names@.len(),
            keys == names.deep_view(),
            order@.map_values(|x: usize| x as int) == sort_order(keys, i as int),
            forall|a: int| 0 <= a < order@.len() ==> (#[trigger] order@[a]) < i,
            order@.len() == i,
        decreases names@.len() - i,
    {
        let ghost ov = order@.map_values(|x: usize| x as int);
        let mut j: usize = 0;
        while j < order.len()
            invariant
                j <= order@.len(),
                i < names@.len(),
                keys == names.deep_view(),
                ov == order@.map_values(|x: usize| x as int),
                forall|a: int| 0 <= a < order@.len() ==> (#[trigger] order@[a]) < i,
                forall|a: int| 0 <= a < j ==> !seq_lt(keys[i as int], #[trigger] keys[ov[a]]),
            ensures
                j <= order@.len(),
                j < order@.len() ==> seq_lt(keys[i as int], keys[ov[j as int]]),
                forall|a: int| 0 <= a < j ==> !seq_lt(keys[i as int], #[trigger] keys[ov[a]]),
            decreases order@.len() - j,
        {
            let k = order[j];
            proof {
                assert(names@[i as int]@ == keys[i as int]);
                assert(names@[k as int]@ == keys[k as int]);
                assert(ov[j as int] == k as int);
            }
            if lt_chars(&names[i], &names[k]) {
                break;
            }
            j = j + 1;
        }
        proof {
            assert(sort_order(keys, i + 1) == insert_by_key(sort_order(keys, i as int), keys, i as int));
            lemma_insert_by_key_skip(ov, keys, i as int, j as int);
            if j < order@.len() {
                assert(ov.skip(j as int)[0] == order@[j as int] as int);
                assert(names@[order@[j as int] as int]@ == keys[order@[j as int] as int]);
            } else {
                assert(ov.skip(j as int) =~= Seq::<int>::empty());
                assert(ov.take(j as int) =~= ov);
            }
        }
        let ghost before = order@;
        order.insert(j, i);
        proof {
            let f = |x: usize| x as int;
            if j < before.len() {
                assert(order@.map_values(f) =~= ov.take(j as int) + (seq![i as int] + ov.skip(j as int))) by {
                    assert forall|a: int| 0 <= a < order@.len() implies #[trigger] order@.map_values(f)[a] == (ov.take(j as int) + (seq![i as int] + ov.skip(j as int)))[a] by {
                        if a < j {
                            assert(order@[a] == before[a]);
                        } else if a > j {
                            assert(order@[a] == before[a - 1]);
                        }
                    }
                }
            } else {
                assert(order@.map_values(f) =~= ov + seq![i as int]) by {
                    assert forall|a: int| 0 <= a < order@.len() implies #[trigger] order@.map_values(f)[a] == (ov + seq![i as int])[a] by {
                        if a < j {
                            assert(order@[a] == before[a]);
                        }
                    }
                }
            }
            assert forall|a: int| 0 <= a < order@.len() implies (#[trigger] order@[a]) < i + 1 by {
                if a < j {
                    assert(order@[a] == before[a]);
                } else if a > j {
                    assert(order@[a] == before[a - 1]);
                }
            }
        }
        i = i + 1;
    }
    order
}


proof fn lemma_seq_lt_irreflexive(a: Seq<char>)
    ensures
        !seq_lt(a, a),
    decreases a.len(),
{
    if a.len() > 0 {
        lemma_seq_lt_irreflexive(a.drop_first());
    }
}

proof fn lemma_seq_lt_transitive(a: Seq<char>, b: Seq<char>, c: Seq<char>)
    requires
        seq_lt(a, b),
        seq_lt(b, c),
    ensures
        seq_lt(a, c),
    decreases a.len(),
{
    if a.len() > 0 && b.len() > 0 && c.len() > 0 && a[0] == b[0] && b[0] == c[0] {
        lemma_seq_lt_transitive(a.drop_first(), b.drop_first(), c.drop_first());
    }
}

proof fn lemma_seq_lt_total(a: Seq<char>, b: Seq<char>)
    requires
        a != b,
    ensures
        seq_lt(a, b) || seq_lt(b, a),
    decreases a.len(),
{
    if a.len() > 0 && b.len() > 0 && a[0] == b[0] {
        if a.drop_first() == b.drop_first() {
            assert(a =~= seq![a[0]] + a.drop_first());
            assert(b =~= seq![b[0]] + b.drop_first());
        }
        lemma_seq_lt_total(a.drop_first(), b.drop_first());
    } else if a.len() == 0 && b.len() == 0 {
        assert(a =~= b);
    }
}

proof fn lemma_seq_lt_asymmetric(a: Seq<char>, b: Seq<char>)
    requires
        seq_lt(a, b),
    ensures
        !seq_lt(b, a),
    decreases a.len(),
{
    if a.len() > 0 && b.len() > 0 && a[0] == b[0] {
        lemma_seq_lt_asymmetric(a.drop_first(), b.drop_first());
    }
}

/// Whether the keys of the groups are strictly increasing (so no key occurs twice).
pub open spec fn keys_sorted<V>(g: Seq<(Seq<char>, Seq<V>)>) -> bool {
    forall|i: int, j: int| 0 <= i < j < g.len() ==> seq_lt(#[trigger] g[i].0, #[trigger] g[j].0)
}

proof fn lemma_insert_above<V>(g: Seq<(Seq<char>, Seq<V>)>, k: Seq<char>, v: V, b: Seq<char>)
    requires
        seq_lt(b, k),
        forall|j: int| 0 <= j < g.len() ==> seq_lt(b, #[trigger] g[j].0),
    ensures
        forall|i: int| 0 <= i < spec_insert(g, k, v).len() ==> seq_lt(b, #[trigger] spec_insert(g, k, v)[i].0),
    decreases g.len(),
{
    if g.len() > 0 && g[0].0 != k && !seq_lt(k, g[0].0) {
        let t = g.drop_first();
        assert forall|j: int| 0 <= j < t.len() implies seq_lt(b, #[trigger] t[j].0) by {
            assert(t[j] == g[j + 1]);
        }
        lemma_insert_above(t, k, v, b);
        let r = spec_insert(g, k, v);
        assert forall|i: int| 0 <= i < r.len() implies seq_lt(b, #[trigger] r[i].0) by {
            if i > 0 {
                assert(r[i] == spec_insert(t, k, v)[i - 1]);
            }
        }
    } else if g.len() > 0 {
        let r = spec_insert(g, k, v);
        assert forall|i: int| 0 <= i < r.len() implies seq_lt(b, #[trigger] r[i].0) by {
            if i > 0 && g[0].0 == k {
                assert(r[i] == g[i]);
            } else if i > 0 {
                assert(r[i] == g[i - 1]);
            }
        }
    }
}

/// Adding a value keeps the keys strictly increasing.
pub proof fn law_insert_keeps_keys_sorted<V>(g: Seq<(Seq<char>, Seq<V>)>, k: Seq<char>, v: V)
    requires
        keys_sorted(g),
    ensures
        keys_sorted(spec_insert(g, k, v)),
    decreases g.len(),
{
    let r = spec_insert(g, k, v);
    if g.len() == 0 {
    } else if g[0].0 == k {
        assert forall|i: int, j: int| 0 <= i < j < r.len() implies seq_lt(#[trigger] r[i].0, #[trigger] r[j].0) by {
            assert(r[j].0 == g[j].0);
            assert(r[i].0 == g[i].0);
        }
    } else if seq_lt(k, g[0].0) {
        assert forall|i: int, j: int| 0 <= i < j < r.len() implies seq_lt(#[trigger] r[i].0, #[trigger] r[j].0) by {
            assert(r[j] == g[j - 1]);
            if i == 0 {
                if j > 1 {
                    lemma_seq_lt_transitive(k, g[0].0, g[j - 1].0);
                }
            } else {
                assert(r[i] == g[i - 1]);
            }
        }
    } else {
        let t = g.drop_first();
        assert forall|i: int, j: int| 0 <= i < j < t.len() implies seq_lt(#[trigger] t[i].0, #[trigger] t[j].0) by {
            assert(t[i] == g[i + 1]);
            assert(t[j] == g[j + 1]);
        }
        law_insert_keeps_keys_sorted(t, k, v);
        lemma_seq_lt_total(k, g[0].0);
        assert forall|j: int| 0 <= j < t.len() implies seq_lt(g[0].0, #[trigger] t[j].0) by {
            assert(t[j] == g[j + 1]);
        }
        lemma_insert_above(t, k, v, g[0].0);
        let rt = spec_insert(t, k, v);
        assert forall|i: int, j: int| 0 <= i < j < r.len() implies seq_lt(#[trigger] r[i].0, #[trigger] r[j].0) by {
            assert(r[j] == rt[j - 1]);
            if i > 0 {
                assert(r[i] == rt[i - 1]);
            }
        }
    }
}

/// Reading a key back after adding a value under it: the value comes last in that key's
/// list, and every other key keeps its list.
pub proof fn law_insert_then_get<V>(g: Seq<(Seq<char>, Seq<V>)>, k: Seq<char>, v: V, other: Seq<char>)
    requires
        keys_sorted(g),
    ensures
        group_get(spec_insert(g, k, v), k) == Some(match group_get(g, k) {
            Some(vs) => vs.push(v),
            None => seq![v],
        }),
        other != k ==> group_get(spec_insert(g, k, v), other) == group_get(g, other),
    decreases g.len(),
{
    let r = spec_insert(g, k, v);
    if g.len() == 0 {
        assert(r.drop_first() =~= Seq::<(Seq<char>, Seq<V>)>::empty());
        assert(r[0].0 == k);
        if other != k {
            assert(group_get(r, other) == group_get(g, other));
        }
    } else if g[0].0 == k {
        assert(r.drop_first() =~= g.drop_first());
        assert(r[0].0 == k);
        if other != k {
            assert(group_get(r, other) == group_get(g, other));
        }
    } else if seq_lt(k, g[0].0) {
        assert(r.drop_first() =~= g);
        assert(r[0].0 == k);
        if other != k {
            assert(group_get(r, other) == group_get(g, other));
        }
        assert(group_get(g, k) is None) by {
            lemma_get_below(g, k);
        }
    } else {
        let t = g.drop_first();
        assert forall|i: int, j: int| 0 <= i < j < t.len() implies seq_lt(#[trigger] t[i].0, #[trigger] t[j].0) by {
            assert(t[i] == g[i + 1]);
            assert(t[j] == g[j + 1]);
        }
        law_insert_then_get(t, k, v, other);
        assert(r.drop_first() =~= spec_insert(t, k, v));
        assert(r[0] == g[0]);
        if other != k {
            assert(group_get(r, other) == group_get(g, other));
        }
    }
}

proof fn lemma_get_below<V>(g: Seq<(Seq<char>, Seq<V>)>, k: Seq<char>)
    requires
        keys_sorted(g),
        g.len() > 0,
        seq_lt(k, g[0].0),
    ensures
        group_get(g, k) is None,
    decreases g.len(),
{
    lemma_seq_lt_asymmetric(k, g[0].0);
    lemma_seq_lt_irreflexive(k);
    if g.len() > 1 {
        let t = g.drop_first();
        assert forall|i: int, j: int| 0 <= i < j < t.len() implies seq_lt(#[trigger] t[i].0, #[trigger] t[j].0) by {
            assert(t[i] == g[i + 1]);
            assert(t[j] == g[j + 1]);
        }
        lemma_seq_lt_transitive(k, g[0].0, g[1].0);
        lemma_get_below(t, k);
    }
}

/// Grouping any list of (key, value) pairs gives strictly increasing keys.
pub proof fn law_grouped_keys_sorted<V>(pairs: Seq<(Seq<char>, V)>)
    ensures
        keys_sorted(spec_group_all(pairs)),
    decreases pairs.len(),
{
    if pairs.len() > 0 {
        law_grouped_keys_sorted(pairs.drop_last());
        law_insert_keeps_keys_sorted(spec_group_all(pairs.drop_last()), pairs.last().0, pairs.last().1);
    }
}


/// Whether the indices in `o` list their keys in non-decreasing order.
pub open spec fn order_sorted(keys: Seq<Seq<char>>, o: Seq<int>) -> bool {
    forall|a: int, b: int| 0 <= a < b < o.len() ==> !seq_lt(keys[#[trigger] o[b]], keys[#[trigger] o[a]])
}

proof fn lemma_insert_by_key_bound(o: Seq<int>, keys: Seq<Seq<char>>, i: int, x: int)
    requires
        !seq_lt(keys[i], keys[x]),
        forall|j: int| 0 <= j < o.len() ==> !seq_lt(keys[#[trigger] o[j]], keys[x]),
    ensures
        forall|j: int| 0 <= j < insert_by_key(o, keys, i).len() ==> !seq_lt(keys[#[trigger] insert_by_key(o, keys, i)[j]], keys[x]),
    decreases o.len(),
{
    let r = insert_by_key(o, keys, i);
    if o.len() == 0 {
        assert(r[0] == i);
    } else if seq_lt(keys[i], keys[o[0]]) {
        assert forall|j: int| 0 <= j < r.len() implies !seq_lt(keys[#[trigger] r[j]], keys[x]) by {
            if j > 0 {
                assert(r[j] == o[j - 1]);
            }
        }
    } else {
        let t = o.drop_first();
        assert forall|j: int| 0 <= j < t.len() implies !seq_lt(keys[#[trigger] t[j]], keys[x]) by {
            assert(t[j] == o[j + 1]);
        }
        lemma_insert_by_key_bound(t, keys, i, x);
        let rt = insert_by_key(t, keys, i);
        assert forall|j: int| 0 <= j < r.len() implies !seq_lt(keys[#[trigger] r[j]], keys[x]) by {
            if j > 0 {
                assert(r[j] == rt[j - 1]);
            }
        }
    }
}

proof fn lemma_insert_by_key_sorted(o: Seq<int>, keys: Seq<Seq<char>>, i: int)
    requires
        order_sorted(keys, o),
    ensures
        order_sorted(keys, insert_by_key(o, keys, i)),
    decreases o.len(),
{
    let r = insert_by_key(o, keys, i);
    if o.len() == 0 {
    } else if seq_lt(keys[i], keys[o[0]]) {
        assert forall|a: int, b: int| 0 <= a < b < r.len() implies !seq_lt(keys[#[trigger] r[b]], keys[#[trigger] r[a]]) by {
            assert(r[b] == o[b - 1]);
            if a == 0 {
                if seq_lt(keys[o[b - 1]], keys[i]) {
                    lemma_seq_lt_transitive(keys[o[b - 1]], keys[i], keys[o[0]]);
                    if b - 1 > 0 {
                        assert(!seq_lt(keys[o[b - 1]], keys[o[0]]));
                    } else {
                        lemma_seq_lt_irreflexive(keys[o[0]]);
                    }
                }
            } else {
                assert(r[a] == o[a - 1]);
            }
        }
    } else {
        let t = o.drop_first();
        assert forall|a: int, b: int| 0 <= a < b < t.len() implies !seq_lt(keys[#[trigger] t[b]], keys[#[trigger] t[a]]) by {
            assert(t[a] == o[a + 1]);
            assert(t[b] == o[b + 1]);
        }
        lemma_insert_by_key_sorted(t, keys, i);
        assert forall|j: int| 0 <= j < t.len() implies !seq_lt(keys[#[trigger] t[j]], keys[o[0]]) by {
            assert(t[j] == o[j + 1]);
        }
        lemma_insert_by_key_bound(t, keys, i, o[0]);
        let rt = insert_by_key(t, keys, i);
        assert forall|a: int, b: int| 0 <= a < b < r.len() implies !seq_lt(keys[#[trigger] r[b]], keys[#[trigger] r[a]]) by {
            assert(r[b] == rt[b - 1]);
            if a > 0 {
                assert(r[a] == rt[a - 1]);
            } else {
                assert(r[a] == o[0]);
            }
        }
    }
}

/// Where `insert_by_key` puts the new index.
pub open spec fn insert_pos(o: Seq<int>, keys: Seq<Seq<char>>, i: int) -> int
    decreases o.len(),
{
    if o.len() == 0 || seq_lt(keys[i], keys[o[0]]) {
        0
    } else {
        1 + insert_pos(o.drop_first(), keys, i)
    }
}

proof fn lemma_insert_by_key_is_insert(o: Seq<int>, keys: Seq<Seq<char>>, i: int)
    ensures
        0 <= insert_pos(o, keys, i) <= o.len(),
        insert_by_key(o, keys, i) == o.insert(insert_pos(o, keys, i), i),
    decreases o.len(),
{
    if o.len() == 0 || seq_lt(keys[i], keys[o[0]]) {
        assert(insert_by_key(o, keys, i) =~= o.insert(0, i));
    } else {
        let t = o.drop_first();
        lemma_insert_by_key_is_insert(t, keys, i);
        assert(insert_by_key(o, keys, i) =~= o.insert(insert_pos(o, keys, i), i));
    }
}

/// The sorted order lists the keys in non-decreasing order and holds each index below `n`
/// exactly once.
pub proof fn law_sort_order_is_sorted_permutation(keys: Seq<Seq<char>>, n: int)
    requires
        0 <= n <= keys.len(),
    ensures
        order_sorted(keys, sort_order(keys, n)),
        sort_order(keys, n).to_multiset() == Seq::new(n as nat, |j: int| j).to_multiset(),
    decreases n,
{
    broadcast use vstd::seq_lib::group_to_multiset_ensures;
    if n > 0 {
        law_sort_order_is_sorted_permutation(keys, n - 1);
        let o = sort_order(keys, n - 1);
        lemma_insert_by_key_sorted(o, keys, n - 1);
        lemma_insert_by_key_is_insert(o, keys, n - 1);
        vstd::seq_lib::to_multiset_insert(o, insert_pos(o, keys, n - 1), n - 1);
        assert(Seq::new(n as nat, |j: int| j) =~= Seq::new((n - 1) as nat, |j: int| j).push(n - 1));
    } else {
        assert(Seq::new(0 as nat, |j: int| j) =~= Seq::<int>::empty());
        assert(sort_order(keys, 0) =~= Seq::<int>::empty());
    }
}

} // verus!
