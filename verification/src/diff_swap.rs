//! Comparing the other way round: the diff of `new` against `old` holds
//! exactly the entries of the diff of `old` against `new`, with additions
//! and removals exchanged and the two values of every change swapped, each
//! as often (the lists are permutations of each other).

use vstd::prelude::*;
use vstd::multiset::Multiset;
use crate::diff::{change_path, diff_at, diff_items, diff_members, first_key_index, json_diff, leaf_diff, removed_members, DiffLists};
use crate::diff_laws::{
    keys_distinct, lemma_first_key_index, lemma_items_well_formed_all, lemma_member_value_of_distinct,
    lemma_members_well_formed_all, well_formed,
};
use crate::json::JsonTree;
use crate::text::{indexed_path, joined_path};

verus! {

broadcast use vstd::multiset::group_multiset_axioms;

/// One entry of a diff, of any of its three lists.
pub enum Difference {
    Added(Seq<char>, JsonTree),
    Removed(Seq<char>, JsonTree),
    Changed(Seq<char>, JsonTree, JsonTree),
}

/// Swaps the old and new value of each change.
pub open spec fn swap_changes(changes: Seq<(Seq<char>, JsonTree, JsonTree)>) -> Seq<(Seq<char>, JsonTree, JsonTree)> {
    changes.map_values(|c: (Seq<char>, JsonTree, JsonTree)| (c.0, c.2, c.1))
}

/// A diff read the other way round: additions and removals exchanged, the
/// values of each change swapped.
pub open spec fn reversed(d: DiffLists) -> DiffLists {
    DiffLists { added: d.removed, removed: d.added, changed: swap_changes(d.changed) }
}

pub open spec fn added_bag(s: Seq<(Seq<char>, JsonTree)>) -> Multiset<Difference> {
    s.map_values(|e: (Seq<char>, JsonTree)| Difference::Added(e.0, e.1)).to_multiset()
}

pub open spec fn removed_bag(s: Seq<(Seq<char>, JsonTree)>) -> Multiset<Difference> {
    s.map_values(|e: (Seq<char>, JsonTree)| Difference::Removed(e.0, e.1)).to_multiset()
}

pub open spec fn changed_bag(s: Seq<(Seq<char>, JsonTree, JsonTree)>) -> Multiset<Difference> {
    s.map_values(|e: (Seq<char>, JsonTree, JsonTree)| Difference::Changed(e.0, e.1, e.2)).to_multiset()
}

/// All entries of a diff, each as often as it occurs, in no order.
pub open spec fn bag(d: DiffLists) -> Multiset<Difference> {
    added_bag(d.added).add(removed_bag(d.removed)).add(changed_bag(d.changed))
}

/// The sum of `f(0)`, ..., `f(n - 1)`.
pub open spec fn mass(f: spec_fn(int) -> Multiset<Difference>, n: int) -> Multiset<Difference>
    decreases n,
{
    if n <= 0 {
        Multiset::empty()
    } else {
        mass(f, n - 1).add(f(n - 1))
    }
}

proof fn lemma_bag_followed_by(a: DiffLists, b: DiffLists)
    ensures
        bag(a.followed_by(b)) == bag(a).add(bag(b)),
{
    let fa = |e: (Seq<char>, JsonTree)| Difference::Added(e.0, e.1);
    let fr = |e: (Seq<char>, JsonTree)| Difference::Removed(e.0, e.1);
    let fc = |e: (Seq<char>, JsonTree, JsonTree)| Difference::Changed(e.0, e.1, e.2);
    assert((a.added + b.added).map_values(fa) =~= a.added.map_values(fa) + b.added.map_values(fa));
    assert((a.removed + b.removed).map_values(fr) =~= a.removed.map_values(fr) + b.removed.map_values(fr));
    assert((a.changed + b.changed).map_values(fc) =~= a.changed.map_values(fc) + b.changed.map_values(fc));
    vstd::seq_lib::lemma_multiset_commutative(a.added.map_values(fa), b.added.map_values(fa));
    vstd::seq_lib::lemma_multiset_commutative(a.removed.map_values(fr), b.removed.map_values(fr));
    vstd::seq_lib::lemma_multiset_commutative(a.changed.map_values(fc), b.changed.map_values(fc));
    assert(bag(a.followed_by(b)) =~= bag(a).add(bag(b)));
}

proof fn lemma_reversed_followed_by(a: DiffLists, b: DiffLists)
    ensures
        reversed(a.followed_by(b)) == reversed(a).followed_by(reversed(b)),
{
    assert(reversed(a.followed_by(b)) =~= reversed(a).followed_by(reversed(b)));
}

proof fn lemma_bag_none()
    ensures
        bag(DiffLists::none()) == Multiset::<Difference>::empty(),
{
    let d = DiffLists::none();
    let sa = d.added.map_values(|e: (Seq<char>, JsonTree)| Difference::Added(e.0, e.1));
    let sr = d.removed.map_values(|e: (Seq<char>, JsonTree)| Difference::Removed(e.0, e.1));
    let sc = d.changed.map_values(|e: (Seq<char>, JsonTree, JsonTree)| Difference::Changed(e.0, e.1, e.2));
    sa.to_multiset_ensures();
    sr.to_multiset_ensures();
    sc.to_multiset_ensures();
    assert(sa.len() == 0 && sr.len() == 0 && sc.len() == 0);
    vstd::multiset::lemma_multiset_empty_len(sa.to_multiset());
    vstd::multiset::lemma_multiset_empty_len(sr.to_multiset());
    vstd::multiset::lemma_multiset_empty_len(sc.to_multiset());
    assert(bag(d) =~= Multiset::<Difference>::empty());
}

/// The bag of a concatenation of parts is the sum of the parts' bags.
proof fn lemma_bag_of_parts(g: spec_fn(int) -> DiffLists, f: spec_fn(int) -> DiffLists, n: int)
    requires
        0 <= n,
        g(0) == DiffLists::none(),
        forall|k: int| 1 <= k <= n ==> #[trigger] g(k) == g(k - 1).followed_by(f(k - 1)),
    ensures
        bag(g(n)) == mass(|j: int| bag(f(j)), n),
        bag(reversed(g(n))) == mass(|j: int| bag(reversed(f(j))), n),
    decreases n,
{
    if n == 0 {
        lemma_bag_none();
        assert(reversed(DiffLists::none()) =~= DiffLists::none());
    } else {
        lemma_bag_of_parts(g, f, n - 1);
        assert(g(n) == g(n - 1).followed_by(f(n - 1)));
        lemma_bag_followed_by(g(n - 1), f(n - 1));
        lemma_reversed_followed_by(g(n - 1), f(n - 1));
        lemma_bag_followed_by(reversed(g(n - 1)), reversed(f(n - 1)));
    }
}

proof fn lemma_mass_pointwise(f: spec_fn(int) -> Multiset<Difference>, g: spec_fn(int) -> Multiset<Difference>, n: int)
    requires
        forall|j: int| 0 <= j < n ==> #[trigger] f(j) == g(j),
    ensures
        mass(f, n) == mass(g, n),
    decreases n,
{
    if n > 0 {
        lemma_mass_pointwise(f, g, n - 1);
        assert(f(n - 1) == g(n - 1));
    }
}

proof fn lemma_mass_add(f: spec_fn(int) -> Multiset<Difference>, g: spec_fn(int) -> Multiset<Difference>, n: int)
    ensures
        mass(|j: int| f(j).add(g(j)), n) == mass(f, n).add(mass(g, n)),
    decreases n,
{
    if n > 0 {
        lemma_mass_add(f, g, n - 1);
        assert(mass(|j: int| f(j).add(g(j)), n) =~= mass(f, n).add(mass(g, n)));
    } else {
        assert(mass(|j: int| f(j).add(g(j)), n) =~= mass(f, n).add(mass(g, n)));
    }
}

proof fn lemma_mass_empty(f: spec_fn(int) -> Multiset<Difference>, n: int)
    requires
        forall|j: int| 0 <= j < n ==> #[trigger] f(j) == Multiset::<Difference>::empty(),
    ensures
        mass(f, n) == Multiset::<Difference>::empty(),
    decreases n,
{
    if n > 0 {
        lemma_mass_empty(f, n - 1);
        assert(f(n - 1) == Multiset::<Difference>::empty());
        assert(mass(f, n) =~= Multiset::<Difference>::empty());
    }
}

/// Taking one key out of a key sequence takes its term out of the sum.
proof fn lemma_mass_remove(s: Seq<Seq<char>>, h: spec_fn(Seq<char>) -> Multiset<Difference>, p: int)
    requires
        0 <= p < s.len(),
    ensures
        mass(|j: int| h(s[j]), s.len() as int) == mass(|j: int| h(s.remove(p)[j]), s.len() - 1).add(h(s[p])),
    decreases s.len(),
{
    let n = s.len() as int;
    let f = |j: int| h(s[j]);
    let r = s.remove(p);
    let fr = |j: int| h(r[j]);
    if p == n - 1 {
        assert forall|j: int| 0 <= j < n - 1 implies #[trigger] f(j) == fr(j) by {
            assert(r[j] == s[j]);
        }
        lemma_mass_pointwise(f, fr, n - 1);
    } else {
        let t = s.drop_last();
        let ft = |j: int| h(t[j]);
        let tr = t.remove(p);
        let ftr = |j: int| h(tr[j]);
        lemma_mass_remove(t, h, p);
        assert forall|j: int| 0 <= j < n - 1 implies #[trigger] f(j) == ft(j) by {
            assert(t[j] == s[j]);
        }
        lemma_mass_pointwise(f, ft, n - 1);
        assert forall|j: int| 0 <= j < n - 2 implies #[trigger] fr(j) == ftr(j) by {
            if j < p {
                assert(r[j] == s[j] && tr[j] == t[j]);
            } else {
                assert(r[j] == s[j + 1] && tr[j] == t[j + 1]);
            }
        }
        lemma_mass_pointwise(fr, ftr, n - 2);
        assert(r[n - 2] == s[n - 1]);
        assert(t[p] == s[p]);
        assert(mass(f, n) =~= mass(fr, n - 1).add(h(s[p])));
    }
}

proof fn lemma_remove_keeps_others(s: Seq<Seq<char>>, p: int, k: Seq<char>)
    requires
        0 <= p < s.len(),
        s.no_duplicates(),
    ensures
        s.remove(p).no_duplicates(),
        s.remove(p).contains(k) <==> (s.contains(k) && k != s[p]),
{
    let r = s.remove(p);
    assert forall|i: int, j: int| 0 <= i < r.len() && 0 <= j < r.len() && i != j implies r[i] != r[j] by {
        let si = if i < p { i } else { i + 1 };
        let sj = if j < p { j } else { j + 1 };
        assert(r[i] == s[si] && r[j] == s[sj]);
    }
    if r.contains(k) {
        let i = choose|i: int| 0 <= i < r.len() && r[i] == k;
        let si = if i < p { i } else { i + 1 };
        assert(r[i] == s[si]);
    }
    if s.contains(k) && k != s[p] {
        let i = choose|i: int| 0 <= i < s.len() && s[i] == k;
        if i < p {
            assert(r[i] == k);
        } else {
            assert(r[i - 1] == k);
        }
    }
}

/// Summing a function of keys over two key sequences without repeats gives
/// the same when every key with a non-empty term is in both.
proof fn lemma_key_mass(s1: Seq<Seq<char>>, s2: Seq<Seq<char>>, h: spec_fn(Seq<char>) -> Multiset<Difference>)
    requires
        s1.no_duplicates(),
        s2.no_duplicates(),
        forall|k: Seq<char>| #[trigger] h(k) != Multiset::<Difference>::empty() ==> s1.contains(k) && s2.contains(k),
    ensures
        mass(|j: int| h(s1[j]), s1.len() as int) == mass(|i: int| h(s2[i]), s2.len() as int),
    decreases s1.len(),
{
    let f1 = |j: int| h(s1[j]);
    let f2 = |i: int| h(s2[i]);
    if s1.len() == 0 {
        assert forall|i: int| 0 <= i < s2.len() implies #[trigger] f2(i) == Multiset::<Difference>::empty() by {
            if h(s2[i]) != Multiset::<Difference>::empty() {
                assert(s1.contains(s2[i]));
            }
        }
        lemma_mass_empty(f2, s2.len() as int);
    } else {
        let n1 = s1.len() as int;
        let x = s1[n1 - 1];
        let t1 = s1.drop_last();
        let h2 = |k: Seq<char>| if k == x { Multiset::<Difference>::empty() } else { h(k) };
        let g1 = |j: int| h2(t1[j]);
        assert(t1.no_duplicates());
        assert forall|j: int| 0 <= j < n1 - 1 implies #[trigger] f1(j) == g1(j) by {
            assert(t1[j] == s1[j]);
            assert(s1[j] != s1[n1 - 1]);
        }
        lemma_mass_pointwise(f1, g1, n1 - 1);
        assert(mass(f1, n1) == mass(f1, n1 - 1).add(h(x)));
        if h(x) == Multiset::<Difference>::empty() {
            let g2 = |i: int| h2(s2[i]);
            assert forall|i: int| 0 <= i < s2.len() implies #[trigger] f2(i) == g2(i) by {}
            lemma_mass_pointwise(f2, g2, s2.len() as int);
            assert forall|k: Seq<char>| #[trigger] h2(k) != Multiset::<Difference>::empty() implies t1.contains(k) && s2.contains(k) by {
                assert(h(k) != Multiset::<Difference>::empty());
                assert(s1.contains(k));
                let i = choose|i: int| 0 <= i < s1.len() && s1[i] == k;
                assert(i != n1 - 1);
                assert(t1[i] == k);
            }
            lemma_key_mass(t1, s2, h2);
            assert(mass(f1, n1) =~= mass(f2, s2.len() as int));
        } else {
            assert(s2.contains(x));
            let p = choose|p: int| 0 <= p < s2.len() && s2[p] == x;
            let r = s2.remove(p);
            lemma_mass_remove(s2, h, p);
            let fr = |i: int| h(r[i]);
            let gr = |i: int| h2(r[i]);
            lemma_remove_keeps_others(s2, p, x);
            assert forall|i: int| 0 <= i < r.len() implies #[trigger] fr(i) == gr(i) by {
                if r[i] == x {
                    assert(r.contains(x));
                }
            }
            lemma_mass_pointwise(fr, gr, r.len() as int);
            assert forall|k: Seq<char>| #[trigger] h2(k) != Multiset::<Difference>::empty() implies t1.contains(k) && r.contains(k) by {
                assert(h(k) != Multiset::<Difference>::empty());
                lemma_remove_keeps_others(s2, p, k);
                let i = choose|i: int| 0 <= i < s1.len() && s1[i] == k;
                assert(i != n1 - 1);
                assert(t1[i] == k);
            }
            lemma_key_mass(t1, r, h2);
        }
    }
}

/// The part of a diff of two objects that member `j` of the new object
/// contributes.
pub open spec fn member_part(
    om: Seq<(Seq<char>, JsonTree)>,
    nm: Seq<(Seq<char>, JsonTree)>,
    path: Seq<char>,
    j: int,
) -> DiffLists {
    let key = nm[j].0;
    let i = first_key_index(om, key, 0);
    if 0 <= i < om.len() {
        diff_at(om[i].1, nm[j].1, joined_path(path, key))
    } else {
        DiffLists::one_added(joined_path(path, key), nm[j].1)
    }
}

/// The part of a diff of two objects that member `i` of the old object
/// contributes to the removals.
pub open spec fn removal_part(
    om: Seq<(Seq<char>, JsonTree)>,
    nm: Seq<(Seq<char>, JsonTree)>,
    path: Seq<char>,
    i: int,
) -> DiffLists {
    if first_key_index(nm, om[i].0, 0) == -1 {
        DiffLists::one_removed(joined_path(path, om[i].0), om[i].1)
    } else {
        DiffLists::none()
    }
}

/// The part of a diff of two arrays that position `i` contributes.
pub open spec fn item_part(oa: Seq<JsonTree>, na: Seq<JsonTree>, path: Seq<char>, i: int) -> DiffLists {
    let child = indexed_path(path, i as nat);
    if i < oa.len() && i < na.len() {
        diff_at(oa[i], na[i], child)
    } else if i < na.len() {
        DiffLists::one_added(child, na[i])
    } else if i < oa.len() {
        DiffLists::one_removed(child, oa[i])
    } else {
        DiffLists::none()
    }
}

proof fn lemma_members_as_parts(om: Seq<(Seq<char>, JsonTree)>, nm: Seq<(Seq<char>, JsonTree)>, path: Seq<char>)
    ensures
        ({
            let g = |k: int| diff_members(om, nm, path, k);
            let f = |j: int| member_part(om, nm, path, j);
            &&& g(0) == DiffLists::none()
            &&& forall|k: int| 1 <= k <= nm.len() ==> #[trigger] g(k) == g(k - 1).followed_by(f(k - 1))
        }),
{
}

proof fn lemma_removals_as_parts(om: Seq<(Seq<char>, JsonTree)>, nm: Seq<(Seq<char>, JsonTree)>, path: Seq<char>)
    ensures
        ({
            let g = |k: int| removed_members(om, nm, path, k);
            let f = |i: int| removal_part(om, nm, path, i);
            &&& g(0) == DiffLists::none()
            &&& forall|k: int| 1 <= k <= om.len() ==> #[trigger] g(k) == g(k - 1).followed_by(f(k - 1))
        }),
{
    assert forall|k: int| 1 <= k <= om.len() implies #[trigger] removed_members(om, nm, path, k) == removed_members(
        om,
        nm,
        path,
        k - 1,
    ).followed_by(removal_part(om, nm, path, k - 1)) by {
        let prev = removed_members(om, nm, path, k - 1);
        assert(prev.followed_by(DiffLists::none()) =~= prev);
    }
}

proof fn lemma_items_as_parts(oa: Seq<JsonTree>, na: Seq<JsonTree>, path: Seq<char>, n: int)
    ensures
        ({
            let g = |k: int| diff_items(oa, na, path, k);
            let f = |i: int| item_part(oa, na, path, i);
            &&& g(0) == DiffLists::none()
            &&& forall|k: int| 1 <= k <= n ==> #[trigger] g(k) == g(k - 1).followed_by(f(k - 1))
        }),
{
    assert forall|k: int| 1 <= k <= n implies #[trigger] diff_items(oa, na, path, k) == diff_items(
        oa,
        na,
        path,
        k - 1,
    ).followed_by(item_part(oa, na, path, k - 1)) by {
        let prev = diff_items(oa, na, path, k - 1);
        assert(prev.followed_by(DiffLists::none()) =~= prev);
    }
}

/// The entries that the members of key `k` of both objects contribute,
/// read the other way round (none when `k` is not a key of both).
pub open spec fn common_term(
    om: Seq<(Seq<char>, JsonTree)>,
    nm: Seq<(Seq<char>, JsonTree)>,
    path: Seq<char>,
    k: Seq<char>,
) -> Multiset<Difference> {
    let i = first_key_index(om, k, 0);
    let j = first_key_index(nm, k, 0);
    if i != -1 && j != -1 {
        bag(diff_at(nm[j].1, om[i].1, joined_path(path, k)))
    } else {
        Multiset::empty()
    }
}

pub open spec fn keys_of(m: Seq<(Seq<char>, JsonTree)>) -> Seq<Seq<char>> {
    m.map_values(|e: (Seq<char>, JsonTree)| e.0)
}

proof fn lemma_add_empty(m: Multiset<Difference>)
    ensures
        m.add(Multiset::empty()) == m,
{
    assert(m.add(Multiset::empty()) =~= m);
}

proof fn lemma_reversed_single()
    ensures
        forall|c: Seq<char>, v: JsonTree| #[trigger] reversed(DiffLists::one_added(c, v)) == DiffLists::one_removed(c, v),
        forall|c: Seq<char>, v: JsonTree| #[trigger] reversed(DiffLists::one_removed(c, v)) == DiffLists::one_added(c, v),
        reversed(DiffLists::none()) == DiffLists::none(),
{
    assert forall|c: Seq<char>, v: JsonTree| #[trigger] reversed(DiffLists::one_added(c, v)) == DiffLists::one_removed(c, v) by {
        assert(reversed(DiffLists::one_added(c, v)) =~= DiffLists::one_removed(c, v));
    }
    assert forall|c: Seq<char>, v: JsonTree| #[trigger] reversed(DiffLists::one_removed(c, v)) == DiffLists::one_added(c, v) by {
        assert(reversed(DiffLists::one_removed(c, v)) =~= DiffLists::one_added(c, v));
    }
    assert(reversed(DiffLists::none()) =~= DiffLists::none());
}

/// Member `j` of the new object, read the other way round: the common
/// term of its key, and the removal that member `j` makes the other way.
proof fn lemma_new_member_reversed(om: Seq<(Seq<char>, JsonTree)>, nm: Seq<(Seq<char>, JsonTree)>, path: Seq<char>, j: int)
    requires
        keys_distinct(om),
        keys_distinct(nm),
        forall|i: int| 0 <= i < om.len() ==> #[trigger] well_formed(om[i].1),
        forall|i: int| 0 <= i < nm.len() ==> #[trigger] well_formed(nm[i].1),
        0 <= j < nm.len(),
    ensures
        bag(reversed(member_part(om, nm, path, j))) == common_term(om, nm, path, nm[j].0).add(
            bag(removal_part(nm, om, path, j)),
        ),
    decreases om, 0int,
{
    let k = nm[j].0;
    let c = joined_path(path, k);
    lemma_first_key_index(om, k, 0);
    lemma_member_value_of_distinct(nm, j);
    lemma_reversed_single();
    lemma_bag_none();
    let i = first_key_index(om, k, 0);
    if i != -1 {
        assert(decreases_to!(om => om[i].1));
        assert(well_formed(om[i].1) && well_formed(nm[j].1));
        lemma_mirror(om[i].1, nm[j].1, c);
        lemma_add_empty(common_term(om, nm, path, k));
    } else {
        assert(common_term(om, nm, path, k) == Multiset::<Difference>::empty());
        assert(Multiset::<Difference>::empty().add(bag(removal_part(nm, om, path, j))) =~= bag(
            removal_part(nm, om, path, j),
        ));
    }
}

/// Member `i` of the old object, in the diff the other way round: the
/// common term of its key, and the addition it makes when its key is not
/// in the new object.
proof fn lemma_old_member(om: Seq<(Seq<char>, JsonTree)>, nm: Seq<(Seq<char>, JsonTree)>, path: Seq<char>, i: int)
    requires
        keys_distinct(om),
        0 <= i < om.len(),
    ensures
        bag(member_part(nm, om, path, i)) == common_term(om, nm, path, om[i].0).add(
            bag(reversed(removal_part(om, nm, path, i))),
        ),
{
    let k = om[i].0;
    lemma_first_key_index(nm, k, 0);
    lemma_member_value_of_distinct(om, i);
    lemma_reversed_single();
    lemma_bag_none();
    let j = first_key_index(nm, k, 0);
    if j != -1 {
        lemma_add_empty(common_term(om, nm, path, k));
    } else {
        assert(Multiset::<Difference>::empty().add(bag(reversed(removal_part(om, nm, path, i)))) =~= bag(
            reversed(removal_part(om, nm, path, i)),
        ));
    }
}

proof fn lemma_keys_of(m: Seq<(Seq<char>, JsonTree)>)
    requires
        keys_distinct(m),
    ensures
        keys_of(m).no_duplicates(),
        keys_of(m).len() == m.len(),
        forall|j: int| 0 <= j < m.len() ==> #[trigger] keys_of(m)[j] == m[j].0,
        forall|k: Seq<char>| first_key_index(m, k, 0) != -1 ==> #[trigger] keys_of(m).contains(k),
{
    assert forall|k: Seq<char>| first_key_index(m, k, 0) != -1 implies #[trigger] keys_of(m).contains(k) by {
        lemma_first_key_index(m, k, 0);
        let r = first_key_index(m, k, 0);
        assert(keys_of(m)[r] == k);
    }
    assert forall|a: int, b: int| 0 <= a < keys_of(m).len() && 0 <= b < keys_of(m).len() && a != b implies keys_of(m)[a] != keys_of(m)[b] by {
        if a < b {
            assert(m[a].0 != m[b].0);
        } else {
            assert(m[b].0 != m[a].0);
        }
    }
}

proof fn lemma_mirror_objects(om: Seq<(Seq<char>, JsonTree)>, nm: Seq<(Seq<char>, JsonTree)>, path: Seq<char>)
    requires
        well_formed(JsonTree::Object(om)),
        well_formed(JsonTree::Object(nm)),
    ensures
        bag(diff_at(JsonTree::Object(nm), JsonTree::Object(om), path)) == bag(
            reversed(diff_at(JsonTree::Object(om), JsonTree::Object(nm), path)),
        ),
    decreases om, 1int,
{
    lemma_members_well_formed_all(om, om.len() as int);
    lemma_members_well_formed_all(nm, nm.len() as int);
    let no = om.len() as int;
    let nn = nm.len() as int;
    let dm1 = diff_members(om, nm, path, nn);
    let rm1 = removed_members(om, nm, path, no);
    let dm2 = diff_members(nm, om, path, no);
    let rm2 = removed_members(nm, om, path, nn);
    assert(diff_at(JsonTree::Object(om), JsonTree::Object(nm), path) == dm1.followed_by(rm1));
    assert(diff_at(JsonTree::Object(nm), JsonTree::Object(om), path) == dm2.followed_by(rm2));
    let f1 = |j: int| member_part(om, nm, path, j);
    let f2 = |i: int| member_part(nm, om, path, i);
    let r1 = |i: int| removal_part(om, nm, path, i);
    let r2 = |j: int| removal_part(nm, om, path, j);
    lemma_members_as_parts(om, nm, path);
    lemma_members_as_parts(nm, om, path);
    lemma_removals_as_parts(om, nm, path);
    lemma_removals_as_parts(nm, om, path);
    lemma_bag_of_parts(|k: int| diff_members(om, nm, path, k), f1, nn);
    lemma_bag_of_parts(|k: int| diff_members(nm, om, path, k), f2, no);
    lemma_bag_of_parts(|k: int| removed_members(om, nm, path, k), r1, no);
    lemma_bag_of_parts(|k: int| removed_members(nm, om, path, k), r2, nn);
    lemma_bag_followed_by(dm2, rm2);
    lemma_reversed_followed_by(dm1, rm1);
    lemma_bag_followed_by(reversed(dm1), reversed(rm1));

    let h = |k: Seq<char>| common_term(om, nm, path, k);
    // the new object's members, read the other way round
    let a1 = |j: int| bag(reversed(f1(j)));
    let hn = |j: int| h(nm[j].0);
    let b2 = |j: int| bag(r2(j));
    let c1 = |j: int| hn(j).add(b2(j));
    assert forall|j: int| 0 <= j < nn implies #[trigger] a1(j) == c1(j) by {
        lemma_new_member_reversed(om, nm, path, j);
    }
    lemma_mass_pointwise(a1, c1, nn);
    lemma_mass_add(hn, b2, nn);
    // the old object's members, in the diff the other way round
    let a2 = |i: int| bag(f2(i));
    let ho = |i: int| h(om[i].0);
    let b1 = |i: int| bag(reversed(r1(i)));
    let c2 = |i: int| ho(i).add(b1(i));
    assert forall|i: int| 0 <= i < no implies #[trigger] a2(i) == c2(i) by {
        lemma_old_member(om, nm, path, i);
    }
    lemma_mass_pointwise(a2, c2, no);
    lemma_mass_add(ho, b1, no);
    // the common keys, in either order
    lemma_keys_of(om);
    lemma_keys_of(nm);
    let kn = keys_of(nm);
    let ko = keys_of(om);
    assert forall|k: Seq<char>| #[trigger] h(k) != Multiset::<Difference>::empty() implies kn.contains(k) && ko.contains(k) by {}
    lemma_key_mass(kn, ko, h);
    let hkn = |j: int| h(kn[j]);
    let hko = |i: int| h(ko[i]);
    assert forall|j: int| 0 <= j < nn implies #[trigger] hn(j) == hkn(j) by {}
    lemma_mass_pointwise(hn, hkn, nn);
    assert forall|i: int| 0 <= i < no implies #[trigger] ho(i) == hko(i) by {}
    lemma_mass_pointwise(ho, hko, no);
    assert(bag(dm2.followed_by(rm2)) =~= bag(reversed(dm1.followed_by(rm1))));
}

proof fn lemma_mirror_arrays(oa: Seq<JsonTree>, na: Seq<JsonTree>, path: Seq<char>)
    requires
        well_formed(JsonTree::Array(oa)),
        well_formed(JsonTree::Array(na)),
    ensures
        bag(diff_at(JsonTree::Array(na), JsonTree::Array(oa), path)) == bag(
            reversed(diff_at(JsonTree::Array(oa), JsonTree::Array(na), path)),
        ),
    decreases oa, 1int,
{
    lemma_items_well_formed_all(oa, oa.len() as int);
    lemma_items_well_formed_all(na, na.len() as int);
    let max = if oa.len() >= na.len() { oa.len() as int } else { na.len() as int };
    assert(diff_at(JsonTree::Array(oa), JsonTree::Array(na), path) == diff_items(oa, na, path, max));
    assert(diff_at(JsonTree::Array(na), JsonTree::Array(oa), path) == diff_items(na, oa, path, max));
    let f1 = |i: int| item_part(oa, na, path, i);
    let f2 = |i: int| item_part(na, oa, path, i);
    lemma_items_as_parts(oa, na, path, max);
    lemma_items_as_parts(na, oa, path, max);
    lemma_bag_of_parts(|k: int| diff_items(oa, na, path, k), f1, max);
    lemma_bag_of_parts(|k: int| diff_items(na, oa, path, k), f2, max);
    lemma_reversed_single();
    let g2 = |i: int| bag(f2(i));
    let g1 = |i: int| bag(reversed(f1(i)));
    assert forall|i: int| 0 <= i < max implies #[trigger] g2(i) == g1(i) by {
        if i < oa.len() && i < na.len() {
            assert(decreases_to!(oa => oa[i]));
            lemma_mirror(oa[i], na[i], indexed_path(path, i as nat));
        }
    }
    lemma_mass_pointwise(g2, g1, max);
}

/// Read the other way round, a diff has the same entries as the diff of the
/// two documents in the other order.
pub(crate) proof fn lemma_mirror(a: JsonTree, b: JsonTree, path: Seq<char>)
    requires
        well_formed(a),
        well_formed(b),
    ensures
        bag(diff_at(b, a, path)) == bag(reversed(diff_at(a, b, path))),
    decreases a, 2int,
{
    match (a, b) {
        (JsonTree::Object(om), JsonTree::Object(nm)) => {
            lemma_mirror_objects(om, nm, path);
        },
        (JsonTree::Array(oa), JsonTree::Array(na)) => {
            lemma_mirror_arrays(oa, na, path);
        },
        _ => {
            assert(diff_at(a, b, path) == leaf_diff(a, b, path));
            assert(diff_at(b, a, path) == leaf_diff(b, a, path));
            assert(reversed(leaf_diff(a, b, path)) =~= leaf_diff(b, a, path));
        },
    }
}

/// How often an entry occurs among the additions of a bag.
pub(crate) proof fn lemma_added_count(s: Seq<(Seq<char>, JsonTree)>, d: Difference)
    ensures
        added_bag(s).count(d) == (match d {
            Difference::Added(p, v) => s.to_multiset().count((p, v)),
            _ => 0,
        }),
    decreases s.len(),
{
    let f = |e: (Seq<char>, JsonTree)| Difference::Added(e.0, e.1);
    if s.len() == 0 {
        s.to_multiset_ensures();
        s.map_values(f).to_multiset_ensures();
        vstd::multiset::lemma_multiset_empty_len(s.to_multiset());
        vstd::multiset::lemma_multiset_empty_len(s.map_values(f).to_multiset());
    } else {
        let t = s.drop_last();
        lemma_added_count(t, d);
        assert(s =~= t.push(s.last()));
        assert(s.map_values(f) =~= t.map_values(f).push(f(s.last())));
        vstd::seq_lib::to_multiset_build(t, s.last());
        vstd::seq_lib::to_multiset_build(t.map_values(f), f(s.last()));
    }
}

/// How often an entry occurs among the removals of a bag.
pub(crate) proof fn lemma_removed_count(s: Seq<(Seq<char>, JsonTree)>, d: Difference)
    ensures
        removed_bag(s).count(d) == (match d {
            Difference::Removed(p, v) => s.to_multiset().count((p, v)),
            _ => 0,
        }),
    decreases s.len(),
{
    let f = |e: (Seq<char>, JsonTree)| Difference::Removed(e.0, e.1);
    if s.len() == 0 {
        s.to_multiset_ensures();
        s.map_values(f).to_multiset_ensures();
        vstd::multiset::lemma_multiset_empty_len(s.to_multiset());
        vstd::multiset::lemma_multiset_empty_len(s.map_values(f).to_multiset());
    } else {
        let t = s.drop_last();
        lemma_removed_count(t, d);
        assert(s =~= t.push(s.last()));
        assert(s.map_values(f) =~= t.map_values(f).push(f(s.last())));
        vstd::seq_lib::to_multiset_build(t, s.last());
        vstd::seq_lib::to_multiset_build(t.map_values(f), f(s.last()));
    }
}

/// How often an entry occurs among the changes of a bag.
pub(crate) proof fn lemma_changed_count(s: Seq<(Seq<char>, JsonTree, JsonTree)>, d: Difference)
    ensures
        changed_bag(s).count(d) == (match d {
            Difference::Changed(p, o, n) => s.to_multiset().count((p, o, n)),
            _ => 0,
        }),
    decreases s.len(),
{
    let f = |e: (Seq<char>, JsonTree, JsonTree)| Difference::Changed(e.0, e.1, e.2);
    if s.len() == 0 {
        s.to_multiset_ensures();
        s.map_values(f).to_multiset_ensures();
        vstd::multiset::lemma_multiset_empty_len(s.to_multiset());
        vstd::multiset::lemma_multiset_empty_len(s.map_values(f).to_multiset());
    } else {
        let t = s.drop_last();
        lemma_changed_count(t, d);
        assert(s =~= t.push(s.last()));
        assert(s.map_values(f) =~= t.map_values(f).push(f(s.last())));
        vstd::seq_lib::to_multiset_build(t, s.last());
        vstd::seq_lib::to_multiset_build(t.map_values(f), f(s.last()));
    }
}

/// How often an entry occurs in the bag of a diff: as often as in the
/// list of its kind.
pub(crate) proof fn lemma_bag_count(x: DiffLists, d: Difference)
    ensures
        bag(x).count(d) == (match d {
            Difference::Added(p, v) => x.added.to_multiset().count((p, v)),
            Difference::Removed(p, v) => x.removed.to_multiset().count((p, v)),
            Difference::Changed(p, o, n) => x.changed.to_multiset().count((p, o, n)),
        }),
{
    lemma_added_count(x.added, d);
    lemma_removed_count(x.removed, d);
    lemma_changed_count(x.changed, d);
    assert(bag(x).count(d) == added_bag(x.added).count(d) + removed_bag(x.removed).count(d) + changed_bag(
        x.changed,
    ).count(d));
}

/// Two diffs with the same bag have the same three lists up to order.
pub(crate) proof fn lemma_same_bag(x: DiffLists, y: DiffLists)
    requires
        bag(x) == bag(y),
    ensures
        x.added.to_multiset() == y.added.to_multiset(),
        x.removed.to_multiset() == y.removed.to_multiset(),
        x.changed.to_multiset() == y.changed.to_multiset(),
{
    assert forall|e: (Seq<char>, JsonTree)| #[trigger] x.added.to_multiset().count(e) == y.added.to_multiset().count(e) by {
        let d = Difference::Added(e.0, e.1);
        assert(e == (e.0, e.1));
        lemma_bag_count(x, d);
        lemma_bag_count(y, d);
    }
    assert forall|e: (Seq<char>, JsonTree)| #[trigger] x.removed.to_multiset().count(e) == y.removed.to_multiset().count(e) by {
        let d = Difference::Removed(e.0, e.1);
        assert(e == (e.0, e.1));
        lemma_bag_count(x, d);
        lemma_bag_count(y, d);
    }
    assert forall|e: (Seq<char>, JsonTree, JsonTree)| #[trigger] x.changed.to_multiset().count(e) == y.changed.to_multiset().count(e) by {
        let d = Difference::Changed(e.0, e.1, e.2);
        assert(e == (e.0, e.1, e.2));
        lemma_bag_count(x, d);
        lemma_bag_count(y, d);
    }
    assert(x.added.to_multiset() =~= y.added.to_multiset());
    assert(x.removed.to_multiset() =~= y.removed.to_multiset());
    assert(x.changed.to_multiset() =~= y.changed.to_multiset());
}

} // verus!
