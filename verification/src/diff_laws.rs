//! What a diff says about the two documents it compares.

use vstd::prelude::*;
use crate::diff::{change_path, diff_at, leaf_diff, diff_items, diff_members, first_key_index, json_diff, member_value, removed_members, DiffLists};
use crate::json::JsonTree;
use crate::text::{indexed_path, joined_path};
use crate::json_text::{lemma_less_asymmetric, text_less};
use crate::diff_swap::{lemma_mirror, lemma_same_bag, reversed, swap_changes};

verus! {

/// Equality of JSON documents: equal scalars; arrays of the same length
/// with equal elements; objects with the same keys and equal values, in
/// any order.
pub open spec fn json_equal(a: JsonTree, b: JsonTree) -> bool
    decreases b, 2int,
{
    match b {
        JsonTree::Object(nm) => match a {
            JsonTree::Object(om) => members_match(om, nm, nm.len() as int) && keys_present(nm, om, om.len() as int),
            _ => false,
        },
        JsonTree::Array(na) => match a {
            JsonTree::Array(oa) => oa.len() == na.len() && items_equal(oa, na, na.len() as int),
            _ => false,
        },
        _ => a == b,
    }
}

/// Each of the first `n` members of `nm` has a member of the same key and
/// an equal value in `om`.
pub open spec fn members_match(om: Seq<(Seq<char>, JsonTree)>, nm: Seq<(Seq<char>, JsonTree)>, n: int) -> bool
    decreases nm, n,
{
    if n <= 0 || n > nm.len() {
        true
    } else {
        members_match(om, nm, n - 1) && member_matches(om, nm[n - 1])
    }
}

/// `entry` has a counterpart in `members`: a member of the same key whose
/// value is equal.
pub open spec fn member_matches(members: Seq<(Seq<char>, JsonTree)>, entry: (Seq<char>, JsonTree)) -> bool
    decreases entry, 0int,
{
    match member_value(members, entry.0) {
        Some(v) => json_equal(v, entry.1),
        None => false,
    }
}

/// Each of the first `n` keys of `om` is also a key of `nm`.
pub open spec fn keys_present(nm: Seq<(Seq<char>, JsonTree)>, om: Seq<(Seq<char>, JsonTree)>, n: int) -> bool {
    forall|i: int| 0 <= i < n ==> first_key_index(nm, #[trigger] om[i].0, 0) != -1
}

/// The first `n` elements of two arrays are pairwise equal.
pub open spec fn items_equal(oa: Seq<JsonTree>, na: Seq<JsonTree>, n: int) -> bool
    decreases na, n,
{
    if n <= 0 || n > na.len() {
        true
    } else {
        items_equal(oa, na, n - 1) && n - 1 < oa.len() && json_equal(oa[n - 1], na[n - 1])
    }
}

/// No two members of one object share a key.
pub open spec fn keys_distinct(m: Seq<(Seq<char>, JsonTree)>) -> bool {
    forall|i: int, j: int| 0 <= i < j < m.len() ==> #[trigger] m[i].0 != #[trigger] m[j].0
}

/// A document in which no object has two members of the same key, as
/// every parsed JSON document is.
pub open spec fn well_formed(t: JsonTree) -> bool
    decreases t, 1int,
{
    match t {
        JsonTree::Object(m) => keys_distinct(m) && members_well_formed(m, m.len() as int),
        JsonTree::Array(s) => items_well_formed(s, s.len() as int),
        _ => true,
    }
}

/// The keys of an object's members strictly ascend, as `String`s compare.
pub open spec fn keys_ascend(m: Seq<(Seq<char>, JsonTree)>) -> bool {
    forall|i: int, j: int| 0 <= i < j < m.len() ==> text_less(#[trigger] m[i].0, #[trigger] m[j].0)
}

/// A document as a JSON parser with sorted objects yields it: in every
/// object the keys strictly ascend. Such a document is well formed, so the
/// laws of the diff hold of it.
pub open spec fn canonical(t: JsonTree) -> bool
    decreases t, 1int,
{
    match t {
        JsonTree::Object(m) => keys_ascend(m) && members_canonical(m, m.len() as int),
        JsonTree::Array(s) => items_canonical(s, s.len() as int),
        _ => true,
    }
}

pub open spec fn members_canonical(m: Seq<(Seq<char>, JsonTree)>, n: int) -> bool
    decreases m, n,
{
    if n <= 0 || n > m.len() {
        true
    } else {
        members_canonical(m, n - 1) && canonical(m[n - 1].1)
    }
}

pub open spec fn items_canonical(s: Seq<JsonTree>, n: int) -> bool
    decreases s, n,
{
    if n <= 0 || n > s.len() {
        true
    } else {
        items_canonical(s, n - 1) && canonical(s[n - 1])
    }
}

pub open spec fn members_well_formed(m: Seq<(Seq<char>, JsonTree)>, n: int) -> bool
    decreases m, n,
{
    if n <= 0 || n > m.len() {
        true
    } else {
        members_well_formed(m, n - 1) && well_formed(m[n - 1].1)
    }
}

pub open spec fn items_well_formed(s: Seq<JsonTree>, n: int) -> bool
    decreases s, n,
{
    if n <= 0 || n > s.len() {
        true
    } else {
        items_well_formed(s, n - 1) && well_formed(s[n - 1])
    }
}

proof fn lemma_followed_by_empty(a: DiffLists, b: DiffLists)
    ensures
        a.followed_by(b).is_empty() == (a.is_empty() && b.is_empty()),
{
}

pub(crate) proof fn lemma_first_key_index(m: Seq<(Seq<char>, JsonTree)>, k: Seq<char>, from: int)
    requires
        0 <= from,
    ensures
        first_key_index(m, k, from) == -1 ==> forall|j: int| from <= j < m.len() ==> m[j].0 != k,
        first_key_index(m, k, from) != -1 ==> {
            let r = first_key_index(m, k, from);
            &&& from <= r < m.len()
            &&& m[r].0 == k
            &&& forall|j: int| from <= j < r ==> m[j].0 != k
        },
    decreases m.len() - from,
{
    if from < m.len() && m[from].0 != k {
        lemma_first_key_index(m, k, from + 1);
    }
}

proof fn lemma_removed_empty(om: Seq<(Seq<char>, JsonTree)>, nm: Seq<(Seq<char>, JsonTree)>, path: Seq<char>, n: int)
    requires
        0 <= n <= om.len(),
    ensures
        removed_members(om, nm, path, n).is_empty() == keys_present(nm, om, n),
    decreases n,
{
    if n > 0 {
        lemma_removed_empty(om, nm, path, n - 1);
        let prev = removed_members(om, nm, path, n - 1);
        if first_key_index(nm, om[n - 1].0, 0) == -1 {
            lemma_followed_by_empty(prev, DiffLists::one_removed(joined_path(path, om[n - 1].0), om[n - 1].1));
        } else if keys_present(nm, om, n - 1) {
            assert forall|i: int| 0 <= i < n implies first_key_index(nm, #[trigger] om[i].0, 0) != -1 by {
                if i < n - 1 {
                }
            }
        }
    }
}

proof fn lemma_members_empty(om: Seq<(Seq<char>, JsonTree)>, nm: Seq<(Seq<char>, JsonTree)>, path: Seq<char>, n: int)
    requires
        0 <= n <= nm.len(),
    ensures
        diff_members(om, nm, path, n).is_empty() == members_match(om, nm, n),
    decreases nm, n,
{
    if n > 0 {
        lemma_members_empty(om, nm, path, n - 1);
        let prev = diff_members(om, nm, path, n - 1);
        let key = nm[n - 1].0;
        let child = joined_path(path, key);
        let i = first_key_index(om, key, 0);
        if 0 <= i < om.len() {
            assert(decreases_to!(nm => nm[n - 1]));
            lemma_diff_empty(om[i].1, nm[n - 1].1, child);
            lemma_followed_by_empty(prev, diff_at(om[i].1, nm[n - 1].1, child));
        } else {
            lemma_followed_by_empty(prev, DiffLists::one_added(child, nm[n - 1].1));
        }
        assert(member_matches(om, nm[n - 1]) == (0 <= i < om.len() && json_equal(om[i].1, nm[n - 1].1)));
    }
}

proof fn lemma_items_empty(oa: Seq<JsonTree>, na: Seq<JsonTree>, path: Seq<char>, n: int)
    requires
        0 <= n,
        n <= oa.len() || n <= na.len(),
    ensures
        diff_items(oa, na, path, n).is_empty() == (n <= na.len() && items_equal(oa, na, n)),
    decreases na, n,
{
    if n > 0 {
        lemma_items_empty(oa, na, path, n - 1);
        let prev = diff_items(oa, na, path, n - 1);
        let i = n - 1;
        let child = indexed_path(path, i as nat);
        if i < oa.len() && i < na.len() {
            assert(decreases_to!(na => na[i]));
            lemma_diff_empty(oa[i], na[i], child);
            lemma_followed_by_empty(prev, diff_at(oa[i], na[i], child));
        } else if i < na.len() {
            lemma_followed_by_empty(prev, DiffLists::one_added(child, na[i]));
        } else {
            lemma_followed_by_empty(prev, DiffLists::one_removed(child, oa[i]));
        }
    }
}

proof fn lemma_diff_empty(a: JsonTree, b: JsonTree, path: Seq<char>)
    ensures
        diff_at(a, b, path).is_empty() == json_equal(a, b),
    decreases b, 0int,
{
    match b {
        JsonTree::Object(nm) => match a {
            JsonTree::Object(om) => {
                lemma_members_empty(om, nm, path, nm.len() as int);
                lemma_removed_empty(om, nm, path, om.len() as int);
                lemma_followed_by_empty(
                    diff_members(om, nm, path, nm.len() as int),
                    removed_members(om, nm, path, om.len() as int),
                );
            },
            _ => {},
        },
        JsonTree::Array(na) => match a {
            JsonTree::Array(oa) => {
                let max = if oa.len() >= na.len() { oa.len() as int } else { na.len() as int };
                lemma_items_empty(oa, na, path, max);
                if na.len() > 0 && items_equal(oa, na, na.len() as int) {
                    assert(na.len() <= oa.len());
                }
            },
            _ => {},
        },
        _ => {},
    }
}

/// A diff finds nothing exactly when the two documents are equal as JSON:
/// `identical` is true when old == new, and only then.
pub proof fn law_identical_iff_equal(old_json: JsonTree, new_json: JsonTree)
    ensures
        json_diff(old_json, new_json).is_empty() == json_equal(old_json, new_json),
{
    lemma_diff_empty(old_json, new_json, Seq::empty());
}

proof fn lemma_members_reflexive(m: Seq<(Seq<char>, JsonTree)>, n: int)
    requires
        0 <= n <= m.len(),
        keys_distinct(m),
        members_well_formed(m, n),
    ensures
        members_match(m, m, n),
    decreases m, n,
{
    if n > 0 {
        lemma_members_reflexive(m, n - 1);
        let k = m[n - 1].0;
        lemma_first_key_index(m, k, 0);
        let r = first_key_index(m, k, 0);
        if r != n - 1 {
            assert(m[r].0 != m[n - 1].0);
        }
        assert(decreases_to!(m => m[n - 1]));
        lemma_equal_reflexive(m[n - 1].1);
        assert(member_matches(m, m[n - 1]));
    }
}

proof fn lemma_items_reflexive(s: Seq<JsonTree>, n: int)
    requires
        0 <= n <= s.len(),
        items_well_formed(s, n),
    ensures
        items_equal(s, s, n),
    decreases s, n,
{
    if n > 0 {
        lemma_items_reflexive(s, n - 1);
        lemma_equal_reflexive(s[n - 1]);
    }
}

proof fn lemma_equal_reflexive(t: JsonTree)
    requires
        well_formed(t),
    ensures
        json_equal(t, t),
    decreases t, 2int,
{
    match t {
        JsonTree::Object(m) => {
            lemma_members_reflexive(m, m.len() as int);
            assert forall|i: int| 0 <= i < m.len() implies first_key_index(m, #[trigger] m[i].0, 0) != -1 by {
                lemma_first_key_index(m, m[i].0, 0);
            }
        },
        JsonTree::Array(s) => {
            lemma_items_reflexive(s, s.len() as int);
        },
        _ => {},
    }
}

/// Comparing a parsed document with itself finds no difference.
pub proof fn law_diff_with_itself_is_identical(v: JsonTree)
    requires
        well_formed(v),
    ensures
        json_diff(v, v) == DiffLists::none(),
{
    lemma_equal_reflexive(v);
    law_identical_iff_equal(v, v);
    assert(json_diff(v, v) =~= DiffLists::none());
}

proof fn lemma_members_match_all(om: Seq<(Seq<char>, JsonTree)>, nm: Seq<(Seq<char>, JsonTree)>, n: int)
    requires
        0 <= n <= nm.len(),
    ensures
        members_match(om, nm, n) <==> forall|j: int| 0 <= j < n ==> #[trigger] member_matches(om, nm[j]),
    decreases n,
{
    if n > 0 {
        lemma_members_match_all(om, nm, n - 1);
        if members_match(om, nm, n - 1) && member_matches(om, nm[n - 1]) {
            assert forall|j: int| 0 <= j < n implies #[trigger] member_matches(om, nm[j]) by {
                if j < n - 1 {
                }
            }
        }
    }
}

proof fn lemma_items_equal_all(oa: Seq<JsonTree>, na: Seq<JsonTree>, n: int)
    requires
        0 <= n <= na.len(),
    ensures
        items_equal(oa, na, n) <==> (n <= oa.len() && forall|j: int| 0 <= j < n ==> #[trigger] json_equal(oa[j], na[j])),
    decreases n,
{
    if n > 0 {
        lemma_items_equal_all(oa, na, n - 1);
        if n <= oa.len() && forall|j: int| 0 <= j < n ==> #[trigger] json_equal(oa[j], na[j]) {
            assert(json_equal(oa[n - 1], na[n - 1]));
            assert(forall|j: int| 0 <= j < n - 1 ==> #[trigger] json_equal(oa[j], na[j]));
        }
        if items_equal(oa, na, n - 1) && n - 1 < oa.len() && json_equal(oa[n - 1], na[n - 1]) {
            assert forall|j: int| 0 <= j < n implies #[trigger] json_equal(oa[j], na[j]) by {
                if j < n - 1 {
                }
            }
        }
    }
}

pub(crate) proof fn lemma_members_well_formed_all(m: Seq<(Seq<char>, JsonTree)>, n: int)
    requires
        0 <= n <= m.len(),
        members_well_formed(m, n),
    ensures
        forall|j: int| 0 <= j < n ==> #[trigger] well_formed(m[j].1),
    decreases n,
{
    if n > 0 {
        lemma_members_well_formed_all(m, n - 1);
        assert forall|j: int| 0 <= j < n implies #[trigger] well_formed(m[j].1) by {
            if j < n - 1 {
            }
        }
    }
}

pub(crate) proof fn lemma_items_well_formed_all(s: Seq<JsonTree>, n: int)
    requires
        0 <= n <= s.len(),
        items_well_formed(s, n),
    ensures
        forall|j: int| 0 <= j < n ==> #[trigger] well_formed(s[j]),
    decreases n,
{
    if n > 0 {
        lemma_items_well_formed_all(s, n - 1);
        assert forall|j: int| 0 <= j < n implies #[trigger] well_formed(s[j]) by {
            if j < n - 1 {
            }
        }
    }
}

/// In an object without repeated keys, the value of the key of member `i`
/// is that member's value.
pub(crate) proof fn lemma_member_value_of_distinct(m: Seq<(Seq<char>, JsonTree)>, i: int)
    requires
        keys_distinct(m),
        0 <= i < m.len(),
    ensures
        first_key_index(m, m[i].0, 0) == i,
        member_value(m, m[i].0) == Some(m[i].1),
{
    lemma_first_key_index(m, m[i].0, 0);
    let r = first_key_index(m, m[i].0, 0);
    if r != i {
        if r < i {
            assert(m[r].0 != m[i].0);
        }
    }
}

proof fn lemma_equal_symmetric(a: JsonTree, b: JsonTree)
    requires
        well_formed(a),
        well_formed(b),
        json_equal(a, b),
    ensures
        json_equal(b, a),
    decreases a,
{
    match a {
        JsonTree::Object(om) => match b {
            JsonTree::Object(nm) => {
                lemma_members_match_all(om, nm, nm.len() as int);
                lemma_members_match_all(nm, om, om.len() as int);
                lemma_members_well_formed_all(om, om.len() as int);
                lemma_members_well_formed_all(nm, nm.len() as int);
                assert forall|i: int| 0 <= i < om.len() implies #[trigger] member_matches(nm, om[i]) by {
                    assert(first_key_index(nm, om[i].0, 0) != -1);
                    lemma_first_key_index(nm, om[i].0, 0);
                    let j = first_key_index(nm, om[i].0, 0);
                    assert(member_matches(om, nm[j]));
                    lemma_member_value_of_distinct(om, i);
                    assert(member_value(om, nm[j].0) == Some(om[i].1));
                    assert(json_equal(om[i].1, nm[j].1));
                    assert(decreases_to!(om => om[i].1));
                    lemma_equal_symmetric(om[i].1, nm[j].1);
                    assert(member_value(nm, om[i].0) == Some(nm[j].1));
                }
                assert forall|j: int| 0 <= j < nm.len() implies first_key_index(om, #[trigger] nm[j].0, 0) != -1 by {
                    assert(member_matches(om, nm[j]));
                }
            },
            _ => {},
        },
        JsonTree::Array(oa) => match b {
            JsonTree::Array(na) => {
                lemma_items_equal_all(oa, na, na.len() as int);
                lemma_items_equal_all(na, oa, oa.len() as int);
                lemma_items_well_formed_all(oa, oa.len() as int);
                lemma_items_well_formed_all(na, na.len() as int);
                assert forall|j: int| 0 <= j < oa.len() implies #[trigger] json_equal(na[j], oa[j]) by {
                    assert(json_equal(oa[j], na[j]));
                    lemma_equal_symmetric(oa[j], na[j]);
                }
            },
            _ => {},
        },
        _ => {},
    }
}

/// For parsed documents, equality does not depend on which side is which:
/// a diff is identical in one direction exactly when it is in the other.
pub proof fn law_identical_is_symmetric(a: JsonTree, b: JsonTree)
    requires
        well_formed(a),
        well_formed(b),
    ensures
        json_equal(a, b) == json_equal(b, a),
        json_diff(a, b).is_empty() == json_diff(b, a).is_empty(),
{
    if json_equal(a, b) {
        lemma_equal_symmetric(a, b);
    }
    if json_equal(b, a) {
        lemma_equal_symmetric(b, a);
    }
    law_identical_iff_equal(a, b);
    law_identical_iff_equal(b, a);
}

/// Comparing the other way round: the additions of the diff of `new_json`
/// against `old_json` are the removals of the diff of `old_json` against
/// `new_json` and the other way about, and its changes are the changes of
/// that diff with old and new value swapped; each list holds the same
/// entries, each as often, possibly in another order.
pub proof fn law_swapping_sides(old_json: JsonTree, new_json: JsonTree)
    requires
        well_formed(old_json),
        well_formed(new_json),
    ensures
        json_diff(new_json, old_json).added.to_multiset() == json_diff(old_json, new_json).removed.to_multiset(),
        json_diff(new_json, old_json).removed.to_multiset() == json_diff(old_json, new_json).added.to_multiset(),
        json_diff(new_json, old_json).changed.to_multiset() == swap_changes(
            json_diff(old_json, new_json).changed,
        ).to_multiset(),
{
    lemma_mirror(old_json, new_json, Seq::empty());
    lemma_same_bag(json_diff(new_json, old_json), reversed(json_diff(old_json, new_json)));
}

proof fn lemma_members_canonical(m: Seq<(Seq<char>, JsonTree)>, n: int)
    requires
        members_canonical(m, n),
    ensures
        members_well_formed(m, n),
    decreases m, n,
{
    if 0 < n <= m.len() {
        lemma_members_canonical(m, n - 1);
        assert(decreases_to!(m => m[n - 1]));
        law_canonical_is_well_formed(m[n - 1].1);
    }
}

proof fn lemma_items_canonical(s: Seq<JsonTree>, n: int)
    requires
        items_canonical(s, n),
    ensures
        items_well_formed(s, n),
    decreases s, n,
{
    if 0 < n <= s.len() {
        lemma_items_canonical(s, n - 1);
        law_canonical_is_well_formed(s[n - 1]);
    }
}

/// A document whose objects all have strictly ascending keys has no
/// object with a repeated key, so every law stated of well-formed
/// documents holds of it.
pub proof fn law_canonical_is_well_formed(t: JsonTree)
    requires
        canonical(t),
    ensures
        well_formed(t),
    decreases t, 2int,
{
    match t {
        JsonTree::Object(m) => {
            assert forall|i: int, j: int| 0 <= i < j < m.len() implies #[trigger] m[i].0 != #[trigger] m[j].0 by {
                lemma_less_asymmetric(m[i].0, m[j].0);
            }
            lemma_members_canonical(m, m.len() as int);
        },
        JsonTree::Array(s) => {
            lemma_items_canonical(s, s.len() as int);
        },
        _ => {},
    }
}

} // verus!
