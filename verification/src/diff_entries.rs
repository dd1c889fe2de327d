//! What a diff reports, entry by entry: the path format, the change of two
//! plain values, and the entries that the members of two objects and the
//! elements of two arrays give rise to.

use vstd::prelude::*;
use crate::diff::{change_path, diff_at, diff_items, diff_members, first_key_index, removed_members, DiffLists};
use crate::diff_laws::{keys_distinct, lemma_first_key_index, lemma_member_value_of_distinct};
use crate::diff_swap::{item_part, member_part, removal_part};
use crate::json::JsonTree;
use crate::text::{decimal, indexed_path, joined_path};

verus! {

/// Paths name where an entry was found: a member's key alone at the top
/// level, else its parent's path, a dot and the key; an element's index in
/// brackets after its array's path; a change of the whole document is
/// reported at `(root)`.
pub proof fn law_path_format(prefix: Seq<char>, key: Seq<char>, index: nat)
    ensures
        joined_path(prefix, key) == (if prefix.len() == 0 { key } else { prefix + "."@ + key }),
        indexed_path(prefix, index) == prefix + "["@ + decimal(index) + "]"@,
        change_path(prefix) == (if prefix.len() == 0 { "(root)"@ } else { prefix }),
{
    reveal_strlit(".");
    reveal_strlit("[");
    reveal_strlit("]");
    assert(seq!['.'] =~= "."@);
    assert(seq!['['] =~= "["@);
    assert(seq![']'] =~= "]"@);
}

/// Two values that are not both objects nor both arrays give no entry when
/// they are equal, and else exactly one change from the old to the new
/// value, reported at their path (`(root)` for whole documents).
pub proof fn law_plain_values_give_one_change(a: JsonTree, b: JsonTree, path: Seq<char>)
    requires
        !(a is Object && b is Object),
        !(a is Array && b is Array),
    ensures
        diff_at(a, b, path).added.len() == 0,
        diff_at(a, b, path).removed.len() == 0,
        diff_at(a, b, path).changed == (if a == b {
            Seq::empty()
        } else {
            seq![(if path.len() == 0 { "(root)"@ } else { path }, a, b)]
        }),
{
    reveal_strlit("(root)");
}

proof fn lemma_concat_keeps<T>(a: Seq<T>, b: Seq<T>)
    ensures
        forall|e: T| a.contains(e) ==> #[trigger] (a + b).contains(e),
        forall|e: T| b.contains(e) ==> #[trigger] (a + b).contains(e),
{
    assert forall|e: T| a.contains(e) implies #[trigger] (a + b).contains(e) by {
        let i = choose|i: int| 0 <= i < a.len() && a[i] == e;
        assert((a + b)[i] == e);
    }
    assert forall|e: T| b.contains(e) implies #[trigger] (a + b).contains(e) by {
        let i = choose|i: int| 0 <= i < b.len() && b[i] == e;
        assert((a + b)[a.len() + i] == e);
    }
}

/// `d` holds every entry of `part`.
pub open spec fn holds(d: DiffLists, part: DiffLists) -> bool {
    &&& forall|e: (Seq<char>, JsonTree)| part.added.contains(e) ==> #[trigger] d.added.contains(e)
    &&& forall|e: (Seq<char>, JsonTree)| part.removed.contains(e) ==> #[trigger] d.removed.contains(e)
    &&& forall|e: (Seq<char>, JsonTree, JsonTree)| part.changed.contains(e) ==> #[trigger] d.changed.contains(e)
}

proof fn lemma_followed_by_holds(a: DiffLists, b: DiffLists)
    ensures
        holds(a.followed_by(b), a),
        holds(a.followed_by(b), b),
{
    lemma_concat_keeps(a.added, b.added);
    lemma_concat_keeps(a.removed, b.removed);
    lemma_concat_keeps(a.changed, b.changed);
}

proof fn lemma_holds_trans(a: DiffLists, b: DiffLists, c: DiffLists)
    requires
        holds(a, b),
        holds(b, c),
    ensures
        holds(a, c),
{
}

proof fn lemma_members_hold(
    om: Seq<(Seq<char>, JsonTree)>,
    nm: Seq<(Seq<char>, JsonTree)>,
    path: Seq<char>,
    n: int,
    j: int,
)
    requires
        0 <= j < n <= nm.len(),
    ensures
        holds(diff_members(om, nm, path, n), member_part(om, nm, path, j)),
    decreases n,
{
    let prev = diff_members(om, nm, path, n - 1);
    assert(diff_members(om, nm, path, n) == prev.followed_by(member_part(om, nm, path, n - 1)));
    lemma_followed_by_holds(prev, member_part(om, nm, path, n - 1));
    if j < n - 1 {
        lemma_members_hold(om, nm, path, n - 1, j);
        lemma_holds_trans(diff_members(om, nm, path, n), prev, member_part(om, nm, path, j));
    }
}

proof fn lemma_removals_hold(
    om: Seq<(Seq<char>, JsonTree)>,
    nm: Seq<(Seq<char>, JsonTree)>,
    path: Seq<char>,
    n: int,
    i: int,
)
    requires
        0 <= i < n <= om.len(),
    ensures
        holds(removed_members(om, nm, path, n), removal_part(om, nm, path, i)),
    decreases n,
{
    let prev = removed_members(om, nm, path, n - 1);
    assert(removed_members(om, nm, path, n) == prev.followed_by(removal_part(om, nm, path, n - 1))) by {
        assert(prev.followed_by(DiffLists::none()) =~= prev);
    }
    lemma_followed_by_holds(prev, removal_part(om, nm, path, n - 1));
    if i < n - 1 {
        lemma_removals_hold(om, nm, path, n - 1, i);
        lemma_holds_trans(removed_members(om, nm, path, n), prev, removal_part(om, nm, path, i));
    }
}

proof fn lemma_items_hold(oa: Seq<JsonTree>, na: Seq<JsonTree>, path: Seq<char>, n: int, i: int)
    requires
        0 <= i < n,
    ensures
        holds(diff_items(oa, na, path, n), item_part(oa, na, path, i)),
    decreases n,
{
    let prev = diff_items(oa, na, path, n - 1);
    assert(diff_items(oa, na, path, n) == prev.followed_by(item_part(oa, na, path, n - 1))) by {
        assert(prev.followed_by(DiffLists::none()) =~= prev);
    }
    lemma_followed_by_holds(prev, item_part(oa, na, path, n - 1));
    if i < n - 1 {
        lemma_items_hold(oa, na, path, n - 1, i);
        lemma_holds_trans(diff_items(oa, na, path, n), prev, item_part(oa, na, path, i));
    }
}

/// Comparing two objects: a member of the new object whose key the old
/// object lacks is reported added, with its value; a member of the old
/// object whose key the new object lacks is reported removed, with its
/// value; and two plain values under the same key that differ are reported
/// changed, from the old to the new value. Each is reported at the path of
/// its key under the objects' path.
pub proof fn law_object_members_are_reported(
    om: Seq<(Seq<char>, JsonTree)>,
    nm: Seq<(Seq<char>, JsonTree)>,
    path: Seq<char>,
)
    requires
        keys_distinct(om),
    ensures
        forall|j: int|
            0 <= j < nm.len() && (forall|i: int| 0 <= i < om.len() ==> om[i].0 != #[trigger] nm[j].0) ==> diff_at(
                JsonTree::Object(om),
                JsonTree::Object(nm),
                path,
            ).added.contains((joined_path(path, nm[j].0), nm[j].1)),
        forall|i: int|
            0 <= i < om.len() && (forall|j: int| 0 <= j < nm.len() ==> nm[j].0 != #[trigger] om[i].0) ==> diff_at(
                JsonTree::Object(om),
                JsonTree::Object(nm),
                path,
            ).removed.contains((joined_path(path, om[i].0), om[i].1)),
        forall|i: int, j: int|
            0 <= i < om.len() && 0 <= j < nm.len() && #[trigger] om[i].0 == #[trigger] nm[j].0 && !(
            om[i].1 is Object && nm[j].1 is Object) && !(om[i].1 is Array && nm[j].1 is Array) && om[i].1
                != nm[j].1 ==> diff_at(JsonTree::Object(om), JsonTree::Object(nm), path).changed.contains(
                (change_path(joined_path(path, nm[j].0)), om[i].1, nm[j].1),
            ),
{
    let d = diff_at(JsonTree::Object(om), JsonTree::Object(nm), path);
    let dm = diff_members(om, nm, path, nm.len() as int);
    let rm = removed_members(om, nm, path, om.len() as int);
    assert(d == dm.followed_by(rm));
    lemma_followed_by_holds(dm, rm);
    assert forall|j: int|
        0 <= j < nm.len() && (forall|i: int| 0 <= i < om.len() ==> om[i].0 != #[trigger] nm[j].0) implies d.added.contains(
        (joined_path(path, nm[j].0), nm[j].1),
    ) by {
        lemma_first_key_index(om, nm[j].0, 0);
        if first_key_index(om, nm[j].0, 0) != -1 {
            let r = first_key_index(om, nm[j].0, 0);
            assert(om[r].0 != nm[j].0);
        }
        lemma_members_hold(om, nm, path, nm.len() as int, j);
        let p = member_part(om, nm, path, j);
        assert(p.added[0] == (joined_path(path, nm[j].0), nm[j].1));
        assert(p.added.contains((joined_path(path, nm[j].0), nm[j].1)));
        assert(dm.added.contains((joined_path(path, nm[j].0), nm[j].1)));
    }
    assert forall|i: int|
        0 <= i < om.len() && (forall|j: int| 0 <= j < nm.len() ==> nm[j].0 != #[trigger] om[i].0) implies d.removed.contains(
        (joined_path(path, om[i].0), om[i].1),
    ) by {
        lemma_first_key_index(nm, om[i].0, 0);
        if first_key_index(nm, om[i].0, 0) != -1 {
            let r = first_key_index(nm, om[i].0, 0);
            assert(nm[r].0 != om[i].0);
        }
        lemma_removals_hold(om, nm, path, om.len() as int, i);
        let p = removal_part(om, nm, path, i);
        assert(p.removed[0] == (joined_path(path, om[i].0), om[i].1));
        assert(p.removed.contains((joined_path(path, om[i].0), om[i].1)));
        assert(rm.removed.contains((joined_path(path, om[i].0), om[i].1)));
    }
    assert forall|i: int, j: int|
        0 <= i < om.len() && 0 <= j < nm.len() && #[trigger] om[i].0 == #[trigger] nm[j].0 && !(om[i].1 is Object
            && nm[j].1 is Object) && !(om[i].1 is Array && nm[j].1 is Array) && om[i].1 != nm[j].1 implies d.changed.contains(
        (change_path(joined_path(path, nm[j].0)), om[i].1, nm[j].1),
    ) by {
        lemma_member_value_of_distinct(om, i);
        lemma_members_hold(om, nm, path, nm.len() as int, j);
        let c = joined_path(path, nm[j].0);
        let p = member_part(om, nm, path, j);
        assert(p == diff_at(om[i].1, nm[j].1, c));
        law_plain_values_give_one_change(om[i].1, nm[j].1, c);
        assert(p.changed[0] == (change_path(c), om[i].1, nm[j].1));
        assert(p.changed.contains((change_path(c), om[i].1, nm[j].1)));
        assert(dm.changed.contains((change_path(c), om[i].1, nm[j].1)));
    }
}

/// Comparing two arrays element by element: elements that only the new
/// array has are reported added, those that only the old array has are
/// reported removed, and two plain values at the same index that differ
/// are reported changed; each at the path of its index under the arrays'
/// path.
pub proof fn law_array_elements_are_reported(oa: Seq<JsonTree>, na: Seq<JsonTree>, path: Seq<char>)
    ensures
        forall|i: int|
            oa.len() <= i < na.len() ==> diff_at(JsonTree::Array(oa), JsonTree::Array(na), path).added.contains(
                (indexed_path(path, i as nat), #[trigger] na[i]),
            ),
        forall|i: int|
            na.len() <= i < oa.len() ==> diff_at(JsonTree::Array(oa), JsonTree::Array(na), path).removed.contains(
                (indexed_path(path, i as nat), #[trigger] oa[i]),
            ),
        forall|i: int|
            0 <= i < oa.len() && i < na.len() && !(#[trigger] oa[i] is Object && na[i] is Object) && !(oa[i] is Array
                && na[i] is Array) && oa[i] != na[i] ==> diff_at(JsonTree::Array(oa), JsonTree::Array(na), path).changed.contains(
                (indexed_path(path, i as nat), oa[i], na[i]),
            ),
{
    let max = if oa.len() >= na.len() { oa.len() as int } else { na.len() as int };
    let d = diff_at(JsonTree::Array(oa), JsonTree::Array(na), path);
    assert(d == diff_items(oa, na, path, max));
    assert forall|i: int| oa.len() <= i < na.len() implies d.added.contains(
        (indexed_path(path, i as nat), #[trigger] na[i]),
    ) by {
        lemma_items_hold(oa, na, path, max, i);
        let p = item_part(oa, na, path, i);
        assert(p.added[0] == (indexed_path(path, i as nat), na[i]));
        assert(p.added.contains((indexed_path(path, i as nat), na[i])));
    }
    assert forall|i: int| na.len() <= i < oa.len() implies d.removed.contains(
        (indexed_path(path, i as nat), #[trigger] oa[i]),
    ) by {
        lemma_items_hold(oa, na, path, max, i);
        let p = item_part(oa, na, path, i);
        assert(p.removed[0] == (indexed_path(path, i as nat), oa[i]));
        assert(p.removed.contains((indexed_path(path, i as nat), oa[i])));
    }
    assert forall|i: int|
        0 <= i < oa.len() && i < na.len() && !(#[trigger] oa[i] is Object && na[i] is Object) && !(oa[i] is Array
            && na[i] is Array) && oa[i] != na[i] implies d.changed.contains((indexed_path(path, i as nat), oa[i], na[i])) by {
        lemma_items_hold(oa, na, path, max, i);
        let c = indexed_path(path, i as nat);
        let p = item_part(oa, na, path, i);
        assert(p == diff_at(oa[i], na[i], c));
        law_plain_values_give_one_change(oa[i], na[i], c);
        assert(c.len() > 0);
        assert(p.changed[0] == (c, oa[i], na[i]));
        assert(p.changed.contains((c, oa[i], na[i])));
    }
}

} // verus!
