//! Recursive JSON diff engine.
//!
//! Compares two JSON documents and lists every added, removed and changed
//! field with its path (e.g. `"user.address.city"` or `"items[3]"`).

use vstd::prelude::*;
use crate::json::{copy_json, item_trees, json_tree, lemma_item_trees, lemma_member_trees, member_trees, same_number, JsonTree, JsonValue};
use crate::diff_laws::{json_equal, law_identical_iff_equal};
use crate::text::{index_path, indexed_path, join_path, joined_path};

verus! {

// ─────────────────────────────────────────────────────────────────────
// Mathematical model
// ─────────────────────────────────────────────────────────────────────

/// The three lists of a diff, as paths and trees.
#[verifier::ext_equal]
pub struct DiffLists {
    pub added: Seq<(Seq<char>, JsonTree)>,
    pub removed: Seq<(Seq<char>, JsonTree)>,
    pub changed: Seq<(Seq<char>, JsonTree, JsonTree)>,
}

impl DiffLists {
    pub open spec fn none() -> DiffLists {
        DiffLists { added: Seq::empty(), removed: Seq::empty(), changed: Seq::empty() }
    }

    /// The lists of `self` followed by those of `next`.
    pub open spec fn followed_by(self, next: DiffLists) -> DiffLists {
        DiffLists {
            added: self.added + next.added,
            removed: self.removed + next.removed,
            changed: self.changed + next.changed,
        }
    }

    pub open spec fn is_empty(self) -> bool {
        self.added.len() == 0 && self.removed.len() == 0 && self.changed.len() == 0
    }

    pub open spec fn one_added(path: Seq<char>, value: JsonTree) -> DiffLists {
        DiffLists { added: seq![(path, value)], removed: Seq::empty(), changed: Seq::empty() }
    }

    pub open spec fn one_removed(path: Seq<char>, value: JsonTree) -> DiffLists {
        DiffLists { added: Seq::empty(), removed: seq![(path, value)], changed: Seq::empty() }
    }

    pub open spec fn one_changed(path: Seq<char>, old_value: JsonTree, new_value: JsonTree) -> DiffLists {
        DiffLists { added: Seq::empty(), removed: Seq::empty(), changed: seq![(path, old_value, new_value)] }
    }
}

/// The index of the first member named `key` at or after `from`, or -1.
pub open spec fn first_key_index(members: Seq<(Seq<char>, JsonTree)>, key: Seq<char>, from: int) -> int
    decreases members.len() - from,
{
    if from < 0 || from >= members.len() {
        -1
    } else if members[from].0 == key {
        from
    } else {
        first_key_index(members, key, from + 1)
    }
}

/// The value of the member named `key`, if any (the first one).
pub open spec fn member_value(members: Seq<(Seq<char>, JsonTree)>, key: Seq<char>) -> Option<JsonTree> {
    let i = first_key_index(members, key, 0);
    if 0 <= i < members.len() {
        Some(members[i].1)
    } else {
        None
    }
}

/// The path reported for a changed value: `(root)` for the document itself.
pub open spec fn change_path(path: Seq<char>) -> Seq<char> {
    if path.len() == 0 {
        "(root)"@
    } else {
        path
    }
}

/// Two values that are not both objects nor both arrays: one change when
/// they differ.
pub open spec fn leaf_diff(old_json: JsonTree, new_json: JsonTree, path: Seq<char>) -> DiffLists {
    if old_json == new_json {
        DiffLists::none()
    } else {
        DiffLists::one_changed(change_path(path), old_json, new_json)
    }
}

/// The diff of `old_json` against `new_json`, found at `path`.
///
/// Two objects: the members of the new object in its order (compared when
/// the key is also in the old object, else added), then the members of
/// the old object whose key is missing in the new one (removed). Two
/// arrays: element by element up to the longer length. Anything else: one
/// change when the values differ.
pub open spec fn diff_at(old_json: JsonTree, new_json: JsonTree, path: Seq<char>) -> DiffLists
    decreases new_json, 0int,
{
    match new_json {
        JsonTree::Object(nm) => match old_json {
            JsonTree::Object(om) => diff_members(om, nm, path, nm.len() as int).followed_by(
                removed_members(om, nm, path, om.len() as int),
            ),
            _ => leaf_diff(old_json, new_json, path),
        },
        JsonTree::Array(na) => match old_json {
            JsonTree::Array(oa) => diff_items(
                oa,
                na,
                path,
                if oa.len() >= na.len() { oa.len() as int } else { na.len() as int },
            ),
            _ => leaf_diff(old_json, new_json, path),
        },
        _ => leaf_diff(old_json, new_json, path),
    }
}

/// The diff contributed by the first `n` members of the new object.
pub open spec fn diff_members(
    om: Seq<(Seq<char>, JsonTree)>,
    nm: Seq<(Seq<char>, JsonTree)>,
    path: Seq<char>,
    n: int,
) -> DiffLists
    decreases nm, n,
{
    if n <= 0 || n > nm.len() {
        DiffLists::none()
    } else {
        let prev = diff_members(om, nm, path, n - 1);
        let key = nm[n - 1].0;
        let child = joined_path(path, key);
        let i = first_key_index(om, key, 0);
        if 0 <= i < om.len() {
            proof {
                assert(decreases_to!(nm => nm[n - 1]));
            }
            prev.followed_by(diff_at(om[i].1, nm[n - 1].1, child))
        } else {
            prev.followed_by(DiffLists::one_added(child, nm[n - 1].1))
        }
    }
}

/// The removals among the first `n` members of the old object.
pub open spec fn removed_members(
    om: Seq<(Seq<char>, JsonTree)>,
    nm: Seq<(Seq<char>, JsonTree)>,
    path: Seq<char>,
    n: int,
) -> DiffLists
    decreases n,
{
    if n <= 0 || n > om.len() {
        DiffLists::none()
    } else {
        let prev = removed_members(om, nm, path, n - 1);
        let key = om[n - 1].0;
        if first_key_index(nm, key, 0) == -1 {
            prev.followed_by(DiffLists::one_removed(joined_path(path, key), om[n - 1].1))
        } else {
            prev
        }
    }
}

/// The diff contributed by the first `n` positions of two arrays.
pub open spec fn diff_items(oa: Seq<JsonTree>, na: Seq<JsonTree>, path: Seq<char>, n: int) -> DiffLists
    decreases na, n,
{
    if n <= 0 {
        DiffLists::none()
    } else {
        let prev = diff_items(oa, na, path, n - 1);
        let i = n - 1;
        let child = indexed_path(path, i as nat);
        if i < oa.len() && i < na.len() {
            proof {
                assert(decreases_to!(na => na[i]));
            }
            prev.followed_by(diff_at(oa[i], na[i], child))
        } else if i < na.len() {
            prev.followed_by(DiffLists::one_added(child, na[i]))
        } else if i < oa.len() {
            prev.followed_by(DiffLists::one_removed(child, oa[i]))
        } else {
            prev
        }
    }
}

/// The diff of two whole documents.
pub open spec fn json_diff(old_json: JsonTree, new_json: JsonTree) -> DiffLists {
    diff_at(old_json, new_json, Seq::empty())
}

// ─────────────────────────────────────────────────────────────────────
// Result types
// ─────────────────────────────────────────────────────────────────────

/// The complete result of comparing two JSON values.
#[derive(Debug)]
pub struct DiffResult {
    /// `true` when nothing was added, removed or changed.
    pub identical: bool,
    /// Fields present in `new` but absent in `old`.
    pub added: Vec<DiffEntry>,
    /// Fields present in `old` but absent in `new`.
    pub removed: Vec<DiffEntry>,
    /// Fields present in both but with different values.
    pub changed: Vec<ChangedEntry>,
}

/// A single added or removed field.
#[derive(Debug)]
pub struct DiffEntry {
    /// Dot-separated path, e.g. `"data.users[0].name"`.
    pub path: String,
    /// The value at that path.
    pub value: JsonValue,
}

/// A field whose value differs between old and new.
#[derive(Debug)]
pub struct ChangedEntry {
    pub path: String,
    pub old_value: JsonValue,
    pub new_value: JsonValue,
}

impl View for DiffEntry {
    type V = (Seq<char>, JsonTree);

    open spec fn view(&self) -> (Seq<char>, JsonTree) {
        (self.path@, self.value@)
    }
}

impl View for ChangedEntry {
    type V = (Seq<char>, JsonTree, JsonTree);

    open spec fn view(&self) -> (Seq<char>, JsonTree, JsonTree) {
        (self.path@, self.old_value@, self.new_value@)
    }
}

pub open spec fn entries_view(entries: Seq<DiffEntry>) -> Seq<(Seq<char>, JsonTree)> {
    entries.map_values(|e: DiffEntry| e@)
}

pub open spec fn changes_view(entries: Seq<ChangedEntry>) -> Seq<(Seq<char>, JsonTree, JsonTree)> {
    entries.map_values(|e: ChangedEntry| e@)
}

/// The lists held by three vectors.
pub open spec fn lists_of(added: Seq<DiffEntry>, removed: Seq<DiffEntry>, changed: Seq<ChangedEntry>) -> DiffLists {
    DiffLists { added: entries_view(added), removed: entries_view(removed), changed: changes_view(changed) }
}

impl View for DiffResult {
    type V = DiffLists;

    open spec fn view(&self) -> DiffLists {
        lists_of(self.added@, self.removed@, self.changed@)
    }
}

proof fn lemma_followed_by_assoc(a: DiffLists, b: DiffLists, c: DiffLists)
    ensures
        a.followed_by(b).followed_by(c) == a.followed_by(b.followed_by(c)),
{
    assert(a.followed_by(b).followed_by(c) =~= a.followed_by(b.followed_by(c)));
}

proof fn lemma_push_added(added: Seq<DiffEntry>, removed: Seq<DiffEntry>, changed: Seq<ChangedEntry>, e: DiffEntry)
    ensures
        lists_of(added.push(e), removed, changed) == lists_of(added, removed, changed).followed_by(
            DiffLists::one_added(e.path@, e.value@),
        ),
{
    assert(lists_of(added.push(e), removed, changed) =~= lists_of(added, removed, changed).followed_by(
        DiffLists::one_added(e.path@, e.value@),
    ));
}

proof fn lemma_push_removed(added: Seq<DiffEntry>, removed: Seq<DiffEntry>, changed: Seq<ChangedEntry>, e: DiffEntry)
    ensures
        lists_of(added, removed.push(e), changed) == lists_of(added, removed, changed).followed_by(
            DiffLists::one_removed(e.path@, e.value@),
        ),
{
    assert(lists_of(added, removed.push(e), changed) =~= lists_of(added, removed, changed).followed_by(
        DiffLists::one_removed(e.path@, e.value@),
    ));
}

proof fn lemma_push_changed(added: Seq<DiffEntry>, removed: Seq<DiffEntry>, changed: Seq<ChangedEntry>, e: ChangedEntry)
    ensures
        lists_of(added, removed, changed.push(e)) == lists_of(added, removed, changed).followed_by(
            DiffLists::one_changed(e.path@, e.old_value@, e.new_value@),
        ),
{
    assert(lists_of(added, removed, changed.push(e)) =~= lists_of(added, removed, changed).followed_by(
        DiffLists::one_changed(e.path@, e.old_value@, e.new_value@),
    ));
}

proof fn lemma_followed_by_none(a: DiffLists)
    ensures
        a.followed_by(DiffLists::none()) == a,
{
    assert(a.followed_by(DiffLists::none()) =~= a);
}

// ─────────────────────────────────────────────────────────────────────
// Entry point
// ─────────────────────────────────────────────────────────────────────

/// Compares two JSON values and returns a structured diff.
///
/// Works recursively on objects and arrays. Scalars and type mismatches at
/// the same path are reported as changed.
pub fn diff_json(old_json: &JsonValue, new_json: &JsonValue) -> (result: DiffResult)
    ensures
        result@ == json_diff(old_json@, new_json@),
        result.identical == json_diff(old_json@, new_json@).is_empty(),
        result.identical == json_equal(old_json@, new_json@),
{
    proof {
        law_identical_iff_equal(old_json@, new_json@);
    }
    let mut added: Vec<DiffEntry> = Vec::new();
    let mut removed: Vec<DiffEntry> = Vec::new();
    let mut changed: Vec<ChangedEntry> = Vec::new();
    proof {
        assert(lists_of(added@, removed@, changed@) =~= DiffLists::none());
    }
    diff_recursive(old_json, new_json, String::new(), &mut added, &mut removed, &mut changed);
    proof {
        assert(lists_of(added@, removed@, changed@) =~= json_diff(old_json@, new_json@));
    }
    let identical = added.len() == 0 && removed.len() == 0 && changed.len() == 0;
    DiffResult { identical, added, removed, changed }
}

/// Finds the first member named `key`.
fn find_member(members: &Vec<(String, JsonValue)>, key: &String) -> (found: Option<usize>)
    ensures
        match found {
            Some(j) => j < members@.len() && first_key_index(
                member_trees(members@, members@.len() as int),
                key@,
                0,
            ) == j,
            None => first_key_index(member_trees(members@, members@.len() as int), key@, 0) == -1,
        },
{
    let ghost trees = member_trees(members@, members@.len() as int);
    proof {
        lemma_member_trees(members@, members@.len() as int);
    }
    let n = members.len();
    let mut j: usize = 0;
    while j < n
        invariant
            n == members@.len(),
            j <= n,
            trees == member_trees(members@, members@.len() as int),
            trees.len() == n,
            forall|i: int| 0 <= i < n ==> #[trigger] trees[i] == (members@[i].0@, json_tree(members@[i].1)),
            first_key_index(trees, key@, 0) == first_key_index(trees, key@, j as int),
        decreases n - j,
    {
        if members[j].0 == *key {
            return Some(j);
        }
        j = j + 1;
    }
    None
}

/// `true` when two values, not both objects nor both arrays, differ.
fn values_differ(old_json: &JsonValue, new_json: &JsonValue) -> (differ: bool)
    requires
        !(old_json is Object && new_json is Object),
        !(old_json is Array && new_json is Array),
    ensures
        differ == (old_json@ != new_json@),
{
    match old_json {
        JsonValue::Null => match new_json {
            JsonValue::Null => false,
            _ => true,
        },
        JsonValue::Bool(a) => match new_json {
            JsonValue::Bool(b) => *a != *b,
            _ => true,
        },
        JsonValue::Number(a) => match new_json {
            JsonValue::Number(b) => !same_number(*a, *b),
            _ => true,
        },
        JsonValue::String(a) => match new_json {
            JsonValue::String(b) => !(*a == *b),
            _ => true,
        },
        JsonValue::Array(_) => true,
        JsonValue::Object(_) => true,
    }
}

fn diff_recursive(
    old_json: &JsonValue,
    new_json: &JsonValue,
    path: String,
    added: &mut Vec<DiffEntry>,
    removed: &mut Vec<DiffEntry>,
    changed: &mut Vec<ChangedEntry>,
)
    ensures
        lists_of(final(added)@, final(removed)@, final(changed)@) == lists_of(
            old(added)@,
            old(removed)@,
            old(changed)@,
        ).followed_by(diff_at(old_json@, new_json@, path@)),
    decreases new_json,
{
    let ghost start = lists_of(added@, removed@, changed@);
    match (old_json, new_json) {
        (JsonValue::Object(om), JsonValue::Object(nm)) => {
            let ghost omt = member_trees(om@, om@.len() as int);
            let ghost nmt = member_trees(nm@, nm@.len() as int);
            proof {
                lemma_member_trees(om@, om@.len() as int);
                lemma_member_trees(nm@, nm@.len() as int);
            }
            let n_new = nm.len();
            for i in 0..n_new
                invariant
                    n_new == nm@.len(),
                    *new_json == JsonValue::Object(*nm),
                    omt == member_trees(om@, om@.len() as int),
                    nmt == member_trees(nm@, nm@.len() as int),
                    omt.len() == om@.len(),
                    nmt.len() == nm@.len(),
                    forall|j: int| 0 <= j < om@.len() ==> #[trigger] omt[j] == (om@[j].0@, json_tree(om@[j].1)),
                    forall|j: int| 0 <= j < nm@.len() ==> #[trigger] nmt[j] == (nm@[j].0@, json_tree(nm@[j].1)),
                    lists_of(added@, removed@, changed@) == start.followed_by(diff_members(omt, nmt, path@, i as int)),
            {
                let ghost before = lists_of(added@, removed@, changed@);
                let child = join_path(path.as_str(), nm[i].0.as_str());
                assert(nmt[i as int] == (nm@[i as int].0@, json_tree(nm@[i as int].1)));
                match find_member(om, &nm[i].0) {
                    Some(j) => {
                        assert(omt[j as int] == (om@[j as int].0@, json_tree(om@[j as int].1)));
                        proof {
                            vstd::std_specs::vec::axiom_vec_index_decreases(*nm, i as int);
                            assert(decreases_to!(*new_json => new_json->Object_0));
                            assert(decreases_to!(nm@[i as int] => nm@[i as int].1));
                        }
                        diff_recursive(&om[j].1, &nm[i].1, child, added, removed, changed);
                        proof {
                            lemma_followed_by_assoc(
                                start,
                                diff_members(omt, nmt, path@, i as int),
                                diff_at(omt[j as int].1, nmt[i as int].1, joined_path(path@, nmt[i as int].0)),
                            );
                        }
                    },
                    None => {
                        let value = copy_json(&nm[i].1);
                        let entry = DiffEntry { path: child, value };
                        proof {
                            lemma_push_added(added@, removed@, changed@, entry);
                            lemma_followed_by_assoc(
                                start,
                                diff_members(omt, nmt, path@, i as int),
                                DiffLists::one_added(entry.path@, entry.value@),
                            );
                        }
                        added.push(entry);
                    },
                }
            }
            let ghost mid = lists_of(added@, removed@, changed@);
            let n_old = om.len();
            for i in 0..n_old
                invariant
                    n_old == om@.len(),
                    omt == member_trees(om@, om@.len() as int),
                    nmt == member_trees(nm@, nm@.len() as int),
                    omt.len() == om@.len(),
                    forall|j: int| 0 <= j < om@.len() ==> #[trigger] omt[j] == (om@[j].0@, json_tree(om@[j].1)),
                    lists_of(added@, removed@, changed@) == mid.followed_by(removed_members(omt, nmt, path@, i as int)),
            {
                assert(omt[i as int] == (om@[i as int].0@, json_tree(om@[i as int].1)));
                if find_member(nm, &om[i].0).is_none() {
                    let p = join_path(path.as_str(), om[i].0.as_str());
                    let value = copy_json(&om[i].1);
                    let entry = DiffEntry { path: p, value };
                    proof {
                        lemma_push_removed(added@, removed@, changed@, entry);
                        lemma_followed_by_assoc(
                            mid,
                            removed_members(omt, nmt, path@, i as int),
                            DiffLists::one_removed(entry.path@, entry.value@),
                        );
                    }
                    removed.push(entry);
                }
            }
            proof {
                lemma_followed_by_assoc(
                    start,
                    diff_members(omt, nmt, path@, nm@.len() as int),
                    removed_members(omt, nmt, path@, om@.len() as int),
                );
            }
        },
        (JsonValue::Array(oa), JsonValue::Array(na)) => {
            let ghost oat = item_trees(oa@, oa@.len() as int);
            let ghost nat_ = item_trees(na@, na@.len() as int);
            proof {
                lemma_item_trees(oa@, oa@.len() as int);
                lemma_item_trees(na@, na@.len() as int);
            }
            let max_len = if oa.len() >= na.len() { oa.len() } else { na.len() };
            for i in 0..max_len
                invariant
                    max_len == (if oa@.len() >= na@.len() { oa@.len() } else { na@.len() }),
                    *new_json == JsonValue::Array(*na),
                    oat == item_trees(oa@, oa@.len() as int),
                    nat_ == item_trees(na@, na@.len() as int),
                    oat.len() == oa@.len(),
                    nat_.len() == na@.len(),
                    forall|j: int| 0 <= j < oa@.len() ==> #[trigger] oat[j] == json_tree(oa@[j]),
                    forall|j: int| 0 <= j < na@.len() ==> #[trigger] nat_[j] == json_tree(na@[j]),
                    lists_of(added@, removed@, changed@) == start.followed_by(diff_items(oat, nat_, path@, i as int)),
            {
                let child = index_path(path.as_str(), i);
                if i < oa.len() && i < na.len() {
                    assert(oat[i as int] == json_tree(oa@[i as int]));
                    assert(nat_[i as int] == json_tree(na@[i as int]));
                    proof {
                        vstd::std_specs::vec::axiom_vec_index_decreases(*na, i as int);
                        assert(decreases_to!(*new_json => new_json->Array_0));
                    }
                    diff_recursive(&oa[i], &na[i], child, added, removed, changed);
                    proof {
                        lemma_followed_by_assoc(
                            start,
                            diff_items(oat, nat_, path@, i as int),
                            diff_at(oat[i as int], nat_[i as int], indexed_path(path@, i as nat)),
                        );
                    }
                } else if i < na.len() {
                    assert(nat_[i as int] == json_tree(na@[i as int]));
                    let value = copy_json(&na[i]);
                    let entry = DiffEntry { path: child, value };
                    proof {
                        lemma_push_added(added@, removed@, changed@, entry);
                        lemma_followed_by_assoc(
                            start,
                            diff_items(oat, nat_, path@, i as int),
                            DiffLists::one_added(entry.path@, entry.value@),
                        );
                    }
                    added.push(entry);
                } else {
                    assert(oat[i as int] == json_tree(oa@[i as int]));
                    let value = copy_json(&oa[i]);
                    let entry = DiffEntry { path: child, value };
                    proof {
                        lemma_push_removed(added@, removed@, changed@, entry);
                        lemma_followed_by_assoc(
                            start,
                            diff_items(oat, nat_, path@, i as int),
                            DiffLists::one_removed(entry.path@, entry.value@),
                        );
                    }
                    removed.push(entry);
                }
            }
        },
        _ => {
            if values_differ(old_json, new_json) {
                let p = if path.as_str().is_empty() {
                    proof {
                        reveal_strlit("(root)");
                    }
                    String::from_str("(root)")
                } else {
                    path
                };
                let old_copy = copy_json(old_json);
                let new_copy = copy_json(new_json);
                let entry = ChangedEntry { path: p, old_value: old_copy, new_value: new_copy };
                proof {
                    lemma_push_changed(added@, removed@, changed@, entry);
                }
                changed.push(entry);
            } else {
                proof {
                    lemma_followed_by_none(start);
                }
            }
        },
    }
}

} // verus!
