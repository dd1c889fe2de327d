//! The JSON document model that the diff engine works on.
//!
//! A `JsonValue` is an owned JSON document; its mathematical meaning is a
//! `JsonTree`. Object members are kept in the order in which they were
//! given (a parser that yields keys in sorted order gives sorted members;
//! `diff_laws::canonical` names the documents whose object keys all
//! strictly ascend, and `diff_laws::law_canonical_is_well_formed` shows
//! that the diff laws hold of them).

use vstd::prelude::*;

verus! {

/// A JSON number, kept so that two numbers are equal exactly when the
/// numbers they stand for are equal.
#[derive(PartialEq, Eq, Structural, Clone, Copy, Debug)]
pub enum JsonNumber {
    /// A non-negative integer.
    PosInt(u64),
    /// A negative integer.
    NegInt(i64),
    /// A non-integral or out-of-range number, as the bit pattern of its
    /// IEEE-754 double (both zeros stand for the same number).
    Float(u64),
}

/// An owned JSON document.
#[derive(Debug)]
pub enum JsonValue {
    Null,
    Bool(bool),
    Number(JsonNumber),
    String(String),
    Array(Vec<JsonValue>),
    Object(Vec<(String, JsonValue)>),
}

/// The mathematical meaning of a JSON document.
pub enum JsonTree {
    Null,
    Bool(bool),
    Number(JsonNumber),
    String(Seq<char>),
    Array(Seq<JsonTree>),
    Object(Seq<(Seq<char>, JsonTree)>),
}

/// The bit pattern of the double negative zero.
pub const NEGATIVE_ZERO_BITS: u64 = 0x8000_0000_0000_0000;

/// The number that a JSON number stands for: negative zero is the number
/// zero, as doubles compare.
pub open spec fn number_value(n: JsonNumber) -> JsonNumber {
    match n {
        JsonNumber::Float(bits) => if bits == NEGATIVE_ZERO_BITS {
            JsonNumber::Float(0)
        } else {
            n
        },
        _ => n,
    }
}

/// Whether two JSON numbers stand for the same number.
pub fn same_number(x: JsonNumber, y: JsonNumber) -> (same: bool)
    ensures
        same == (number_value(x) == number_value(y)),
{
    let fx = match x {
        JsonNumber::Float(bits) => if bits == NEGATIVE_ZERO_BITS {
            JsonNumber::Float(0)
        } else {
            x
        },
        _ => x,
    };
    let fy = match y {
        JsonNumber::Float(bits) => if bits == NEGATIVE_ZERO_BITS {
            JsonNumber::Float(0)
        } else {
            y
        },
        _ => y,
    };
    fx == fy
}

/// The tree that a document stands for.
pub open spec fn json_tree(v: JsonValue) -> JsonTree
    decreases v, 0int,
{
    match v {
        JsonValue::Null => JsonTree::Null,
        JsonValue::Bool(b) => JsonTree::Bool(b),
        JsonValue::Number(n) => JsonTree::Number(number_value(n)),
        JsonValue::String(s) => JsonTree::String(s@),
        JsonValue::Array(items) => JsonTree::Array(item_trees(items@, items@.len() as int)),
        JsonValue::Object(members) => JsonTree::Object(
            member_trees(members@, members@.len() as int),
        ),
    }
}

/// The trees of the first `n` items of an array.
pub open spec fn item_trees(items: Seq<JsonValue>, n: int) -> Seq<JsonTree>
    decreases items, n,
{
    if n <= 0 || n > items.len() {
        Seq::empty()
    } else {
        item_trees(items, n - 1).push(json_tree(items[n - 1]))
    }
}

/// The key/tree pairs of the first `n` members of an object.
pub open spec fn member_trees(members: Seq<(String, JsonValue)>, n: int) -> Seq<(Seq<char>, JsonTree)>
    decreases members, n,
{
    if n <= 0 || n > members.len() {
        Seq::empty()
    } else {
        member_trees(members, n - 1).push((members[n - 1].0@, json_tree(members[n - 1].1)))
    }
}

impl View for JsonValue {
    type V = JsonTree;

    open spec fn view(&self) -> JsonTree {
        json_tree(*self)
    }
}

/// `item_trees` holds, in order, the tree of each item.
pub proof fn lemma_item_trees(items: Seq<JsonValue>, n: int)
    requires
        0 <= n <= items.len(),
    ensures
        item_trees(items, n).len() == n,
        forall|j: int| 0 <= j < n ==> #[trigger] item_trees(items, n)[j] == json_tree(items[j]),
    decreases n,
{
    if n > 0 {
        lemma_item_trees(items, n - 1);
    }
}

/// `member_trees` holds, in order, the key and tree of each member.
pub proof fn lemma_member_trees(members: Seq<(String, JsonValue)>, n: int)
    requires
        0 <= n <= members.len(),
    ensures
        member_trees(members, n).len() == n,
        forall|j: int|
            0 <= j < n ==> #[trigger] member_trees(members, n)[j] == (
                members[j].0@,
                json_tree(members[j].1),
            ),
    decreases n,
{
    if n > 0 {
        lemma_member_trees(members, n - 1);
    }
}

/// Copies a document, keeping its tree.
pub fn copy_json(v: &JsonValue) -> (r: JsonValue)
    ensures
        r@ == v@,
    decreases v,
{
    match v {
        JsonValue::Null => JsonValue::Null,
        JsonValue::Bool(b) => JsonValue::Bool(*b),
        JsonValue::Number(n) => JsonValue::Number(*n),
        JsonValue::String(s) => JsonValue::String(s.clone()),
        JsonValue::Array(items) => {
            let mut out: Vec<JsonValue> = Vec::new();
            let n = items.len();
            for i in 0..n
                invariant
                    n == items@.len(),
                    *v == JsonValue::Array(*items),
                    out@.len() == i,
                    forall|j: int| 0 <= j < i ==> json_tree(#[trigger] out@[j]) == json_tree(items@[j]),
            {
                proof {
                    vstd::std_specs::vec::axiom_vec_index_decreases(*items, i as int);
                    assert(decreases_to!(*v => v->Array_0));
                }
                let c = copy_json(&items[i]);
                out.push(c);
            }
            proof {
                lemma_item_trees(items@, n as int);
                lemma_item_trees(out@, n as int);
                assert(item_trees(out@, n as int) =~= item_trees(items@, n as int));
            }
            JsonValue::Array(out)
        },
        JsonValue::Object(members) => {
            let mut out: Vec<(String, JsonValue)> = Vec::new();
            let n = members.len();
            for i in 0..n
                invariant
                    n == members@.len(),
                    *v == JsonValue::Object(*members),
                    out@.len() == i,
                    forall|j: int|
                        0 <= j < i ==> (#[trigger] out@[j]).0@ == members@[j].0@ && json_tree(out@[j].1)
                            == json_tree(members@[j].1),
            {
                let k = members[i].0.clone();
                proof {
                    vstd::std_specs::vec::axiom_vec_index_decreases(*members, i as int);
                    assert(decreases_to!(*v => v->Object_0));
                    assert(decreases_to!(members@[i as int] => members@[i as int].1));
                }
                let c = copy_json(&members[i].1);
                out.push((k, c));
            }
            proof {
                lemma_member_trees(members@, n as int);
                lemma_member_trees(out@, n as int);
                assert(member_trees(out@, n as int) =~= member_trees(members@, n as int));
            }
            JsonValue::Object(out)
        },
    }
}

/// Whether two documents have the same tree.
pub fn same_json(a: &JsonValue, b: &JsonValue) -> (same: bool)
    ensures
        same == (a@ == b@),
    decreases a,
{
    match (a, b) {
        (JsonValue::Null, JsonValue::Null) => true,
        (JsonValue::Bool(x), JsonValue::Bool(y)) => *x == *y,
        (JsonValue::Number(x), JsonValue::Number(y)) => same_number(*x, *y),
        (JsonValue::String(x), JsonValue::String(y)) => *x == *y,
        (JsonValue::Array(xs), JsonValue::Array(ys)) => {
            proof {
                lemma_item_trees(xs@, xs@.len() as int);
                lemma_item_trees(ys@, ys@.len() as int);
            }
            if xs.len() != ys.len() {
                return false;
            }
            let n = xs.len();
            for i in 0..n
                invariant
                    n == xs@.len(),
                    n == ys@.len(),
                    *a == JsonValue::Array(*xs),
                    *b == JsonValue::Array(*ys),
                    forall|j: int| 0 <= j < i ==> json_tree(#[trigger] xs@[j]) == json_tree(ys@[j]),
            {
                proof {
                    vstd::std_specs::vec::axiom_vec_index_decreases(*xs, i as int);
                    assert(decreases_to!(*a => a->Array_0));
                }
                if !same_json(&xs[i], &ys[i]) {
                    proof {
                        lemma_item_trees(xs@, n as int);
                        lemma_item_trees(ys@, n as int);
                        assert(item_trees(xs@, n as int)[i as int] != item_trees(ys@, n as int)[i as int]);
                    }
                    return false;
                }
            }
            proof {
                lemma_item_trees(xs@, n as int);
                lemma_item_trees(ys@, n as int);
                assert(item_trees(xs@, n as int) =~= item_trees(ys@, n as int));
            }
            true
        },
        (JsonValue::Object(xs), JsonValue::Object(ys)) => {
            proof {
                lemma_member_trees(xs@, xs@.len() as int);
                lemma_member_trees(ys@, ys@.len() as int);
            }
            if xs.len() != ys.len() {
                return false;
            }
            let n = xs.len();
            for i in 0..n
                invariant
                    n == xs@.len(),
                    n == ys@.len(),
                    *a == JsonValue::Object(*xs),
                    *b == JsonValue::Object(*ys),
                    forall|j: int|
                        0 <= j < i ==> (#[trigger] xs@[j]).0@ == ys@[j].0@ && json_tree(xs@[j].1) == json_tree(
                            ys@[j].1,
                        ),
            {
                proof {
                    vstd::std_specs::vec::axiom_vec_index_decreases(*xs, i as int);
                    assert(decreases_to!(*a => a->Object_0));
                    assert(decreases_to!(xs@[i as int] => xs@[i as int].1));
                }
                if !(xs[i].0 == ys[i].0) || !same_json(&xs[i].1, &ys[i].1) {
                    proof {
                        lemma_member_trees(xs@, n as int);
                        lemma_member_trees(ys@, n as int);
                        assert(member_trees(xs@, n as int)[i as int] != member_trees(ys@, n as int)[i as int]);
                    }
                    return false;
                }
            }
            proof {
                lemma_member_trees(xs@, n as int);
                lemma_member_trees(ys@, n as int);
                assert(member_trees(xs@, n as int) =~= member_trees(ys@, n as int));
            }
            true
        },
        _ => false,
    }
}

impl PartialEq for JsonValue {
    fn eq(&self, other: &Self) -> (same: bool) {
        same_json(self, other)
    }
}

impl vstd::std_specs::cmp::PartialEqSpecImpl for JsonValue {
    open spec fn obeys_eq_spec() -> bool {
        true
    }

    open spec fn eq_spec(&self, other: &Self) -> bool {
        self@ == other@
    }
}

/// Two JSON numbers are equal exactly when they are the same number:
/// the same kind and value, except that the two zeros of a double are
/// equal.
pub proof fn law_numbers_equal_when_same_number(x: JsonNumber, y: JsonNumber)
    ensures
        json_tree(JsonValue::Number(x)) == json_tree(JsonValue::Number(y)) <==> (x == y || (x matches JsonNumber::Float(
            a,
        ) && y matches JsonNumber::Float(b) && (a == 0 || a == 0x8000_0000_0000_0000u64) && (b == 0 || b
            == 0x8000_0000_0000_0000u64))),
{
}

} // verus!
