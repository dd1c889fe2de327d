//! The request headers recorded with each logged request: a JSON object
//! of header name to value, one member per name (the last value given),
//! in ascending name order.

use vstd::prelude::*;
use crate::json_text::{
    all_strings, insert_string, is_object_text, keys_ascending, lemma_less_asymmetric, lemma_less_irreflexive,
    lists_map, new_object, object_to_json, string_members, text_less,
};

verus! {

/// The value recorded for a header: its text, or empty when it is not
/// visible ASCII.
pub open spec fn recorded_value(v: Option<Seq<char>>) -> Seq<char> {
    match v {
        Some(s) => s,
        None => Seq::empty(),
    }
}

/// The headers as a map: each name to the value recorded last for it.
pub open spec fn header_map(pairs: Seq<(Seq<char>, Option<Seq<char>>)>) -> Map<Seq<char>, Seq<char>>
    decreases pairs.len(),
{
    if pairs.len() == 0 {
        Map::empty()
    } else {
        header_map(pairs.drop_last()).insert(pairs.last().0, recorded_value(pairs.last().1))
    }
}

pub open spec fn header_pairs_view(pairs: Seq<(String, Option<String>)>) -> Seq<(Seq<char>, Option<Seq<char>>)> {
    pairs.map_values(|p: (String, Option<String>)| (p.0@, match p.1 { Some(v) => Some(v@), None => None }))
}

proof fn lemma_drop_first_listing(e: Seq<(Seq<char>, Seq<char>)>, m: Map<Seq<char>, Seq<char>>)
    requires
        e.len() > 0,
        keys_ascending(e),
        lists_map(e, m),
    ensures
        keys_ascending(e.drop_first()),
        lists_map(e.drop_first(), m.remove(e[0].0)),
{
    let d = e.drop_first();
    let k0 = e[0].0;
    let mr = m.remove(k0);
    assert forall|a: int, b: int| 0 <= a < b < d.len() implies text_less(#[trigger] d[a].0, #[trigger] d[b].0) by {
        assert(d[a] == e[a + 1] && d[b] == e[b + 1]);
        assert(text_less(e[a + 1].0, e[b + 1].0));
    }
    assert forall|i: int| 0 <= i < d.len() implies #[trigger] mr.contains_key(d[i].0) && mr[d[i].0] == d[i].1 by {
        assert(d[i] == e[i + 1]);
        assert(text_less(e[0].0, e[i + 1].0));
        lemma_less_asymmetric(e[0].0, e[i + 1].0);
        assert(m.contains_key(e[i + 1].0));
    }
    assert forall|k: Seq<char>| #[trigger] mr.contains_key(k) implies exists|i: int| 0 <= i < d.len() && d[i].0 == k by {
        assert(m.contains_key(k));
        let t = choose|t: int| 0 <= t < e.len() && e[t].0 == k;
        assert(t != 0);
        assert(d[t - 1].0 == k);
    }
}

/// A map has one listing with ascending keys: two such listings of the
/// same map are equal, so the text of the headers is determined.
pub proof fn law_ascending_listing_is_unique(
    e1: Seq<(Seq<char>, Seq<char>)>,
    e2: Seq<(Seq<char>, Seq<char>)>,
    m: Map<Seq<char>, Seq<char>>,
)
    requires
        keys_ascending(e1),
        keys_ascending(e2),
        lists_map(e1, m),
        lists_map(e2, m),
    ensures
        e1 == e2,
    decreases e1.len(),
{
    if e1.len() == 0 || e2.len() == 0 {
        if e2.len() > 0 {
            assert(m.contains_key(e2[0].0));
        }
        if e1.len() > 0 {
            assert(m.contains_key(e1[0].0));
        }
        assert(e1 =~= e2);
    } else {
        let k1 = e1[0].0;
        let k2 = e2[0].0;
        assert(m.contains_key(k1));
        assert(m.contains_key(k2));
        let t = choose|t: int| 0 <= t < e2.len() && e2[t].0 == k1;
        let u = choose|u: int| 0 <= u < e1.len() && e1[u].0 == k2;
        if t != 0 {
            assert(text_less(k2, k1));
            if u != 0 {
                assert(text_less(k1, k2));
                lemma_less_asymmetric(k2, k1);
            } else {
                lemma_less_irreflexive(k1);
            }
        }
        assert(k1 == k2);
        assert(e1[0] == e2[0]);
        lemma_drop_first_listing(e1, m);
        lemma_drop_first_listing(e2, m);
        law_ascending_listing_is_unique(e1.drop_first(), e2.drop_first(), m.remove(k1));
        assert(e1 =~= seq![e1[0]] + e1.drop_first());
        assert(e2 =~= seq![e2[0]] + e2.drop_first());
    }
}

/// The JSON text of the headers of a request: an object of each header
/// name to the value given last for it, names ascending. `pairs` holds
/// each header's name and its value when that value is visible ASCII.
pub fn headers_json(pairs: &Vec<(String, Option<String>)>) -> (text: String)
    ensures
        is_object_text(header_map(header_pairs_view(pairs@)), text@),
{
    let ghost pv = header_pairs_view(pairs@);
    let mut object = new_object();
    let n = pairs.len();
    proof {
        assert(pv.take(0) =~= Seq::<(Seq<char>, Option<Seq<char>>)>::empty());
        assert(string_members(object) =~= header_map(pv.take(0)));
    }
    for i in 0..n
        invariant
            n == pairs@.len(),
            pv == header_pairs_view(pairs@),
            pv.len() == n,
            all_strings(object),
            string_members(object) == header_map(pv.take(i as int)),
    {
        let key = pairs[i].0.clone();
        let value = match &pairs[i].1 {
            Some(v) => v.clone(),
            None => String::new(),
        };
        proof {
            assert(pv.take(i + 1).drop_last() =~= pv.take(i as int));
            assert(pv.take(i + 1).last() == pv[i as int]);
            assert(pv[i as int].0 == key@);
            assert(recorded_value(pv[i as int].1) == value@);
        }
        insert_string(&mut object, key, value);
    }
    proof {
        assert(pv.take(n as int) =~= pv);
    }
    object_to_json(object)
}

/// Every header name given is recorded, and only those: the recorded
/// object has a member for each name occurring among the headers, whose
/// value is the one given last for that name (empty when that value is
/// not visible ASCII).
pub proof fn law_every_header_is_recorded(pairs: Seq<(Seq<char>, Option<Seq<char>>)>)
    ensures
        forall|k: Seq<char>| #[trigger] header_map(pairs).contains_key(k) <==> exists|i: int|
            0 <= i < pairs.len() && pairs[i].0 == k,
        forall|i: int|
            0 <= i < pairs.len() && (forall|j: int| i < j < pairs.len() ==> pairs[j].0 != pairs[i].0)
                ==> #[trigger] header_map(pairs)[pairs[i].0] == (match pairs[i].1 {
                Some(v) => v,
                None => Seq::<char>::empty(),
            }),
    decreases pairs.len(),
{
    if pairs.len() > 0 {
        let rest = pairs.drop_last();
        let n = pairs.len() as int;
        law_every_header_is_recorded(rest);
        let last = pairs[n - 1];
        assert(pairs.last() == last);
        assert(header_map(pairs) == header_map(rest).insert(last.0, recorded_value(last.1)));
        assert forall|k: Seq<char>| #[trigger] header_map(pairs).contains_key(k) <==> exists|i: int|
            0 <= i < pairs.len() && pairs[i].0 == k by {
            if k == last.0 {
                assert(pairs[n - 1].0 == k);
            }
            if header_map(pairs).contains_key(k) && k != pairs[n - 1].0 {
                assert(header_map(rest).contains_key(k));
                let i = choose|i: int| 0 <= i < rest.len() && rest[i].0 == k;
                assert(pairs[i].0 == k);
            }
            if exists|i: int| 0 <= i < pairs.len() && pairs[i].0 == k {
                let i = choose|i: int| 0 <= i < pairs.len() && pairs[i].0 == k;
                if i < n - 1 {
                    assert(rest[i].0 == k);
                }
            }
        }
        assert forall|i: int|
            0 <= i < pairs.len() && (forall|j: int| i < j < pairs.len() ==> pairs[j].0 != pairs[i].0)
                implies #[trigger] header_map(pairs)[pairs[i].0] == (match pairs[i].1 {
                Some(v) => v,
                None => Seq::<char>::empty(),
            }) by {
            if i < n - 1 {
                assert(pairs[n - 1].0 != pairs[i].0);
                assert(rest[i] == pairs[i]);
                assert forall|j: int| i < j < rest.len() implies rest[j].0 != rest[i].0 by {
                    assert(rest[j] == pairs[j]);
                    assert(pairs[j].0 != pairs[i].0);
                }
                assert(header_map(rest)[rest[i].0] == (match rest[i].1 {
                    Some(v) => v,
                    None => Seq::<char>::empty(),
                }));
            } else {
                assert(i == n - 1);
            }
        }
    }
}

} // verus!
