//! Replaying a stored request: what is sent again, and what is recorded
//! and compared afterwards.

use vstd::prelude::*;
use crate::diff::{diff_json, json_diff, DiffResult};
use crate::diff_laws::json_equal;
use crate::json::{json_tree, lemma_member_trees, member_trees, JsonTree, JsonValue};
use crate::models::{RequestLog, ResponseLog};

verus! {

/// The server that replayed requests are sent to.
pub open spec fn replay_base() -> Seq<char> {
    "http://127.0.0.1:8080"@
}

/// The URL a stored request is replayed at: the same path on the server.
pub fn replay_url(path: &str) -> (url: String)
    ensures
        url@ == replay_base() + path@,
{
    let mut url = String::from_str("http://127.0.0.1:8080");
    url.append(path);
    url
}

/// A character allowed in an HTTP method (an RFC 7230 `tchar`).
pub open spec fn is_token_char(c: char) -> bool {
    let u = c as u32;
    ||| 0x30 <= u <= 0x39
    ||| 0x41 <= u <= 0x5a
    ||| 0x61 <= u <= 0x7a
    ||| c == '!' || c == '#' || c == '$' || c == '%' || c == '&' || c == '\''
    ||| c == '*' || c == '+' || c == '-' || c == '.' || c == '^' || c == '_'
    ||| c == '`' || c == '|' || c == '~'
}

/// A text that names an HTTP method: non-empty, of token characters only.
pub open spec fn is_method_token(s: Seq<char>) -> bool {
    s.len() > 0 && forall|i: int| 0 <= i < s.len() ==> #[trigger] is_token_char(s[i])
}

/// Whether `reqwest::Method` parses `s` (`str::parse::<reqwest::Method>`).
///
/// The contract claims what the parser's source does: it accepts a
/// non-empty text whose every byte is a token character, and nothing else.
#[verifier::external_body]
fn method_parses(s: &str) -> (ok: bool)
    ensures
        ok == is_method_token(s@),
{
    s.parse::<reqwest::Method>().is_ok()
}

/// The method a stored request is replayed with: its own when it is a
/// valid method, else `GET`.
pub fn replay_method(stored: &str) -> (method: String)
    ensures
        method@ == (if is_method_token(stored@) { stored@ } else { "GET"@ }),
{
    if method_parses(stored) {
        String::from_str(stored)
    } else {
        String::from_str("GET")
    }
}

/// The lower-case form of a text (`str::to_lowercase`).
pub uninterp spec fn lowercased(s: Seq<char>) -> Seq<char>;

/// Lower-cases a header name with `str::to_lowercase`; the contract names
/// its result, Unicode's lower-case mapping of the text.
#[verifier::external_body]
fn to_lowercase(s: &str) -> (lower: String)
    ensures
        lower@ == lowercased(s@),
{
    s.to_lowercase()
}

/// A header that the HTTP client sets itself and that a replay leaves out.
pub open spec fn is_hop_header(lower_name: Seq<char>) -> bool {
    lower_name == "host"@ || lower_name == "content-length"@ || lower_name == "transfer-encoding"@
}

/// Whether a lower-cased header name is one that a replay leaves out.
pub fn hop_header(lower_name: &String) -> (hop: bool)
    ensures
        hop == is_hop_header(lower_name@),
{
    *lower_name == String::from_str("host") || *lower_name == String::from_str("content-length")
        || *lower_name == String::from_str("transfer-encoding")
}

/// The headers forwarded from the first `n` recorded members: those whose
/// value is a string and whose name is not a hop header, in order.
pub open spec fn forwarded(members: Seq<(Seq<char>, JsonTree)>, n: int) -> Seq<(Seq<char>, Seq<char>)>
    decreases n,
{
    if n <= 0 || n > members.len() {
        Seq::empty()
    } else {
        let prev = forwarded(members, n - 1);
        let key = members[n - 1].0;
        if is_hop_header(lowercased(key)) {
            prev
        } else {
            match members[n - 1].1 {
                JsonTree::String(v) => prev.push((key, v)),
                _ => prev,
            }
        }
    }
}

/// The headers a replay sends, from the recorded headers (absent or not
/// JSON: `None`): the forwarded members of a recorded object, else none.
pub open spec fn replay_headers_of(recorded: Option<JsonTree>) -> Seq<(Seq<char>, Seq<char>)> {
    match recorded {
        Some(JsonTree::Object(m)) => forwarded(m, m.len() as int),
        _ => Seq::empty(),
    }
}

pub open spec fn optional_tree(v: Option<&JsonValue>) -> Option<JsonTree> {
    match v {
        Some(j) => Some(j@),
        None => None,
    }
}

pub open spec fn string_pairs(v: Seq<(String, String)>) -> Seq<(Seq<char>, Seq<char>)> {
    v.map_values(|e: (String, String)| (e.0@, e.1@))
}

/// The headers to send again, from the recorded headers parsed as JSON.
pub fn replay_headers(recorded: Option<&JsonValue>) -> (headers: Vec<(String, String)>)
    ensures
        string_pairs(headers@) == replay_headers_of(optional_tree(recorded)),
{
    let mut headers: Vec<(String, String)> = Vec::new();
    match recorded {
        Some(JsonValue::Object(members)) => {
            let ghost mt = member_trees(members@, members@.len() as int);
            proof {
                lemma_member_trees(members@, members@.len() as int);
                assert(string_pairs(headers@) =~= forwarded(mt, 0));
            }
            let n = members.len();
            for i in 0..n
                invariant
                    n == members@.len(),
                    mt == member_trees(members@, members@.len() as int),
                    mt.len() == n,
                    forall|j: int| 0 <= j < n ==> #[trigger] mt[j] == (members@[j].0@, json_tree(members@[j].1)),
                    string_pairs(headers@) == forwarded(mt, i as int),
            {
                assert(mt[i as int] == (members@[i as int].0@, json_tree(members@[i as int].1)));
                let lower = to_lowercase(members[i].0.as_str());
                if !hop_header(&lower) {
                    match &members[i].1 {
                        JsonValue::String(v) => {
                            let ghost before = headers@;
                            headers.push((members[i].0.clone(), v.clone()));
                            proof {
                                assert(string_pairs(headers@) =~= string_pairs(before).push(
                                    (members@[i as int].0@, v@),
                                ));
                            }
                        },
                        _ => {},
                    }
                }
            }
        },
        _ => {
            proof {
                assert(string_pairs(headers@) =~= Seq::<(Seq<char>, Seq<char>)>::empty());
            }
        },
    }
    headers
}

proof fn lemma_forwarded(members: Seq<(Seq<char>, JsonTree)>, n: int)
    requires
        0 <= n <= members.len(),
    ensures
        forall|i: int| 0 <= i < forwarded(members, n).len() ==> !is_hop_header(
            lowercased(#[trigger] forwarded(members, n)[i].0),
        ),
        forall|i: int| 0 <= i < forwarded(members, n).len() ==> exists|j: int|
            0 <= j < n && members[j] == (#[trigger] forwarded(members, n)[i].0, JsonTree::String(
                forwarded(members, n)[i].1,
            )),
    decreases n,
{
    if n > 0 {
        lemma_forwarded(members, n - 1);
        let prev = forwarded(members, n - 1);
        let cur = forwarded(members, n);
        assert forall|i: int| 0 <= i < cur.len() implies exists|j: int|
            0 <= j < n && members[j] == (#[trigger] cur[i].0, JsonTree::String(cur[i].1)) by {
            if i < prev.len() {
                assert(cur[i] == prev[i]);
                let j = choose|j: int| 0 <= j < n - 1 && members[j] == (prev[i].0, JsonTree::String(prev[i].1));
                assert(0 <= j < n && members[j] == (cur[i].0, JsonTree::String(cur[i].1)));
            } else {
                assert(members[n - 1] == (cur[i].0, JsonTree::String(cur[i].1)));
            }
        }
        assert forall|i: int| 0 <= i < cur.len() implies !is_hop_header(lowercased(#[trigger] cur[i].0)) by {
            if i < prev.len() {
                assert(cur[i] == prev[i]);
            }
        }
    }
}

/// A replay never sends a header that the HTTP client sets itself (host,
/// content-length, transfer-encoding, in any letter case), and sends only
/// recorded headers whose recorded value is a string, with that value.
pub proof fn law_replay_skips_hop_headers(recorded: Option<JsonTree>)
    ensures
        forall|i: int| 0 <= i < replay_headers_of(recorded).len() ==> !is_hop_header(
            lowercased(#[trigger] replay_headers_of(recorded)[i].0),
        ),
        forall|i: int| 0 <= i < replay_headers_of(recorded).len() ==> (recorded matches Some(JsonTree::Object(m))
            && exists|j: int| 0 <= j < m.len() && m[j] == (#[trigger] replay_headers_of(recorded)[i].0,
                JsonTree::String(replay_headers_of(recorded)[i].1))),
{
    match recorded {
        Some(JsonTree::Object(m)) => {
            lemma_forwarded(m, m.len() as int);
        },
        _ => {},
    }
}

/// What a replay sends.
#[derive(Debug)]
pub struct ReplayPlan {
    pub url: String,
    pub method: String,
    pub headers: Vec<(String, String)>,
    pub body: Option<String>,
}

/// Rebuilds the HTTP request of a stored request. `recorded_headers` is
/// its recorded headers parsed as JSON (`None` when absent or not JSON).
pub fn plan_replay(stored: &RequestLog, recorded_headers: Option<&JsonValue>) -> (plan: ReplayPlan)
    ensures
        plan.url@ == replay_base() + stored.path@,
        plan.method@ == (if is_method_token(stored.method@) { stored.method@ } else { "GET"@ }),
        string_pairs(plan.headers@) == replay_headers_of(optional_tree(recorded_headers)),
        plan.body == stored.body,
{
    ReplayPlan {
        url: replay_url(stored.path.as_str()),
        method: replay_method(stored.method.as_str()),
        headers: replay_headers(recorded_headers),
        body: stored.body.clone(),
    }
}

/// The diff of the original and the replayed response bodies, each parsed
/// as JSON (`None` when absent or not JSON): present only when both are.
pub fn compute_diff(original: Option<&JsonValue>, replayed: Option<&JsonValue>) -> (diff: Option<DiffResult>)
    ensures
        diff is Some <==> (original is Some && replayed is Some),
        diff matches Some(d) ==> d@ == json_diff(original->0@, replayed->0@),
        diff matches Some(d) ==> d.identical == json_diff(original->0@, replayed->0@).is_empty(),
        diff matches Some(d) ==> d.identical == json_equal(original->0@, replayed->0@),
{
    match (original, replayed) {
        (Some(o), Some(r)) => Some(diff_json(o, r)),
        _ => None,
    }
}

/// The record of a replayed response. It takes the id of the request row
/// written for the replay as both its id and its request id.
pub fn replayed_response_log(new_request_id: i64, status: i64, body: String, created_at: String) -> (log: ResponseLog)
    ensures
        log.id == new_request_id,
        log.request_id == new_request_id,
        log.status == status,
        log.body == Some(body),
        log.created_at == created_at,
{
    ResponseLog { id: new_request_id, request_id: new_request_id, status, body: Some(body), created_at }
}

/// What a replay sends, as a filter: exactly the recorded members whose
/// value is a string and whose name, lower-cased, is none of host,
/// content-length and transfer-encoding, in their recorded order, each
/// with its name and string value.
pub open spec fn is_sent(e: (Seq<char>, JsonTree)) -> bool {
    &&& e.1 is String
    &&& lowercased(e.0) != "host"@
    &&& lowercased(e.0) != "content-length"@
    &&& lowercased(e.0) != "transfer-encoding"@
}

proof fn lemma_forwarded_is_filter(m: Seq<(Seq<char>, JsonTree)>, n: int)
    requires
        0 <= n <= m.len(),
    ensures
        forwarded(m, n) == m.take(n).filter(|e: (Seq<char>, JsonTree)| is_sent(e)).map_values(
            |e: (Seq<char>, JsonTree)| (e.0, e.1->String_0),
        ),
    decreases n,
{
    reveal(Seq::filter);
    let p = |e: (Seq<char>, JsonTree)| is_sent(e);
    let f = |e: (Seq<char>, JsonTree)| (e.0, e.1->String_0);
    if n == 0 {
        assert(m.take(0) =~= Seq::<(Seq<char>, JsonTree)>::empty());
        assert(m.take(0).filter(p).map_values(f) =~= Seq::<(Seq<char>, Seq<char>)>::empty());
    } else {
        lemma_forwarded_is_filter(m, n - 1);
        let t = m.take(n);
        assert(t.drop_last() =~= m.take(n - 1));
        assert(t.last() == m[n - 1]);
        let sub = t.drop_last().filter(p);
        if p(t.last()) {
            assert(t.filter(p) == sub.push(t.last()));
            assert(sub.push(t.last()).map_values(f) =~= sub.map_values(f).push(f(t.last())));
        } else {
            assert(t.filter(p) == sub);
        }
    }
}

/// A replay sends exactly the recorded members whose value is a string and
/// whose name, lower-cased, is none of host, content-length and
/// transfer-encoding, in their recorded order, each with its name and
/// string value; it sends nothing when the recorded headers are not a JSON
/// object.
pub proof fn law_replay_forwards_every_other_string_header(recorded: Option<JsonTree>)
    ensures
        replay_headers_of(recorded) == (match recorded {
            Some(JsonTree::Object(m)) => m.filter(|e: (Seq<char>, JsonTree)| is_sent(e)).map_values(
                |e: (Seq<char>, JsonTree)| (e.0, e.1->String_0),
            ),
            _ => Seq::empty(),
        }),
        recorded matches Some(JsonTree::Object(m)) ==> forall|j: int|
            0 <= j < m.len() && #[trigger] is_sent(m[j]) ==> replay_headers_of(recorded).contains(
                (m[j].0, m[j].1->String_0),
            ),
{
    match recorded {
        Some(JsonTree::Object(m)) => {
            lemma_forwarded_is_filter(m, m.len() as int);
            assert(m.take(m.len() as int) =~= m);
            let p = |e: (Seq<char>, JsonTree)| is_sent(e);
            let f = |e: (Seq<char>, JsonTree)| (e.0, e.1->String_0);
            assert forall|j: int| 0 <= j < m.len() && #[trigger] is_sent(m[j]) implies replay_headers_of(
                recorded,
            ).contains((m[j].0, m[j].1->String_0)) by {
                m.lemma_filter_contains(p, j);
                let fl = m.filter(p);
                assert(fl.contains(m[j]));
                let k = choose|k: int| 0 <= k < fl.len() && fl[k] == m[j];
                assert(fl.map_values(f)[k] == f(m[j]));
            }
        },
        _ => {},
    }
}

/// A replay goes to the same path on the local server, port 8080.
pub proof fn law_replay_targets_the_local_server(path: Seq<char>)
    ensures
        replay_base() + path == "http://127.0.0.1:8080"@ + path,
{
}

/// The characters of an HTTP method are exactly the token characters of
/// HTTP: ASCII letters and digits and ``!#$%&'*+-.^_`|~``.
pub proof fn law_method_characters(c: char)
    ensures
        is_token_char(c) <==> (('0' <= c <= '9') || ('A' <= c <= 'Z') || ('a' <= c <= 'z') || "!#$%&'*+-.^_`|~"@.contains(
            c,
        )),
{
    reveal_strlit("!#$%&'*+-.^_`|~");
    let t = "!#$%&'*+-.^_`|~"@;
    if t.contains(c) {
        let i = choose|i: int| 0 <= i < t.len() && t[i] == c;
        assert(is_token_char(t[i]));
    }
    if c == '!' { assert(t[0] == c); }
    if c == '#' { assert(t[1] == c); }
    if c == '$' { assert(t[2] == c); }
    if c == '%' { assert(t[3] == c); }
    if c == '&' { assert(t[4] == c); }
    if c == '\'' { assert(t[5] == c); }
    if c == '*' { assert(t[6] == c); }
    if c == '+' { assert(t[7] == c); }
    if c == '-' { assert(t[8] == c); }
    if c == '.' { assert(t[9] == c); }
    if c == '^' { assert(t[10] == c); }
    if c == '_' { assert(t[11] == c); }
    if c == '`' { assert(t[12] == c); }
    if c == '|' { assert(t[13] == c); }
    if c == '~' { assert(t[14] == c); }
}

} // verus!
