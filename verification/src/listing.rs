//! The query plan of the request list: its filter, its SQL and the values
//! bound to it.

use vstd::prelude::*;
use crate::models::{page_number, page_size, RequestQuery};

verus! {

/// The SQL of the method filter (exact, case-insensitive).
pub open spec fn method_condition() -> Seq<char> {
    "UPPER(method) = UPPER(?)"@
}

/// The SQL of the path filter: the value occurs in the path, character
/// for character (a substring match; `%` and `_` match only themselves and
/// case counts).
pub open spec fn path_condition() -> Seq<char> {
    "instr(path, ?) > 0"@
}

/// The `WHERE` clause of a list query: empty without filters, else the
/// filters joined by ` AND `, the method filter first.
pub open spec fn where_clause_of(has_method: bool, has_path: bool) -> Seq<char> {
    if has_method && has_path {
        "WHERE "@ + method_condition() + " AND "@ + path_condition()
    } else if has_method {
        "WHERE "@ + method_condition()
    } else if has_path {
        "WHERE "@ + path_condition()
    } else {
        Seq::empty()
    }
}

/// The values bound to the filter placeholders, in placeholder order.
pub open spec fn bind_values_of(method: Option<String>, path: Option<String>) -> Seq<Seq<char>> {
    let m: Seq<Seq<char>> = match method {
        Some(m) => seq![m@],
        None => Seq::empty(),
    };
    let p: Seq<Seq<char>> = match path {
        Some(p) => seq![p@],
        None => Seq::empty(),
    };
    m + p
}

/// The query that counts the matching rows.
pub open spec fn count_sql_of(where_clause: Seq<char>) -> Seq<char> {
    "SELECT COUNT(*) as cnt FROM requests "@ + where_clause
}

/// The query that fetches one page of matching rows, newest first; its
/// last two placeholders take the page size and the offset.
pub open spec fn data_sql_of(where_clause: Seq<char>) -> Seq<char> {
    "SELECT id, method, path, headers, body, created_at FROM requests "@ + where_clause
        + " ORDER BY id DESC LIMIT ? OFFSET ?"@
}

/// What the request list runs against the database.
#[derive(Debug)]
pub struct ListPlan {
    pub where_clause: String,
    /// Values for the filter placeholders, in order.
    pub bind_values: Vec<String>,
    pub count_sql: String,
    pub data_sql: String,
    /// Rows per page (the `LIMIT`).
    pub per_page: i64,
    /// Rows before this page (the `OFFSET`).
    pub offset: i64,
}

/// Builds the filter, the SQL and the paging of a list request.
pub fn plan_list(query: &RequestQuery) -> (plan: ListPlan)
    requires
        (page_number(query.page) - 1) * page_size(query.per_page) <= i64::MAX,
    ensures
        plan.where_clause@ == where_clause_of(query.method is Some, query.path is Some),
        plan.bind_values@.map_values(|v: String| v@) == bind_values_of(query.method, query.path),
        plan.count_sql@ == count_sql_of(plan.where_clause@),
        plan.data_sql@ == data_sql_of(plan.where_clause@),
        plan.per_page == page_size(query.per_page),
        plan.offset == (page_number(query.page) - 1) * page_size(query.per_page),
{
    let mut bind_values: Vec<String> = Vec::new();
    let mut where_clause = String::new();
    match &query.method {
        Some(m) => {
            where_clause.append("WHERE ");
            where_clause.append("UPPER(method) = UPPER(?)");
            bind_values.push(m.clone());
        },
        None => {},
    }
    match &query.path {
        Some(p) => {
            if query.method.is_some() {
                where_clause.append(" AND ");
            } else {
                where_clause.append("WHERE ");
            }
            where_clause.append("instr(path, ?) > 0");
            bind_values.push(p.clone());
        },
        None => {},
    }
    proof {
        assert(where_clause@ =~= where_clause_of(query.method is Some, query.path is Some));
        assert(bind_values@.map_values(|v: String| v@) =~= bind_values_of(query.method, query.path));
    }
    let mut count_sql = String::from_str("SELECT COUNT(*) as cnt FROM requests ");
    count_sql.append(where_clause.as_str());
    let mut data_sql = String::from_str("SELECT id, method, path, headers, body, created_at FROM requests ");
    data_sql.append(where_clause.as_str());
    data_sql.append(" ORDER BY id DESC LIMIT ? OFFSET ?");
    let per_page = query.per_page();
    let offset = query.offset();
    ListPlan { where_clause, bind_values, count_sql, data_sql, per_page, offset }
}

/// The SQL of a list request depends only on which filters are present:
/// two queries with the same filters present send the same texts, and the
/// filter values reach the database only as bound values, the method's
/// before the path's (the page size and offset follow them in the page
/// query).
pub proof fn law_sql_depends_only_on_filters_present(q1: RequestQuery, q2: RequestQuery)
    requires
        (q1.method is Some) == (q2.method is Some),
        (q1.path is Some) == (q2.path is Some),
    ensures
        where_clause_of(q1.method is Some, q1.path is Some) == where_clause_of(q2.method is Some, q2.path is Some),
        count_sql_of(where_clause_of(q1.method is Some, q1.path is Some)) == count_sql_of(
            where_clause_of(q2.method is Some, q2.path is Some),
        ),
        data_sql_of(where_clause_of(q1.method is Some, q1.path is Some)) == data_sql_of(
            where_clause_of(q2.method is Some, q2.path is Some),
        ),
        bind_values_of(q1.method, q1.path).len() == bind_values_of(q2.method, q2.path).len(),
        q1.method matches Some(m) ==> bind_values_of(q1.method, q1.path)[0] == m@,
        q1.path matches Some(p) ==> bind_values_of(q1.method, q1.path).last() == p@,
{
}

/// The page query always lists the newest rows first and ends with the
/// page size and offset placeholders, and the count query counts the rows
/// that the same filter selects, whatever that filter is.
pub proof fn law_page_query_lists_newest_first(where_clause: Seq<char>)
    ensures
        data_sql_of(where_clause) == "SELECT id, method, path, headers, body, created_at FROM requests "@
            + where_clause + " ORDER BY id DESC LIMIT ? OFFSET ?"@,
        count_sql_of(where_clause) == "SELECT COUNT(*) as cnt FROM requests "@ + where_clause,
{
}

/// The filters of a list query: none without filters; the method compared
/// exactly but for letter case, and the path as a substring; both joined
/// by `AND`, the method's first; one placeholder for each, bound in that
/// order to the values asked for.
pub proof fn law_filters_select_what_is_asked(method: Option<String>, path: Option<String>)
    ensures
        where_clause_of(method is Some, path is Some) == (if method is Some && path is Some {
            "WHERE UPPER(method) = UPPER(?) AND instr(path, ?) > 0"@
        } else if method is Some {
            "WHERE UPPER(method) = UPPER(?)"@
        } else if path is Some {
            "WHERE instr(path, ?) > 0"@
        } else {
            ""@
        }),
        bind_values_of(method, path).len() == (if method is Some { 1int } else { 0 }) + (if path is Some {
            1int
        } else {
            0
        }),
        method matches Some(m) ==> bind_values_of(method, path)[0] == m@,
        path matches Some(p) ==> bind_values_of(method, path)[bind_values_of(method, path).len() - 1] == p@,
{
    reveal_strlit("WHERE UPPER(method) = UPPER(?) AND instr(path, ?) > 0");
    reveal_strlit("WHERE UPPER(method) = UPPER(?)");
    reveal_strlit("WHERE instr(path, ?) > 0");
    reveal_strlit("WHERE ");
    reveal_strlit(" AND ");
    reveal_strlit("UPPER(method) = UPPER(?)");
    reveal_strlit("instr(path, ?) > 0");
    reveal_strlit("");
    assert("WHERE "@ + "UPPER(method) = UPPER(?)"@ + " AND "@ + "instr(path, ?) > 0"@
        =~= "WHERE UPPER(method) = UPPER(?) AND instr(path, ?) > 0"@);
    assert("WHERE "@ + "UPPER(method) = UPPER(?)"@ =~= "WHERE UPPER(method) = UPPER(?)"@);
    assert("WHERE "@ + "instr(path, ?) > 0"@ =~= "WHERE instr(path, ?) > 0"@);
    assert(Seq::<char>::empty() =~= ""@);
}

} // verus!
