use api_debugger::listing::plan_list;
use api_debugger::models::{pagination_meta, RequestQuery};

fn query(method: Option<&str>, path: Option<&str>, page: Option<i64>, per_page: Option<i64>) -> RequestQuery {
    RequestQuery {
        method: method.map(|m| m.to_string()),
        path: path.map(|p| p.to_string()),
        page,
        per_page,
    }
}

#[test]
fn page_defaults_and_clamps() {
    assert_eq!(query(None, None, None, None).page(), 1);
    assert_eq!(query(None, None, Some(0), None).page(), 1);
    assert_eq!(query(None, None, Some(-4), None).page(), 1);
    assert_eq!(query(None, None, Some(7), None).page(), 7);
}

#[test]
fn per_page_defaults_and_clamps() {
    assert_eq!(query(None, None, None, None).per_page(), 20);
    assert_eq!(query(None, None, None, Some(0)).per_page(), 1);
    assert_eq!(query(None, None, None, Some(1000)).per_page(), 100);
    assert_eq!(query(None, None, None, Some(5)).per_page(), 5);
}

#[test]
fn offset_skips_earlier_pages() {
    assert_eq!(query(None, None, None, None).offset(), 0);
    assert_eq!(query(None, None, Some(2), Some(20)).offset(), 20);
    assert_eq!(query(None, None, Some(3), Some(5)).offset(), 10);
    assert_eq!(query(None, None, Some(-1), Some(500)).offset(), 0);
}

#[test]
fn consecutive_pages_follow_each_other() {
    for page in 1..6 {
        let a = query(None, None, Some(page), Some(7)).offset();
        let b = query(None, None, Some(page + 1), Some(7)).offset();
        assert_eq!(b, a + 7);
    }
}

#[test]
fn total_pages_is_ceiling() {
    let q = query(None, None, Some(2), Some(20));
    let meta = pagination_meta(&q, 41);
    assert_eq!(meta.page, 2);
    assert_eq!(meta.per_page, 20);
    assert_eq!(meta.total, 41);
    assert_eq!(meta.total_pages, 3);
    assert_eq!(pagination_meta(&q, 40).total_pages, 2);
    assert_eq!(pagination_meta(&q, 0).total_pages, 0);
    assert_eq!(pagination_meta(&q, 1).total_pages, 1);
}

#[test]
fn total_pages_at_the_edges() {
    let q = query(None, None, None, Some(20));
    assert_eq!(pagination_meta(&q, i64::MAX - 19).total_pages, (i64::MAX - 19) / 20 + 1);
    assert_eq!(pagination_meta(&q, -50).total_pages, -1);
    assert_eq!(pagination_meta(&q, -5).total_pages, 0);
    let one = query(None, None, None, Some(1));
    assert_eq!(pagination_meta(&one, i64::MIN).total_pages, i64::MIN);
    assert_eq!(pagination_meta(&one, i64::MAX).total_pages, i64::MAX);
}

#[test]
fn list_plan_without_filters() {
    let plan = plan_list(&query(None, None, None, None));
    assert_eq!(plan.where_clause, "");
    assert!(plan.bind_values.is_empty());
    assert_eq!(plan.count_sql, "SELECT COUNT(*) as cnt FROM requests ");
    assert_eq!(
        plan.data_sql,
        "SELECT id, method, path, headers, body, created_at FROM requests  ORDER BY id DESC LIMIT ? OFFSET ?"
    );
    assert_eq!(plan.per_page, 20);
    assert_eq!(plan.offset, 0);
}

#[test]
fn list_plan_with_method_filter() {
    let plan = plan_list(&query(Some("post"), None, Some(2), Some(5)));
    assert_eq!(plan.where_clause, "WHERE UPPER(method) = UPPER(?)");
    assert_eq!(plan.bind_values, vec!["post".to_string()]);
    assert_eq!(plan.offset, 5);
}

#[test]
fn list_plan_with_path_filter() {
    let plan = plan_list(&query(None, Some("/api"), None, None));
    assert_eq!(plan.where_clause, "WHERE instr(path, ?) > 0");
    assert_eq!(plan.bind_values, vec!["/api".to_string()]);
}

#[test]
fn list_plan_with_both_filters() {
    let plan = plan_list(&query(Some("GET"), Some("/health"), Some(1), Some(5)));
    assert_eq!(
        plan.where_clause,
        "WHERE UPPER(method) = UPPER(?) AND instr(path, ?) > 0"
    );
    assert_eq!(plan.bind_values, vec!["GET".to_string(), "/health".to_string()]);
    assert_eq!(
        plan.count_sql,
        "SELECT COUNT(*) as cnt FROM requests WHERE UPPER(method) = UPPER(?) AND instr(path, ?) > 0"
    );
    assert_eq!(
        plan.data_sql,
        "SELECT id, method, path, headers, body, created_at FROM requests WHERE UPPER(method) = UPPER(?) AND instr(path, ?) > 0 ORDER BY id DESC LIMIT ? OFFSET ?"
    );
    assert_eq!(plan.per_page, 5);
}
