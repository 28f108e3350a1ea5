use cirup_core::engine::{
    query_change, query_convert, query_diff, query_diff_with_base, query_intersect, query_merge,
    query_print, query_sort, query_subtract, CirupEngine,
};
use cirup_core::error::CirupError;
use cirup_core::file::{vfile_get, VirtualFiles};
use cirup_core::ops;
use cirup_core::query::{canonical_sql, recognise, CanonicalQuery};
use cirup_core::sql::{
    append_sql_quoted, build_create_table_sql, build_key_index_sql, build_multi_insert_sql,
    valid_table_name,
};
use cirup_core::utils::sanitized;
use cirup_core::{Resource, Triple};

fn res(pairs: &[(&str, &str)]) -> Vec<Resource> {
    pairs.iter().map(|(k, v)| Resource::new(k, v)).collect()
}

fn table_a() -> Vec<Resource> {
    res(&[("k1", "v1"), ("k2", "v2"), ("k3", "v3")])
}

fn table_b() -> Vec<Resource> {
    res(&[("k1", "v1"), ("k2", "vX")])
}

#[test]
fn scenario_diff() {
    assert_eq!(query_diff(table_a(), table_b()).run(), res(&[("k3", "v3")]));
}

#[test]
fn scenario_change() {
    assert_eq!(query_change(table_a(), table_b()).run(), res(&[("k2", "v2"), ("k3", "v3")]));
}

#[test]
fn scenario_merge() {
    assert_eq!(
        query_merge(table_a(), table_b()).run(),
        res(&[("k1", "v1"), ("k2", "vX"), ("k3", "v3")])
    );
}

#[test]
fn scenario_subtract() {
    assert_eq!(query_subtract(table_a(), table_b()).run(), res(&[("k3", "v3")]));
}

#[test]
fn scenario_intersect() {
    assert_eq!(query_intersect(table_a(), table_b()).run(), res(&[("k1", "v1")]));
}

#[test]
fn scenario_diff_with_base() {
    let old = res(&[("x", "1")]);
    let new = res(&[("x", "1"), ("y", "2")]);
    let base = res(&[("x", "X"), ("y", "Y")]);
    let triples = query_diff_with_base(old, new, base).run_triple();
    assert_eq!(triples.len(), 1);
    assert_eq!(triples[0].name, "y");
    assert_eq!(triples[0].value, "2");
    assert_eq!(triples[0].base, "Y");
    assert_eq!(triples[0].to_string(), "y,2,Y");
}

#[test]
fn print_convert_and_sort() {
    let a = res(&[("b", "2"), ("a", "1"), ("b", "0"), ("A", "3")]);
    assert_eq!(query_print(a.clone()).run(), a);
    assert_eq!(query_convert(a.clone()).run(), a);
    assert_eq!(query_sort(a).run(), res(&[("A", "3"), ("a", "1"), ("b", "2"), ("b", "0")]));
}

#[test]
fn merge_appends_new_keys_of_b_and_drops_repeated_rows() {
    let a = res(&[("k1", "v1"), ("k1", "v1"), ("k2", "v2")]);
    let b = res(&[("k2", "w"), ("k4", "v4"), ("k4", "v4")]);
    assert_eq!(ops::merge(&a, &b), res(&[("k1", "v1"), ("k2", "w"), ("k4", "v4")]));
}

#[test]
fn intersect_drops_repeated_rows() {
    let a = res(&[("k", "v"), ("k", "v"), ("j", "w")]);
    let b = res(&[("k", "v")]);
    assert_eq!(ops::intersect(&a, &b), res(&[("k", "v")]));
}

#[test]
fn change_reads_the_last_value_of_a_repeated_key() {
    let a = res(&[("k", "v")]);
    let b = res(&[("k", "v"), ("k", "w")]);
    assert_eq!(ops::change(&a, &b), res(&[("k", "v")]));
}

#[test]
fn left_join_repeats_rows_per_match() {
    let a = res(&[("k1", "v1"), ("k2", "v2")]);
    let b = res(&[("k1", "x"), ("k1", "y")]);
    assert_eq!(ops::left_join(&a, &b), res(&[("k1", "v1"), ("k1", "v1"), ("k2", "v2")]));
}

#[test]
fn changed_values_per_differing_row() {
    let a = res(&[("k1", "v1"), ("k1", "z"), ("k2", "v2")]);
    let b = res(&[("k1", "v1"), ("k2", "new"), ("k3", "v3")]);
    assert_eq!(ops::changed_values(&a, &b), res(&[("k1", "v1"), ("k2", "new")]));
}

#[test]
fn operations_on_empty_tables() {
    let e: Vec<Resource> = vec![];
    assert_eq!(ops::diff(&e, &table_b()), e);
    assert_eq!(ops::diff(&table_a(), &e), table_a());
    assert_eq!(ops::merge(&e, &table_b()), table_b());
    assert_eq!(ops::sort(&e), e);
    assert!(ops::diff_with_base(&e, &e, &e).is_empty());
}

#[test]
fn canonical_form_of_queries() {
    assert_eq!(canonical_sql("  SELECT *\n\tFROM   A  "), "select * from a");
    let diff = "
        SELECT A.key, A.val, B.val
        FROM A
        LEFT OUTER JOIN B ON A.key = B.key
        WHERE (B.val IS NULL)";
    assert_eq!(recognise(diff), Some(CanonicalQuery::Diff));
    assert_eq!(recognise("SELECT * FROM A ORDER BY A.key"), Some(CanonicalQuery::SortByKey));
    assert_eq!(recognise("SELECT * FROM A UNION SELECT * from B"), None);
    for k in [
        CanonicalQuery::SelectAll,
        CanonicalQuery::SortByKey,
        CanonicalQuery::Diff,
        CanonicalQuery::Change,
        CanonicalQuery::Merge,
        CanonicalQuery::Intersect,
        CanonicalQuery::Subtract,
        CanonicalQuery::PullLeftJoin,
        CanonicalQuery::PushChangedValues,
        CanonicalQuery::DiffWithBase,
    ] {
        assert_eq!(recognise(&k.sql().to_uppercase()), Some(k));
    }
}

#[test]
fn engine_answers_canonical_queries() {
    let mut engine = CirupEngine::new();
    engine.register_table_with_resources("A", table_a()).unwrap();
    engine.register_table_with_resources("B", table_b()).unwrap();
    assert_eq!(engine.query_resource("SELECT * FROM A WHERE A.key NOT IN (SELECT B.key FROM B)"), res(&[("k3", "v3")]));
    assert_eq!(engine.query_resource_fast("SELECT 1"), None);
    assert_eq!(engine.query_resource("SELECT 1"), vec![]);
    assert!(engine.query_triple_fast(CanonicalQuery::DiffWithBase.sql()).is_none());
}

#[test]
fn invalid_table_names_are_refused() {
    let mut engine = CirupEngine::new();
    for name in ["", "1abc", "a-b", "a b", "t;drop", "é"] {
        assert!(!valid_table_name(name));
        assert!(matches!(engine.register_table_with_resources(name, table_a()), Err(CirupError::Validation(_))));
        assert!(engine.table(name).is_none());
    }
    for name in ["A", "_t", "t_1", "abcXYZ09"] {
        assert!(valid_table_name(name));
    }
}

#[test]
fn registering_again_replaces_the_table() {
    let mut engine = CirupEngine::new();
    engine.register_table_with_resources("A", table_a()).unwrap();
    engine.register_table_with_resources("B", table_b()).unwrap();
    engine.register_table_with_resources("A", res(&[("z", "1")])).unwrap();
    assert_eq!(engine.query_resource("select * from a"), res(&[("z", "1")]));
    assert_eq!(engine.table("B").unwrap(), &table_b());
}

#[test]
fn sql_text_builders() {
    let mut s = String::from("x=");
    append_sql_quoted(&mut s, "it's");
    assert_eq!(s, "x='it''s'");
    let mut out = String::from("leftover");
    build_multi_insert_sql("t", &res(&[("a", "1"), ("b'", "2")]), &mut out);
    assert_eq!(out, "INSERT INTO t (key, val) VALUES ('a','1'),('b''','2');");
    build_multi_insert_sql("t", &[], &mut out);
    assert_eq!(out, "INSERT INTO t (key, val) VALUES ;");
    assert_eq!(build_key_index_sql("t"), "CREATE INDEX IF NOT EXISTS idx_t_key ON t (key);");
    assert_eq!(build_create_table_sql("t"), "DROP TABLE IF EXISTS t; CREATE TABLE t (key TEXT, val TEXT);");
}

#[test]
fn sanitized_keeps_file_name_characters() {
    assert_eq!(sanitized(".hidden/../a b-c_d.e!"), "hidden..a b-c_d.e");
    assert_eq!(sanitized(""), "");
}

#[test]
fn resource_rendering_and_equality() {
    let r = Resource::new("name", "value");
    assert_eq!(r.to_string(), "name=value");
    assert_eq!(r, Resource::new("name", "value"));
    assert_ne!(r, Resource::new("name", "other"));
    let t = Triple::new("n", "v", "b");
    assert_eq!(t, Triple::new("n", "v", "other base"));
    assert_ne!(t, Triple::new("n", "w", "b"));
}

#[test]
fn register_from_text_through_the_cache() {
    let mut files = VirtualFiles::new();
    let mut engine = CirupEngine::new();
    engine.register_table_from_str(&mut files, "A", "a.restext", "k1=v1\nk2=v2\n").unwrap();
    engine.register_table_from_str(&mut files, "B", "b.json", "{\"k1\": \"x\"}").unwrap();
    assert_eq!(vfile_get(&files, "b.json"), Some("{\"k1\": \"x\"}".to_string()));
    assert_eq!(engine.query_resource("select * from a where a.key not in (select b.key from b)"), res(&[("k2", "v2")]));
    assert!(matches!(engine.register_table_from_str(&mut files, "C", "c.json", "{"), Err(CirupError::Parse(_))));
    assert!(matches!(engine.register_table_from_str(&mut files, "1x", "c.restext", ""), Err(CirupError::Validation(_))));
}
