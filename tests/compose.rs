use moarsql::model::{JoinType, ProjectionCol, Select, Statement};

fn col(c: &str) -> ProjectionCol {
    ProjectionCol { col: c.to_string(), alias: None }
}

fn aliased(c: &str, a: &str) -> ProjectionCol {
    ProjectionCol { col: c.to_string(), alias: Some(a.to_string()) }
}

fn select(table: &str, projections: Vec<ProjectionCol>) -> Select {
    Select { table_name: table.to_string(), projections, group_by: None, where_clause: None }
}

fn join(key: &str, t: JoinType) -> (String, JoinType) {
    (key.to_string(), t)
}

fn two_table_statement(first: Select) -> Statement {
    Statement {
        create_table: None,
        joins: vec![join("id", JoinType::Inner)],
        selects: vec![first, select("b", vec![col("id"), aliased("v", "val")])],
    }
}

#[test]
fn end_to_end_bare_left_table() {
    let st = two_table_statement(select("a", vec![]));
    let expected = "SELECT\n  id,\n  val\nFROM\n  a\n  ALL INNER JOIN\n  (\n    SELECT\n      id,\n      v as val\n    FROM b\n  )\n  USING id";
    assert_eq!(st.clickhouse_sql("  ", false), expected);
}

#[test]
fn end_to_end_projected_left_table() {
    let st = two_table_statement(select("a", vec![col("id")]));
    let expected = "SELECT\n  id,\n  val\nFROM\n  (\n    SELECT\n      id\n    FROM a\n  )\n  ALL INNER JOIN\n  (\n    SELECT\n      id,\n      v as val\n    FROM b\n  )\n  USING id";
    assert_eq!(st.validate(), Ok(()));
    assert_eq!(st.clickhouse_sql("  ", false), expected);
}

#[test]
fn reverse_nesting_swaps_operands() {
    let st = two_table_statement(select("a", vec![]));
    let expected = "SELECT\n  id,\n  val\nFROM\n  (\n    SELECT\n      id,\n      v as val\n    FROM b\n  )\n  ALL INNER JOIN\n  a\n  USING id";
    assert_eq!(st.clickhouse_sql("  ", true), expected);
}

#[test]
fn reverse_nesting_keeps_tables_types_and_keys() {
    let st = three_table_statement();
    let normal = st.clickhouse_sql("  ", false);
    let reverse = st.clickhouse_sql("  ", true);
    assert_ne!(normal, reverse);
    let mut a: Vec<char> = normal.chars().collect();
    let mut b: Vec<char> = reverse.chars().collect();
    a.sort();
    b.sort();
    assert_eq!(a, b);
    for word in ["FROM a", "FROM b", "FROM c", "ALL LEFT JOIN", "ALL INNER JOIN", "USING id", "USING k"] {
        assert_eq!(normal.matches(word).count(), reverse.matches(word).count());
    }
}

fn three_table_statement() -> Statement {
    Statement {
        create_table: None,
        joins: vec![join("id", JoinType::Left), join("k", JoinType::Inner)],
        selects: vec![
            select("a", vec![col("id"), col("x")]),
            select("b", vec![col("id"), col("k")]),
            select("c", vec![col("k"), aliased("y", "x"), col("z")]),
        ],
    }
}

#[test]
fn three_tables_nest_two_levels() {
    let st = three_table_statement();
    assert_eq!(st.validate(), Ok(()));
    let expected = "SELECT\n  id,\n  x,\n  k,\n  z\nFROM\n  (\n    SELECT\n      id,\n      x\n    FROM a\n  )\n  ALL LEFT JOIN\n  (\n    SELECT\n      id,\n      k,\n      x,\n      z\n    FROM\n      (\n        SELECT\n          id,\n          k\n        FROM b\n      )\n      ALL INNER JOIN\n      (\n        SELECT\n          k,\n          y as x,\n          z\n        FROM c\n      )\n      USING k\n  )\n  USING id";
    assert_eq!(st.clickhouse_sql("  ", false), expected);
}

#[test]
fn join_and_using_counts_match_joins() {
    let st = three_table_statement();
    for rev in [false, true] {
        let sql = st.clickhouse_sql("  ", rev);
        assert_eq!(sql.matches("JOIN").count(), 2);
        assert_eq!(sql.matches("USING").count(), 2);
    }
}

#[test]
fn shared_column_listed_once_at_first_place() {
    let st = Statement {
        create_table: None,
        joins: vec![join("id", JoinType::Inner)],
        selects: vec![select("a", vec![col("x"), col("id")]), select("b", vec![col("id"), col("x"), col("w")])],
    };
    let sql = st.clickhouse_sql("\t", false);
    assert!(sql.starts_with("SELECT\n\tx,\n\tid,\n\tw\nFROM\n"));
}

#[test]
fn wrapped_in_create_table() {
    let mut st = two_table_statement(select("a", vec![]));
    st.create_table = Some("t".to_string());
    let sql = st.clickhouse_sql("  ", false);
    let expected = "CREATE TABLE t AS\n(\n  SELECT\n    id,\n    val\n  FROM\n    a\n    ALL INNER JOIN\n    (\n      SELECT\n        id,\n        v as val\n      FROM b\n    )\n    USING id\n)";
    assert_eq!(sql, expected);
    assert!(sql.starts_with("CREATE TABLE t AS"));
}

#[test]
fn single_select_without_parentheses() {
    let mut s = select("a", vec![col("id"), aliased("v", "w")]);
    s.group_by = Some("id".to_string());
    s.where_clause = Some("v > 1".to_string());
    let st = Statement { create_table: None, joins: vec![], selects: vec![s] };
    assert_eq!(st.clickhouse_sql("  ", false), "  SELECT\n    id,\n    v as w\n  FROM a\n  GROUP BY id\n  WHERE v > 1");
}

#[test]
fn single_bare_select_is_table_name() {
    let st = Statement { create_table: None, joins: vec![], selects: vec![select("a", vec![])] };
    assert_eq!(st.clickhouse_sql("  ", false), "a");
}

#[test]
fn operand_with_group_by_and_where() {
    let mut s = select("a", vec![col("id")]);
    s.group_by = Some("id".to_string());
    s.where_clause = Some("id > 3".to_string());
    assert_eq!(Statement::select_sql(&s, "  ", 1), "  (\n    SELECT\n      id\n    FROM a\n    GROUP BY id\n    WHERE id > 3\n  )");
}

#[test]
fn bare_operand_in_any_position() {
    let s = select("tbl", vec![]);
    assert_eq!(Statement::select_sql(&s, "  ", 0), "tbl");
    assert_eq!(Statement::select_sql(&s, "  ", 3), "      tbl");
    let st = Statement {
        create_table: None,
        joins: vec![join("id", JoinType::Outer)],
        selects: vec![select("a", vec![col("id")]), select("tbl", vec![])],
    };
    let sql = st.clickhouse_sql("  ", false);
    assert!(sql.contains("ALL OUTER JOIN\n  tbl\n  USING id"));
}

#[test]
fn composite_key_reproduced_literally() {
    let st = Statement {
        create_table: None,
        joins: vec![join("(a, b)", JoinType::Right)],
        selects: vec![select("x", vec![]), select("y", vec![])],
    };
    assert_eq!(st.clickhouse_sql("  ", false), "SELECT\n  \nFROM\n  x\n  ALL RIGHT JOIN\n  y\n  USING (a, b)");
}

#[test]
fn keyword_counts_with_j_and_u_in_names() {
    let st = Statement {
        create_table: Some("JUNE_OUT".to_string()),
        joins: vec![join("uid", JoinType::Outer), join("jk", JoinType::Left)],
        selects: vec![
            select("JAN_SALES", vec![col("uid")]),
            select("users", vec![col("uid"), col("jk")]),
            select("jobs", vec![aliased("job_key", "jk")]),
        ],
    };
    for rev in [false, true] {
        let sql = st.clickhouse_sql("  ", rev);
        assert_eq!(sql.matches("JOIN").count(), 2);
        assert_eq!(sql.matches("USING").count(), 2);
    }
}
