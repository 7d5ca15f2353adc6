use moarsql::model::{ConfigError, JoinType, ProjectionCol, SelectConfig, Statement, StatementConfig, parse_join};
use moarsql::model::Select;

#[test]
fn projection_with_alias_round_trip() {
    let p = ProjectionCol::from_str("a as b").unwrap();
    assert_eq!(p.col, "a");
    assert_eq!(p.alias, Some("b".to_string()));
    assert_eq!(p.sql_string(), "a as b");
    assert_eq!(p.aliased(), "b");
}

#[test]
fn projection_without_alias_round_trip() {
    let p = ProjectionCol::from_str("a").unwrap();
    assert_eq!(p.col, "a");
    assert_eq!(p.alias, None);
    assert_eq!(p.sql_string(), "a");
    assert_eq!(p.aliased(), "a");
}

#[test]
fn projection_parts_are_trimmed() {
    let p = ProjectionCol::from_str("  sum(x)   as  total ").unwrap();
    assert_eq!(p.col, "sum(x)");
    assert_eq!(p.alias, Some("total".to_string()));
}

#[test]
fn projection_with_two_delimiters_is_ambiguous() {
    assert_eq!(ProjectionCol::from_str("a as b as c").unwrap_err(), ConfigError::AmbiguousProjection);
}

#[test]
fn join_type_any_case() {
    assert_eq!(JoinType::from_str("inner"), Ok(JoinType::Inner));
    assert_eq!(JoinType::from_str("LEFT"), Ok(JoinType::Left));
    assert_eq!(JoinType::from_str("Right"), Ok(JoinType::Right));
    assert_eq!(JoinType::from_str("oUtEr"), Ok(JoinType::Outer));
    assert_eq!(JoinType::from_str("cross"), Err(ConfigError::UnknownJoinType));
    assert_eq!(JoinType::from_str(""), Err(ConfigError::UnknownJoinType));
}

#[test]
fn join_type_keywords() {
    assert_eq!(JoinType::Right.to_string(), "RIGHT");
    assert_eq!(JoinType::Left.to_string(), "LEFT");
    assert_eq!(JoinType::Inner.to_string(), "INNER");
    assert_eq!(JoinType::Outer.to_string(), "OUTER");
    assert_eq!(JoinType::default(), JoinType::Inner);
}

#[test]
fn join_entry_forms() {
    let (k, t) = parse_join("id", JoinType::Left).unwrap();
    assert_eq!((k.as_str(), t), ("id", JoinType::Left));
    let (k, t) = parse_join("id::::outer", JoinType::Left).unwrap();
    assert_eq!((k.as_str(), t), ("id", JoinType::Outer));
    let (k, t) = parse_join("(a, b)::::RIGHT", JoinType::Inner).unwrap();
    assert_eq!((k.as_str(), t), ("(a, b)", JoinType::Right));
    assert_eq!(parse_join("id::::sideways", JoinType::Inner), Err(ConfigError::UnknownJoinType));
}

fn select_config(table: &str, projections: &[&str]) -> SelectConfig {
    SelectConfig {
        table_name: table.to_string(),
        projections: projections.iter().map(|p| p.to_string()).collect(),
        group_by: None,
        where_clause: None,
    }
}

#[test]
fn config_becomes_statement() {
    let config = StatementConfig {
        create_table: Some("out".to_string()),
        joins: Some(vec!["id".to_string(), "k::::left".to_string()]),
        selects: vec![select_config("a", &["id"]), select_config("b", &["id", "k"]), select_config("c", &["k as k"])],
        global_join_type: JoinType::Outer,
    };
    let st = Statement::try_from(config).unwrap();
    assert_eq!(st.create_table, Some("out".to_string()));
    assert_eq!(st.joins, vec![("id".to_string(), JoinType::Outer), ("k".to_string(), JoinType::Left)]);
    assert_eq!(st.selects.len(), 3);
    assert_eq!(st.selects[2].aliased_projections(), vec!["k".to_string()]);
    assert_eq!(st.validate(), Ok(()));
}

#[test]
fn config_errors() {
    let bad_projection = StatementConfig {
        create_table: None,
        joins: Some(vec!["id::::nope".to_string()]),
        selects: vec![select_config("a", &["x as y as z"]), select_config("b", &["id"])],
        global_join_type: JoinType::Inner,
    };
    assert_eq!(Statement::try_from(bad_projection).unwrap_err(), ConfigError::AmbiguousProjection);
    let bad_join = StatementConfig {
        create_table: None,
        joins: Some(vec!["id::::nope".to_string()]),
        selects: vec![select_config("a", &["id"]), select_config("b", &["id"])],
        global_join_type: JoinType::Inner,
    };
    assert_eq!(Statement::try_from(bad_join).unwrap_err(), ConfigError::UnknownJoinType);
    assert!(Select::try_from(select_config("a", &["p as q as r"])).is_err());
}

#[test]
fn join_count_mismatch_rejected() {
    let sel = |t: &str| Select { table_name: t.to_string(), projections: vec![], group_by: None, where_clause: None };
    let st = Statement {
        create_table: None,
        joins: vec![("id".to_string(), JoinType::Inner)],
        selects: vec![sel("a"), sel("b"), sel("c")],
    };
    assert_eq!(st.validate(), Err(ConfigError::JoinCountMismatch { selects: 3, joins: 1 }));
    let empty = Statement { create_table: None, joins: vec![], selects: vec![] };
    assert_eq!(empty.validate(), Err(ConfigError::JoinCountMismatch { selects: 0, joins: 0 }));
}

#[test]
fn unjoinable_key_rejected() {
    let config = StatementConfig {
        create_table: None,
        joins: Some(vec!["id".to_string(), "k".to_string()]),
        selects: vec![select_config("a", &["id"]), select_config("b", &["id as id", "q"]), select_config("c", &["k"])],
        global_join_type: JoinType::Inner,
    };
    let st = Statement::try_from(config).unwrap();
    assert_eq!(st.validate(), Err(ConfigError::UnjoinableKey { index: 1 }));
}
