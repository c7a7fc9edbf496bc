use samskara::boot::{
    columns_result_is_readable, create_script_from_columns, executable_statement,
    is_comment_only, recorded_in_world_schema, relation_dignity, relation_name, relation_origin,
    relations_rows, world_schema_put_script, SchemaError, ETERNAL_RELATIONS,
};
use samskara::json::{Json, JsonNumber};
use samskara::vcs::{
    columns_from_result, datavalue_to_cozo_literal, esc, has_phase_column, kv_clause, Error,
    SNAPSHOT_INTERVAL, VERSIONED_RELATIONS,
};

fn s(x: &str) -> Json {
    Json::Str(x.to_string())
}

fn obj(entries: Vec<(&str, Json)>) -> Json {
    Json::Object(entries.into_iter().map(|(k, v)| samskara::json::JsonEntry { key: k.to_string(), value: v }).collect())
}

fn num_int(i: i64) -> Json {
    Json::Number(JsonNumber { int: Some(i), float_text: format!("{}", i as f64) })
}

fn float(f: f64) -> Json {
    Json::Number(JsonNumber { int: None, float_text: f.to_string() })
}

#[test]
fn phase_relations_are_versioned() {
    for rel in ["thought", "agent", "agent_session", "repo", "repo_state", "principle", "Sign", "Planet", "Measure"] {
        assert!(has_phase_column(rel));
        assert!(VERSIONED_RELATIONS.contains(&rel));
    }
    assert!(!has_phase_column("Aspect"));
    assert!(!has_phase_column("thought_tag"));
    assert!(!has_phase_column(""));
    assert_eq!(VERSIONED_RELATIONS.len(), 20);
    assert_eq!(SNAPSHOT_INTERVAL, 10);
}

/// Reads back a backslash-escaped text.
fn unescape(t: &str) -> String {
    let mut out = String::new();
    let mut it = t.chars();
    while let Some(c) = it.next() {
        if c == '\\' {
            match it.next() {
                Some(d) => out.push(d),
                None => out.push(c),
            }
        } else {
            out.push(c);
        }
    }
    out
}

#[test]
fn esc_escapes_backslash_then_quote_and_reads_back() {
    assert_eq!(esc("a\"b\\"), "a\\\"b\\\\");
    for text in ["", "plain", "\\\"", "a\\\\\"b", "\"\"\\"] {
        assert_eq!(unescape(&esc(text)), text);
        assert_eq!(unescape(&samskara::rpc::escape_cozo(text)), text);
    }
}

#[test]
fn kv_clause_separates_keys_from_values() {
    let cols: Vec<String> = vec!["a".into(), "b".into(), "c".into()];
    assert_eq!(kv_clause(&cols, 1), "{a => b, c}");
    assert_eq!(kv_clause(&cols, 3), "{a, b, c}");
    assert_eq!(kv_clause(&cols, 0), "{ => a, b, c}");
    let empty_val: Vec<String> = vec!["a".into(), "".into()];
    assert_eq!(kv_clause(&empty_val, 1), "{a}");
}

#[test]
fn datavalue_literals() {
    assert_eq!(datavalue_to_cozo_literal(&obj(vec![("Str", s("x\"y\\"))])), "\"x\\\"y\\\\\"");
    assert_eq!(datavalue_to_cozo_literal(&obj(vec![("Bool", Json::Bool(true))])), "true");
    assert_eq!(datavalue_to_cozo_literal(&obj(vec![("Bool", Json::Bool(false))])), "false");
    assert_eq!(datavalue_to_cozo_literal(&obj(vec![("Num", obj(vec![("Int", num_int(-42))]))])), "-42");
    assert_eq!(datavalue_to_cozo_literal(&obj(vec![("Num", obj(vec![("Float", float(1.5))]))])), "1.5");
    assert_eq!(datavalue_to_cozo_literal(&obj(vec![("Num", obj(vec![("Int", num_int(i64::MIN))]))])), "-9223372036854775808");
    assert_eq!(datavalue_to_cozo_literal(&s("a")), "\"a\"");
    assert_eq!(datavalue_to_cozo_literal(&Json::Bool(false)), "false");
    assert_eq!(datavalue_to_cozo_literal(&num_int(7)), "7");
    assert_eq!(datavalue_to_cozo_literal(&float(2.25)), "2.25");
    assert_eq!(datavalue_to_cozo_literal(&Json::Null), "null");
    assert_eq!(datavalue_to_cozo_literal(&Json::Array(vec![s("a")])), "null");
    // A "Str" tag that does not hold a string falls through to the other cases.
    assert_eq!(datavalue_to_cozo_literal(&obj(vec![("Str", num_int(1))])), "null");
}

fn rows(r: Vec<Json>) -> Json {
    obj(vec![("headers", Json::Array(vec![])), ("rows", Json::Array(r))])
}

#[test]
fn columns_are_read_from_the_columns_result() {
    let result = rows(vec![
        Json::Array(vec![obj(vec![("Str", s("id"))]), obj(vec![("Bool", Json::Bool(true))])]),
        Json::Array(vec![s("name"), Json::Bool(false)]),
        Json::Array(vec![s("extra")]),
    ]);
    match columns_from_result("rel", &result) {
        Ok((names, keys)) => {
            assert_eq!(names, vec!["id".to_string(), "name".to_string(), "extra".to_string()]);
            assert_eq!(keys, 1);
        }
        Err(e) => panic!("unexpected {e:?}"),
    }
}

#[test]
fn columns_errors() {
    match columns_from_result("rel", &Json::Null) {
        Err(Error::Db { detail }) => assert_eq!(detail, "no columns for rel"),
        other => panic!("unexpected {other:?}"),
    }
    match columns_from_result("rel", &rows(vec![s("x")])) {
        Err(Error::Db { detail }) => assert_eq!(detail, "bad column row"),
        other => panic!("unexpected {other:?}"),
    }
    match columns_from_result("rel", &rows(vec![Json::Array(vec![])])) {
        Err(Error::Db { detail }) => assert_eq!(detail, "missing column name"),
        other => panic!("unexpected {other:?}"),
    }
}

#[test]
fn comment_only_statements() {
    assert!(is_comment_only("# a\n\n//\n  # b"));
    assert!(is_comment_only(""));
    assert!(!is_comment_only("# a\n?[x] <- [[1]]"));
    assert!(!is_comment_only("///"));
    assert_eq!(executable_statement("  \n# c\n"), None);
    assert_eq!(executable_statement("   "), None);
    assert_eq!(executable_statement("  ?[a] <- [[1]]  \n"), Some("?[a] <- [[1]]".to_string()));
}

fn column(name: &str, key: bool, ty: &str) -> Json {
    Json::Array(vec![s(name), Json::Bool(key), num_int(0), s(ty)])
}

#[test]
fn create_script_is_rebuilt_from_columns() {
    let result = rows(vec![column("id", true, "String"), column("v", false, "Int"), column("w", false, "Float")]);
    assert!(columns_result_is_readable(&result));
    assert_eq!(create_script_from_columns("rel", &result), Ok(":create rel { id: String => v: Int, w: Float }".to_string()));
    let keys_only = rows(vec![column("a", true, "String"), column("b", true, "Int")]);
    assert_eq!(create_script_from_columns("k", &keys_only), Ok(":create k { a: String, b: Int }".to_string()));
}

#[test]
fn create_script_errors() {
    assert_eq!(create_script_from_columns("r", &Json::Null), Err(SchemaError::NoColumnsRows));
    assert_eq!(create_script_from_columns("r", &rows(vec![s("x")])), Err(SchemaError::BadColumnRow));
    assert_eq!(create_script_from_columns("r", &rows(vec![Json::Array(vec![num_int(1)])])), Err(SchemaError::NoColumnName));
    assert_eq!(
        create_script_from_columns("r", &rows(vec![Json::Array(vec![s("a"), Json::Bool(true), num_int(0), num_int(1)])])),
        Err(SchemaError::NoColumnType)
    );
    assert_eq!(SchemaError::NoColumnType.message(), "no column type");
    assert_eq!(SchemaError::NoRelationsRows.message(), "no relations rows");
    // A row with a name but fewer than four cells cannot be read.
    assert!(!columns_result_is_readable(&rows(vec![Json::Array(vec![s("a"), Json::Bool(true)])])));
    assert!(!columns_result_is_readable(&rows(vec![Json::Array(vec![])])));
    // Reading stops at the first bad row, so what follows it is never read.
    assert!(columns_result_is_readable(&rows(vec![s("x"), Json::Array(vec![])])));
}

#[test]
fn world_schema_records() {
    assert_eq!(relation_dignity("Sign"), "eternal");
    assert_eq!(relation_dignity("thought"), "proven");
    assert_eq!(relation_origin("eval_request"), "contract");
    assert_eq!(relation_origin("thought"), "genesis");
    assert!(!recorded_in_world_schema("world_schema"));
    assert!(recorded_in_world_schema("thought"));
    assert_eq!(ETERNAL_RELATIONS.len(), 9);
    assert_eq!(
        world_schema_put_script("Sign", ":create Sign { n: String }"),
        "?[relation_name, create_script, origin, phase, dignity] <- [[\n                \"Sign\", \":create Sign { n: String }\", \"genesis\", \"manifest\", \"eternal\"\n            ]]\n            :put world_schema { relation_name => create_script, origin, phase, dignity }"
    );
    assert_eq!(
        world_schema_put_script("a\"b", "x\\"),
        "?[relation_name, create_script, origin, phase, dignity] <- [[\n                \"a\\\"b\", \"x\\\\\", \"genesis\", \"manifest\", \"proven\"\n            ]]\n            :put world_schema { relation_name => create_script, origin, phase, dignity }"
    );
}

#[test]
fn relation_rows_and_names() {
    let result = rows(vec![Json::Array(vec![s("thought")]), Json::Array(vec![obj(vec![("Str", s("agent"))])]), num_int(3)]);
    let rs = relations_rows(&result).expect("rows");
    assert_eq!(rs.len(), 3);
    assert_eq!(relation_name(&rs[0]), Ok("thought".to_string()));
    assert_eq!(relation_name(&rs[1]), Ok("agent".to_string()));
    assert_eq!(relation_name(&rs[2]), Err(SchemaError::NoRelationName));
    assert!(relations_rows(&Json::Null).is_err());
}

#[test]
fn comment_only_holds_of_a_join_exactly_when_of_both_parts() {
    let parts = ["# a", "", "//", "  # b\r", ":create x {}", "x\n# y"];
    for a in parts {
        for b in parts {
            assert_eq!(
                is_comment_only(&format!("{a}\n{b}")),
                is_comment_only(a) && is_comment_only(b),
                "{a:?} {b:?}"
            );
        }
    }
}
