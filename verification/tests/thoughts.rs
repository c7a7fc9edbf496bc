use samskara::mcp::{
    assert_thought_step, ThoughtStep,
    assert_join_failure_reply, assert_thought_message, assert_thought_scripts, default_dignity,
    default_phase, error_reply, query_join_failure_reply, query_thoughts_script, title_hash,
    AssertThoughtParams, QueryThoughtsParams,
};
use samskara::rpc::{
    assert_thought_insert, bytes_to_str, describe_relation_script, escape_cozo,
    query_thoughts_script as rpc_query_thoughts_script,
};

fn params(tags: Vec<String>) -> AssertThoughtParams {
    AssertThoughtParams {
        kind: "project".to_string(),
        scope: "global".to_string(),
        status: "draft".to_string(),
        title: "A \"quoted\" title".to_string(),
        body: "body".to_string(),
        phase: default_phase(),
        dignity: default_dignity(),
        tags,
    }
}

#[test]
fn defaults_are_becoming_and_seen() {
    assert_eq!(default_phase(), "becoming");
    assert_eq!(default_dignity(), "seen");
}

#[test]
fn title_hash_is_the_blake3_hex_prefix() {
    let h = title_hash("hello");
    let full = blake3::hash(b"hello").to_hex().to_string();
    assert_eq!(h, full[..16]);
    assert_eq!(h.len(), 16);
    // BLAKE3 of the empty input.
    assert_eq!(title_hash(""), "af1349b9f5f9a1a6");
}

#[test]
fn assert_thought_scripts_store_thought_then_tags() {
    let p = params(vec!["t1".to_string(), "x\"y".to_string()]);
    let scripts = assert_thought_scripts(&p, "2026-01-01T00:00:00Z");
    assert_eq!(scripts.len(), 3);
    let h = title_hash(&p.title);
    let expected = format!(
        "?[kind, scope, title_hash, status, title, body, created_ts, updated_ts, phase, dignity] <- [[\n                    \"project\", \"global\", \"{h}\", \"draft\", \"A \\\"quoted\\\" title\", \"body\", \"2026-01-01T00:00:00Z\", \"2026-01-01T00:00:00Z\", \"becoming\", \"seen\"\n                ]]\n                :put thought {{ kind, scope, title_hash => status, title, body, created_ts, updated_ts, phase, dignity }}"
    );
    assert_eq!(scripts[0], expected);
    assert_eq!(
        scripts[1],
        format!("?[kind, scope, title_hash, tag] <- [[\"project\",\"global\",\"{h}\",\"t1\"]]\n                    :put thought_tag {{ kind, scope, title_hash, tag }}")
    );
    assert_eq!(
        scripts[2],
        format!("?[kind, scope, title_hash, tag] <- [[\"project\",\"global\",\"{h}\",\"x\\\"y\"]]\n                    :put thought_tag {{ kind, scope, title_hash, tag }}")
    );
}

#[test]
fn assert_thought_replies() {
    let p = params(vec![]);
    assert_eq!(
        assert_thought_message(&p),
        "Thought 'A \"quoted\" title' asserted with phase 'becoming', dignity 'seen'"
    );
    assert_eq!(error_reply("boom"), "error: boom");
    assert_eq!(assert_join_failure_reply("x"), "{\"error\": \"task join failed: x\"}");
    assert_eq!(query_join_failure_reply("x"), "error: task join failed: x");
}

#[test]
fn query_thoughts_without_filters_excludes_retired() {
    let q = query_thoughts_script(&QueryThoughtsParams { kind: None, scope: None, tag: None, phase: None });
    assert_eq!(
        q,
        "?[kind, scope, status, title, body, phase, dignity] := *thought{kind, scope, title_hash: _, status, title, body, phase, dignity}, phase != \"retired\""
    );
}

#[test]
fn query_thoughts_with_filters_and_tag() {
    let q = query_thoughts_script(&QueryThoughtsParams {
        kind: Some("user".to_string()),
        scope: Some("re\"po".to_string()),
        tag: Some("x".to_string()),
        phase: Some("manifest".to_string()),
    });
    assert_eq!(
        q,
        "?[kind, scope, status, title, body, phase, dignity] := *thought{kind, scope, title_hash, status, title, body, phase, dignity}, *thought_tag{kind, scope, title_hash, tag: \"x\"}, phase == \"manifest\", kind = \"user\", scope = \"re\\\"po\""
    );
    assert!(!q.contains("phase != \"retired\""));
}

#[test]
fn query_thoughts_by_phase_filters_that_phase() {
    let q = query_thoughts_script(&QueryThoughtsParams {
        kind: None,
        scope: None,
        tag: None,
        phase: Some("retired".to_string()),
    });
    assert_eq!(
        q,
        "?[kind, scope, status, title, body, phase, dignity] := *thought{kind, scope, title_hash: _, status, title, body, phase, dignity}, phase == \"retired\""
    );
    let none = query_thoughts_script(&QueryThoughtsParams { kind: None, scope: None, tag: None, phase: None });
    let manifest = query_thoughts_script(&QueryThoughtsParams {
        kind: None,
        scope: None,
        tag: None,
        phase: Some("manifest".to_string()),
    });
    assert_ne!(none, manifest);
    assert!(manifest.ends_with("phase == \"manifest\""));
}

#[test]
fn bytes_read_as_utf8_or_empty() {
    assert_eq!(bytes_to_str(b"abc"), "abc");
    assert_eq!(bytes_to_str("é".as_bytes()), "é");
    assert_eq!(bytes_to_str(&[0xff, 0x61]), "");
    assert_eq!(bytes_to_str(&[]), "");
}

#[test]
fn escape_cozo_doubles_backslashes_then_escapes_quotes() {
    assert_eq!(escape_cozo("a'b\\c"), "a\\'b\\\\c");
    assert_eq!(escape_cozo("plain"), "plain");
    assert_eq!(escape_cozo("\\'"), "\\\\\\'");
}

#[test]
fn rpc_describe_relation_query() {
    assert_eq!(describe_relation_script("thought"), "::columns thought");
}

#[test]
fn rpc_assert_thought_uses_full_hash() {
    let ins = assert_thought_insert("k", "s", "st", "it's", "b\\");
    let h = blake3::hash("it's".as_bytes()).to_hex().to_string();
    assert_eq!(ins.title_hash, h);
    assert_eq!(ins.title_hash.len(), 64);
    assert_eq!(
        ins.script,
        format!("?[kind, scope, title_hash, status, title, body, created_ts, updated_ts, phase, dignity] <- [['k', 's', '{h}', 'st', 'it\\'s', 'b\\\\', '', '', 'becoming', 'seen']] :put thought {{ kind, scope, title_hash => status, title, body, created_ts, updated_ts, phase, dignity }}")
    );
}

#[test]
fn rpc_query_thoughts_builds_conditions() {
    let base = "?[kind, scope, title, body, phase, dignity] := *thought{kind, scope, title_hash, status, title, body, created_ts, updated_ts, phase, dignity}, ";
    assert_eq!(rpc_query_thoughts_script("", "", "", ""), format!("{base}phase != 'retired'"));
    assert_eq!(
        rpc_query_thoughts_script("k", "", "", "p'"),
        format!("{base}phase != 'retired', kind == 'k', phase == 'p\\''")
    );
    assert_eq!(
        rpc_query_thoughts_script("", "s", "t", ""),
        "?[kind, scope, title, body, phase, dignity] := *thought{kind, scope, title_hash, status, title, body, created_ts, updated_ts, phase, dignity}, *thought_tag{kind, scope, title_hash, tag}, tag == 't', phase != 'retired', scope == 's'"
    );
}

/// Reads back a backslash-escaped text.
fn unescape(t: &str) -> String {
    let mut out = String::new();
    let mut it = t.chars();
    while let Some(c) = it.next() {
        if c == '\\' {
            match it.next() {
                Some(d) => out.push(d),
                None => out.push(c),
            }
        } else {
            out.push(c);
        }
    }
    out
}

#[test]
fn quote_escaping_reads_back_without_backslashes() {
    let p = QueryThoughtsParams { kind: Some("a\"b".to_string()), scope: None, tag: None, phase: None };
    let q = query_thoughts_script(&p);
    let inner = q.split("kind = \"").nth(1).unwrap();
    let inner = &inner[..inner.len() - 1];
    assert_eq!(unescape(inner), "a\"b");
}

#[test]
fn rpc_queries_always_exclude_retired() {
    for (k, s, t, p) in [("", "", "", ""), ("k", "s", "t", "retired")] {
        assert!(rpc_query_thoughts_script(k, s, t, p).contains("phase != 'retired'"));
    }
}

#[test]
fn assert_thought_runs_scripts_in_order_and_stops_at_a_failure() {
    let p = params(vec!["a".to_string()]);
    assert!(matches!(assert_thought_step(&p, 2, 0, None), ThoughtStep::RunScript(0)));
    assert!(matches!(assert_thought_step(&p, 2, 1, None), ThoughtStep::RunScript(1)));
    match assert_thought_step(&p, 2, 2, None) {
        ThoughtStep::Reply(m) => assert_eq!(m, assert_thought_message(&p)),
        other => panic!("{other:?}"),
    }
    match assert_thought_step(&p, 2, 1, Some("boom")) {
        ThoughtStep::Reply(m) => assert_eq!(m, "error: boom"),
        other => panic!("{other:?}"),
    }
}
