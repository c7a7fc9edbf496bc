use samskara::jj_mirror::{
    commit_script, commit_type_vocab_scripts, diff_script, parse_commit_log, parse_diff,
    commit_log_is_parsable, decode_output, CommitType, JjCommit, JjDiff, OutputError,
};

#[test]
fn commit_type_infer_intent() {
    assert_eq!(CommitType::infer("intent: add new feature"), CommitType::Intent);
}

#[test]
fn commit_type_infer_session() {
    assert_eq!(CommitType::infer("session: finalize prompt work"), CommitType::Session);
}

#[test]
fn commit_type_infer_fix() {
    assert_eq!(CommitType::infer("fix: resolve compile error"), CommitType::Fix);
}

#[test]
fn commit_type_infer_default_draft() {
    assert_eq!(CommitType::infer("some random commit message"), CommitType::Draft);
}

#[test]
fn commit_type_roundtrip() {
    for name in CommitType::all() {
        let ct = CommitType::from_str(name).expect(&format!("{name} should parse"));
        assert_eq!(ct.as_str(), *name);
    }
}

#[test]
fn commit_type_all_lists_twelve_distinct_names() {
    let all = CommitType::all();
    assert_eq!(all.len(), 12);
    for (i, a) in all.iter().enumerate() {
        for (j, b) in all.iter().enumerate() {
            if i != j {
                assert_ne!(a, b);
            }
        }
    }
    assert_eq!(all[0], "draft");
    assert_eq!(all[11], "merge");
}

#[test]
fn commit_type_from_str_rejects_unknown_names() {
    assert_eq!(CommitType::from_str("Draft"), None);
    assert_eq!(CommitType::from_str(""), None);
    assert_eq!(CommitType::from_str("fixes"), None);
    assert_eq!(CommitType::from_str("implementation"), Some(CommitType::Implementation));
}

#[test]
fn commit_type_infer_prefixes() {
    assert_eq!(CommitType::infer("  FIX(parser): x"), CommitType::Fix);
    assert_eq!(CommitType::infer("Plan: roadmap"), CommitType::Plan);
    assert_eq!(CommitType::infer("review: ok"), CommitType::Review);
    assert_eq!(CommitType::infer("test: more"), CommitType::Testing);
    assert_eq!(CommitType::infer("Testing: more"), CommitType::Testing);
    assert_eq!(CommitType::infer("refactor: split"), CommitType::Refactor);
    assert_eq!(CommitType::infer("release v1"), CommitType::Release);
    assert_eq!(CommitType::infer("release:"), CommitType::Release);
    assert_eq!(CommitType::infer("Merge branch 'x'"), CommitType::Merge);
    assert_eq!(CommitType::infer("mergers"), CommitType::Merge);
    assert_eq!(CommitType::infer("propose: idea"), CommitType::Proposal);
    assert_eq!(CommitType::infer("proposal: idea"), CommitType::Proposal);
    assert_eq!(CommitType::infer("impl: thing"), CommitType::Implementation);
    assert_eq!(CommitType::infer("implement: thing"), CommitType::Implementation);
    // "implementation:" is none of the prefixes: neither "impl:" nor "implement:".
    assert_eq!(CommitType::infer("implementation: thing"), CommitType::Draft);
    // Trimming happens before the prefix test: "release " loses its space.
    assert_eq!(CommitType::infer("release "), CommitType::Draft);
    assert_eq!(CommitType::infer("\u{3000}intent: wide space"), CommitType::Intent);
    assert_eq!(CommitType::infer(""), CommitType::Draft);
}

#[test]
fn commit_log_parses_lines_into_commits() {
    let out = "ch1|co1|p1|a@x.com|2024-01-01T00:00:00Z|fix: bug|fix: bug  extra text \n\
               \n\
               ch2|co2||b@x.com|ts2|intent: x\n\
               only|five|fields|here|x\n\
               more detail\n";
    assert!(commit_log_is_parsable(out));
    let commits = parse_commit_log(out);
    assert_eq!(commits.len(), 2);
    let c = &commits[0];
    assert_eq!(c.change_id, "ch1");
    assert_eq!(c.commit_id, "co1");
    assert_eq!(c.parent_change_id, "p1");
    assert_eq!(c.author, "a@x.com");
    assert_eq!(c.ts, "2024-01-01T00:00:00Z");
    assert_eq!(c.commit_type, CommitType::Fix);
    assert_eq!(c.title, "fix: bug");
    assert_eq!(c.body, "extra text");
    let d = &commits[1];
    assert_eq!(d.change_id, "ch2");
    assert_eq!(d.parent_change_id, "");
    assert_eq!(d.commit_type, CommitType::Intent);
    assert_eq!(d.title, "intent: x");
    assert_eq!(d.body, "");
}

#[test]
fn commit_log_keeps_pipes_in_the_full_description() {
    let out = "a|b|c|d|e|plan: x|plan: x | y | z";
    let commits = parse_commit_log(out);
    assert_eq!(commits.len(), 1);
    assert_eq!(commits[0].title, "plan: x");
    assert_eq!(commits[0].body, "| y | z");
    assert_eq!(commits[0].commit_type, CommitType::Plan);
}

#[test]
fn commit_log_body_is_cut_by_bytes() {
    // The title "é" takes two bytes, so the body starts after the first two
    // bytes of the full description.
    let out = "a|b|c|d|e|é|ab rest";
    let commits = parse_commit_log(out);
    assert_eq!(commits[0].body, "rest");
    // Cutting "ée" after one byte would split a character.
    assert!(!commit_log_is_parsable("a|b|c|d|e|x|éé"));
}

#[test]
fn commit_log_empty_output_has_no_commits() {
    assert!(parse_commit_log("").is_empty());
    assert!(parse_commit_log("\n\n   \n").is_empty());
}

#[test]
fn diff_output_splits_into_file_sections() {
    let out = "diff --git a/src/a.rs b/src/a.rs\nindex 1..2\n--- a/src/a.rs\n+++ b/src/a.rs\ndiff --git a/b.txt b/b.txt\n+x\n";
    let diffs = parse_diff("chg", out);
    assert_eq!(diffs.len(), 2);
    assert_eq!(diffs[0].change_id, "chg");
    assert_eq!(diffs[0].file_path, "src/a.rs");
    assert_eq!(
        diffs[0].diff_content,
        "diff --git a/src/a.rs b/src/a.rs\nindex 1..2\n--- a/src/a.rs\n+++ b/src/a.rs\n"
    );
    assert_eq!(diffs[1].file_path, "b.txt");
    assert_eq!(diffs[1].diff_content, "diff --git a/b.txt b/b.txt\n+x\n");
}

#[test]
fn diff_output_drops_text_before_the_first_header_and_unnamed_sections() {
    let out = "preamble\ndiff --git x y\n+lost\ndiff --git a/p b/p\r\n+kept";
    let diffs = parse_diff("c", out);
    assert_eq!(diffs.len(), 1);
    assert_eq!(diffs[0].file_path, "p");
    assert_eq!(diffs[0].diff_content, "diff --git a/p b/p\n+kept\n");
    assert!(parse_diff("c", "").is_empty());
}

#[test]
fn diff_path_without_b_part_keeps_the_rest() {
    let diffs = parse_diff("c", "diff --git a/only-a\n");
    assert_eq!(diffs[0].file_path, "only-a");
}

#[test]
fn commit_script_escapes_title_and_body() {
    let commit = JjCommit {
        change_id: "ch".to_string(),
        commit_id: "co".to_string(),
        parent_change_id: "p".to_string(),
        author: "me".to_string(),
        ts: "t".to_string(),
        commit_type: CommitType::Review,
        title: "say \"hi\"".to_string(),
        body: "a\\b".to_string(),
    };
    let expected = "?[change_id, commit_id, parent_change_id, author, ts, commit_type, title, body, live] <- [[\n            \"ch\", \"co\", \"p\", \"me\", \"t\", \"review\", \"say \\\"hi\\\"\", \"a\\\\b\", true\n        ]]\n        :put commit { change_id => commit_id, parent_change_id, author, ts, commit_type, title, body, live }";
    assert_eq!(commit_script(&commit), expected);
}

#[test]
fn diff_script_counts_bytes() {
    let diff = JjDiff {
        change_id: "c".to_string(),
        file_path: "f".to_string(),
        diff_content: "é\"".to_string(),
    };
    let expected = "?[change_id, file_path, diff_content, diff_bytes] <- [[\n            \"c\", \"f\", \"é\\\"\", 3\n        ]]\n        :put commit_diff { change_id, file_path => diff_content, diff_bytes }";
    assert_eq!(diff_script(&diff), expected);
}

#[test]
fn vocab_scripts_cover_every_type() {
    let scripts = commit_type_vocab_scripts();
    assert_eq!(scripts.len(), 12);
    assert_eq!(
        scripts[0],
        "?[name, description] <- [[\"draft\",\"Incomplete or exploratory change\"]]\n               :put commit_type_vocab { name => description }"
    );
    assert_eq!(
        scripts[11],
        "?[name, description] <- [[\"merge\",\"Branch merge or integration\"]]\n               :put commit_type_vocab { name => description }"
    );
    for (s, name) in scripts.iter().zip(CommitType::all().iter()) {
        assert!(s.contains(&format!("[[\"{name}\",")));
    }
}

#[test]
fn every_parsed_diff_is_a_named_section() {
    let out = "junk\ndiff --git a/x b/x\n+1\ndiff --git c d\n+2\ndiff --git a/y b/y\n";
    let diffs = parse_diff("id", out);
    assert_eq!(diffs.len(), 2);
    for d in &diffs {
        assert_eq!(d.change_id, "id");
        assert!(!d.file_path.is_empty());
        assert!(d.diff_content.starts_with("diff --git "));
    }
}

#[test]
fn every_parsed_commit_type_comes_from_its_title() {
    let out = "a|b|c|d|e|Refactor: tidy|x\nf|g|h|i|j|whatever|y\n";
    for c in parse_commit_log(out) {
        assert_eq!(c.commit_type, CommitType::infer(&c.title));
    }
}

#[test]
fn output_bytes_decode_as_utf8() {
    assert_eq!(decode_output("é|x".as_bytes().to_vec()), Ok("é|x".to_string()));
    assert_eq!(decode_output(vec![0x66, 0xc3]), Err(OutputError::InvalidUtf8));
    assert_eq!(decode_output(vec![]), Ok(String::new()));
}

#[test]
fn stored_text_doubles_backslashes_before_escaping_quotes() {
    let commit = JjCommit {
        change_id: "ch".to_string(),
        commit_id: "co".to_string(),
        parent_change_id: "p".to_string(),
        author: "me".to_string(),
        ts: "t".to_string(),
        commit_type: CommitType::Fix,
        title: "a\\\"b".to_string(),
        body: "\\".to_string(),
    };
    let script = commit_script(&commit);
    assert!(script.contains(r#""fix", "a\\\"b", "\\", true"#));
    let diff = JjDiff {
        change_id: "c".to_string(),
        file_path: "f".to_string(),
        diff_content: "x\\\"".to_string(),
    };
    assert!(diff_script(&diff).contains(r#""f", "x\\\"", 3"#));
}

#[test]
fn inferring_ignores_ascii_case_and_leading_whitespace() {
    for d in ["fix: x", "Merge branch", "release 1.0", "plan: y", "nothing here", "impl: z"] {
        let t = CommitType::infer(d);
        assert_eq!(CommitType::infer(&d.to_ascii_uppercase()), t);
        assert_eq!(CommitType::infer(&format!(" \t{d}")), t);
    }
}
