use samskara::clone_manager::{BtrfsCloneManager, CloneError, CloneManager, SandboxEnvironment};
use samskara::editor::refine_message_local_stub;
use std::path::{Path, PathBuf};

const TRAILER: &str = "\n\n## Prompt\n[SYTHESIZED BY SAṂSKĀRA]\n\n## Context\n[SYTHESIZED BY SAṂSKĀRA]\n\n## Summary\n[SYTHESIZED BY SAṂSKĀRA]";

#[test]
fn refine_strips_jj_lines_and_adds_sections() {
    assert_eq!(refine_message_local_stub("JJ: x\nhello\nJJ: y\n"), format!("hello{TRAILER}"));
    assert_eq!(refine_message_local_stub("  top\n JJ: kept\nJJ: gone\n\n"), format!("top\n JJ: kept{TRAILER}"));
    assert_eq!(refine_message_local_stub(""), TRAILER.to_string());
}

#[test]
fn refine_keeps_messages_with_a_prompt_section() {
    assert_eq!(refine_message_local_stub("## Prompt\nx\n"), "## Prompt\nx");
    assert_eq!(refine_message_local_stub("a ## Prompt b"), "a ## Prompt b");
    let once = refine_message_local_stub("msg");
    assert!(once.contains("## Prompt"));
}

#[test]
fn btrfs_clone_manager_reports_unsupported() {
    let m = BtrfsCloneManager;
    assert!(matches!(
        m.create_snapshot_clone(Path::new("/src"), Path::new("/dst")),
        Err(CloneError::FilesystemNotSupported)
    ));
    let env = SandboxEnvironment { path: PathBuf::from("/dst"), snapshot_id: "s1".to_string() };
    assert!(matches!(m.destroy_sandbox(&env), Err(CloneError::FilesystemNotSupported)));
}

#[test]
fn refining_twice_is_refining_once() {
    for input in [
        "JJ: note\n  subject line\n\nbody\nJJ: more\n",
        "fix: x\n## Prompt\ngiven\n",
        "\n\n  only one  \n\n",
    ] {
        let once = refine_message_local_stub(input);
        assert_eq!(refine_message_local_stub(&once), once);
        assert!(once.contains("## Prompt"));
    }
}
