use dsvn::hooks::{hook_outcome, settle_hook, HookManager};

#[test]
fn hook_inputs_are_key_value_lines() {
    let files = vec![("add".to_string(), "/a.txt".to_string()), ("delete".to_string(), "/b".to_string())];
    assert_eq!(
        HookManager::pre_commit_input(3, "alice", "msg", "2024-01-01T00:00:00Z", &files),
        "REVISION: 3\nAUTHOR: alice\nDATE: 2024-01-01T00:00:00Z\nLOG: msg\nFILES:\nadd /a.txt\ndelete /b\n"
    );
    assert_eq!(
        HookManager::post_commit_input(4, "bob", "m", "d"),
        "REVISION: 4\nAUTHOR: bob\nDATE: d\nLOG: m\n"
    );
    assert_eq!(
        HookManager::pre_revprop_change_input(5, "carol", "svn:log", "M", "new"),
        "REVISION: 5\nAUTHOR: carol\nPROPNAME: svn:log\nACTION: M\nVALUE: new\n"
    );
    assert_eq!(
        HookManager::post_revprop_change_input(5, "carol", "svn:log", "M"),
        "REVISION: 5\nAUTHOR: carol\nPROPNAME: svn:log\nACTION: M\n"
    );
}

#[test]
fn hook_scripts_live_under_hooks() {
    let m = HookManager::new("/repo".to_string());
    assert_eq!(m.hooks_dir, "/repo/hooks");
    assert_eq!(m.hook_path("pre-commit"), "/repo/hooks/pre-commit");
}

#[test]
fn hook_outcome_prefers_stderr_then_stdout_then_code() {
    assert_eq!(hook_outcome("pre-commit", true, Some(0), "", ""), Ok(()));
    assert_eq!(
        hook_outcome("pre-commit", false, Some(1), "out", "  denied \n"),
        Err("Hook 'pre-commit' rejected the operation: denied".to_string())
    );
    assert_eq!(
        hook_outcome("pre-commit", false, Some(1), "out\n", ""),
        Err("Hook 'pre-commit' rejected the operation: out".to_string())
    );
    assert_eq!(
        hook_outcome("pre-commit", false, None, "", ""),
        Err("Hook 'pre-commit' rejected the operation: Hook 'pre-commit' exited with code -1".to_string())
    );
}

#[test]
fn missing_hook_allows_the_operation() {
    assert_eq!(settle_hook("pre-commit", None), (Ok(()), None));
}

#[test]
fn pre_hook_failure_stands() {
    assert_eq!(
        settle_hook("pre-commit", Some(Err("no".to_string()))),
        (Err("no".to_string()), None)
    );
    assert_eq!(settle_hook("pre-revprop-change", Some(Ok(()))), (Ok(()), None));
}

#[test]
fn post_hook_failure_is_only_reported() {
    assert_eq!(
        settle_hook("post-commit", Some(Err("boom".to_string()))),
        (Ok(()), Some("post-commit hook error (ignored): boom".to_string()))
    );
    assert_eq!(
        settle_hook("post-revprop-change", Some(Err("x".to_string()))),
        (Ok(()), Some("post-revprop-change hook error (ignored): x".to_string()))
    );
}
