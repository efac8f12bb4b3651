use cmd_guard::{
    evaluate_command, evaluate_command_at_depth, process_segment_at_depth, split_segments,
    strip_docker_flags, strip_git_flags, tokenize, MAX_SHELL_DEPTH,
};


#[test]
fn test_split_segments() {
    let segs = split_segments("git add . && git commit -m 'hello world'");
    assert_eq!(segs, vec!["git add .", "git commit -m 'hello world'"]);

    let segs = split_segments("git status; git push");
    assert_eq!(segs, vec!["git status", "git push"]);

    let segs = split_segments("echo foo | grep bar");
    assert_eq!(segs, vec!["echo foo", "grep bar"]);
}

#[test]
fn test_split_segments_background_operator() {
    // Single & (background operator) should be treated as a separator
    let segs = split_segments("git status & git push --force");
    assert_eq!(segs, vec!["git status", "git push --force"]);

    // Make sure && still works
    let segs = split_segments("git status && git push --force");
    assert_eq!(segs, vec!["git status", "git push --force"]);
}

#[test]
fn test_tokenize() {
    assert_eq!(
        tokenize("git commit -m 'hello world'"),
        vec!["git", "commit", "-m", "hello world"]
    );
    assert_eq!(
        tokenize(r#"git commit -m "hello world""#),
        vec!["git", "commit", "-m", "hello world"]
    );
}

#[test]
fn test_strip_git_flags() {
    let tokens: Vec<String> = vec!["git", "-C", "/tmp", "reset", "--hard"]
        .into_iter()
        .map(String::from)
        .collect();
    let stripped = strip_git_flags(&tokens);
    assert_eq!(stripped, vec!["git", "reset", "--hard"]);

    let tokens: Vec<String> = vec!["git", "--git-dir=/foo", "push", "--force"]
        .into_iter()
        .map(String::from)
        .collect();
    let stripped = strip_git_flags(&tokens);
    assert_eq!(stripped, vec!["git", "push", "--force"]);

    // --work-tree with = form
    let tokens: Vec<String> = vec!["git", "--work-tree=/foo", "push", "--force"]
        .into_iter()
        .map(String::from)
        .collect();
    let stripped = strip_git_flags(&tokens);
    assert_eq!(stripped, vec!["git", "push", "--force"]);

    // --work-tree with space-separated argument
    let tokens: Vec<String> = vec!["git", "--work-tree", "/foo", "push", "--force"]
        .into_iter()
        .map(String::from)
        .collect();
    let stripped = strip_git_flags(&tokens);
    assert_eq!(stripped, vec!["git", "push", "--force"]);

    // -c after subcommand is preserved (subcommand-level flag, not global)
    let tokens: Vec<String> = vec!["git", "commit", "-c", "HEAD"]
        .into_iter()
        .map(String::from)
        .collect();
    let stripped = strip_git_flags(&tokens);
    assert_eq!(stripped, vec!["git", "commit", "-c", "HEAD"]);

    // -c before subcommand is still stripped (global flag)
    let tokens: Vec<String> = vec!["git", "-c", "push.default=current", "push", "--force"]
        .into_iter()
        .map(String::from)
        .collect();
    let stripped = strip_git_flags(&tokens);
    assert_eq!(stripped, vec!["git", "push", "--force"]);
}

#[test]
fn test_deny_git_add_all() {
    assert!(matches!(
        process_segment_at_depth("git add -A", 0),
        Some(("deny", _))
    ));
    assert!(matches!(
        process_segment_at_depth("git add --all", 0),
        Some(("deny", _))
    ));
}

#[test]
fn test_ask_git_add_dot() {
    assert!(matches!(
        process_segment_at_depth("git add .", 0),
        Some(("ask", _))
    ));
    // ./ variant also caught
    assert!(matches!(
        process_segment_at_depth("git add ./", 0),
        Some(("ask", _))
    ));
    // Specific file path still passes through
    assert!(process_segment_at_depth("git add file.rs", 0).is_none());
    assert!(process_segment_at_depth("git add src/main.rs", 0).is_none());
}

#[test]
fn test_deny_force_push() {
    assert!(matches!(
        process_segment_at_depth("git push --force", 0),
        Some(("deny", _))
    ));
    assert!(matches!(
        process_segment_at_depth("git push -f origin main", 0),
        Some(("deny", _))
    ));
}

#[test]
fn test_deny_force_push_with_lease() {
    assert!(matches!(
        process_segment_at_depth("git push --force-with-lease", 0),
        Some(("deny", _))
    ));
    assert!(matches!(
        process_segment_at_depth("git push --force-with-lease=origin/main", 0),
        Some(("deny", _))
    ));
}

#[test]
fn test_deny_push_mirror() {
    assert!(matches!(
        process_segment_at_depth("git push --mirror", 0),
        Some(("deny", _))
    ));
    assert!(matches!(
        process_segment_at_depth("git push --mirror origin", 0),
        Some(("deny", _))
    ));
}

#[test]
fn test_deny_stash_clear() {
    assert!(matches!(
        process_segment_at_depth("git stash clear", 0),
        Some(("deny", _))
    ));
}

#[test]
fn test_ask_push() {
    assert!(matches!(
        process_segment_at_depth("git push", 0),
        Some(("ask", _))
    ));
    assert!(matches!(
        process_segment_at_depth("git push origin main", 0),
        Some(("ask", _))
    ));
}

#[test]
fn test_ask_push_delete() {
    // --delete and -d should produce a specific "delete remote ref" message
    let result = process_segment_at_depth("git push --delete origin feature", 0);
    assert!(matches!(result, Some(("ask", ref r)) if r.contains("delete remote ref")));
    let result = process_segment_at_depth("git push -d origin feature", 0);
    assert!(matches!(result, Some(("ask", ref r)) if r.contains("delete remote ref")));
    // Plain push should NOT get the delete message
    let result = process_segment_at_depth("git push origin main", 0);
    assert!(matches!(result, Some(("ask", ref r)) if !r.contains("delete")));
}

#[test]
fn test_ask_reset_hard() {
    assert!(matches!(
        process_segment_at_depth("git reset --hard HEAD~1", 0),
        Some(("ask", _))
    ));
}

#[test]
fn test_ask_clean() {
    assert!(matches!(
        process_segment_at_depth("git clean -f", 0),
        Some(("ask", _))
    ));
}

#[test]
fn test_ask_checkout_dot() {
    assert!(matches!(
        process_segment_at_depth("git checkout .", 0),
        Some(("ask", _))
    ));
}

#[test]
fn test_ask_checkout_force() {
    assert!(matches!(
        process_segment_at_depth("git checkout -f HEAD~1", 0),
        Some(("ask", _))
    ));
    assert!(matches!(
        process_segment_at_depth("git checkout --force main", 0),
        Some(("ask", _))
    ));
    // Safe checkout passes through
    assert!(process_segment_at_depth("git checkout main", 0).is_none());
}

#[test]
fn test_ask_restore_dot() {
    assert!(matches!(
        process_segment_at_depth("git restore .", 0),
        Some(("ask", _))
    ));
    // --staged only unstages — non-destructive, should pass through
    assert!(process_segment_at_depth("git restore --staged .", 0).is_none());
    // --staged --worktree restores both — destructive
    assert!(matches!(
        process_segment_at_depth("git restore --staged --worktree .", 0),
        Some(("ask", _))
    ));
}

#[test]
fn test_ask_branch_delete() {
    assert!(matches!(
        process_segment_at_depth("git branch -D feature", 0),
        Some(("ask", _))
    ));
}

#[test]
fn test_bypass_via_c_flag() {
    assert!(matches!(
        process_segment_at_depth("git -C /tmp push --force", 0),
        Some(("deny", _))
    ));
    assert!(matches!(
        process_segment_at_depth("git -C /tmp reset --hard", 0),
        Some(("ask", _))
    ));
}

#[test]
fn test_bypass_via_c_config_flag() {
    assert!(matches!(
        process_segment_at_depth("git -c push.default=current push --force", 0),
        Some(("deny", _))
    ));
}

#[test]
fn test_shell_wrapper_unwrap() {
    assert!(matches!(
        process_segment_at_depth("bash -c 'git push --force'", 0),
        Some(("deny", _))
    ));
}

#[test]
fn test_shell_wrapper_compound() {
    // Compound command inside shell wrapper: inner && is re-split
    assert!(matches!(
        process_segment_at_depth("bash -c 'git status && git push --force'", 0),
        Some(("deny", _))
    ));
    // Ask verdict from inner compound
    assert!(matches!(
        process_segment_at_depth("sh -c 'git status && git push origin main'", 0),
        Some(("ask", _))
    ));
    // Safe inner compound passes through
    assert!(process_segment_at_depth("bash -c 'git status && git diff'", 0).is_none());
}

#[test]
fn test_shell_wrapper_non_git() {
    assert!(matches!(
        process_segment_at_depth("bash -c 'rm -rf /'", 0),
        Some(("deny", _))
    ));
}

#[test]
fn test_shell_wrapper_absolute_path() {
    assert!(matches!(
        process_segment_at_depth("/bin/bash -c 'git push --force'", 0),
        Some(("deny", _))
    ));
    assert!(matches!(
        process_segment_at_depth("/usr/bin/sh -c 'rm -rf /'", 0),
        Some(("deny", _))
    ));
    assert!(!process_segment_at_depth("/bin/bash -c 'git status'", 0).is_some());
}

#[test]
fn test_shell_wrapper_nested() {
    // Nested shell wrappers are handled recursively
    assert!(matches!(
        process_segment_at_depth(r#"bash -c "bash -c 'git push --force'""#, 0),
        Some(("deny", _))
    ));
}

#[test]
fn test_deny_rm_rf() {
    assert!(matches!(
        process_segment_at_depth("rm -rf /tmp/foo", 0),
        Some(("deny", _))
    ));
    // Combined flags in different order
    assert!(matches!(
        process_segment_at_depth("rm -fr /tmp/foo", 0),
        Some(("deny", _))
    ));
    // Separate flags
    assert!(matches!(
        process_segment_at_depth("rm -r -f /tmp/foo", 0),
        Some(("deny", _))
    ));
    // Uppercase -R
    assert!(matches!(
        process_segment_at_depth("rm -Rf /tmp/foo", 0),
        Some(("deny", _))
    ));
    // Long form
    assert!(matches!(
        process_segment_at_depth("rm --recursive --force /tmp/foo", 0),
        Some(("deny", _))
    ));
}

#[test]
fn test_ask_rm_r() {
    assert!(matches!(
        process_segment_at_depth("rm -r /tmp/foo", 0),
        Some(("ask", _))
    ));
    assert!(matches!(
        process_segment_at_depth("rm -R /tmp/foo", 0),
        Some(("ask", _))
    ));
    assert!(matches!(
        process_segment_at_depth("rm --recursive /tmp/foo", 0),
        Some(("ask", _))
    ));
}

#[test]
fn test_rm_safe() {
    // Non-recursive rm passes through
    assert!(process_segment_at_depth("rm file.txt", 0).is_none());
    assert!(process_segment_at_depth("rm -f file.txt", 0).is_none());
}

#[test]
fn test_find_delete() {
    assert!(matches!(
        process_segment_at_depth("find . -name '*.tmp' -delete", 0),
        Some(("deny", _))
    ));
}

#[test]
fn test_find_exec_dangerous() {
    // find -exec with destructive child commands
    assert!(matches!(
        process_segment_at_depth(r"find . -exec rm -rf {} \;", 0),
        Some(("deny", _))
    ));
    assert!(matches!(
        process_segment_at_depth("find . -exec rm -rf {} +", 0),
        Some(("deny", _))
    ));
    assert!(matches!(
        process_segment_at_depth("find . -execdir rm -rf {} +", 0),
        Some(("deny", _))
    ));
    // find -exec with git commands
    assert!(matches!(
        process_segment_at_depth(r"find . -name '*.git' -exec git push --force {} \;", 0),
        Some(("deny", _))
    ));
    // find -exec with ask-level child
    assert!(matches!(
        process_segment_at_depth("find . -exec rm -r {} +", 0),
        Some(("ask", _))
    ));
}

#[test]
fn test_find_multiple_exec() {
    // Second -exec with destructive command should be caught
    assert!(matches!(
        process_segment_at_depth(r"find . -exec echo {} \; -exec rm -rf {} \;", 0),
        Some(("deny", _))
    ));
    // First -exec safe, second -exec ask-level
    assert!(matches!(
        process_segment_at_depth(r"find . -exec echo {} \; -exec rm -r {} \;", 0),
        Some(("ask", _))
    ));
    // Both -exec safe
    assert!(
        process_segment_at_depth(r"find . -exec echo {} \; -exec chmod 644 {} \;", 0).is_none()
    );
}

#[test]
fn test_find_exec_shell_wrapper() {
    // find -exec bash -c 'rm -rf' should be caught via shell unwrapping
    assert!(matches!(
        process_segment_at_depth(r#"find . -exec bash -c "rm -rf {}" \;"#, 0),
        Some(("deny", _))
    ));
    assert!(matches!(
        process_segment_at_depth(r"find . -exec sh -c 'git push --force' \;", 0),
        Some(("deny", _))
    ));
    // Safe shell wrapper should pass through
    assert!(process_segment_at_depth(r"find . -exec bash -c 'echo hello' \;", 0).is_none());
}

#[test]
fn test_find_exec_safe() {
    assert!(process_segment_at_depth("find . -exec echo {} +", 0).is_none());
    assert!(process_segment_at_depth(r"find . -exec chmod 644 {} \;", 0).is_none());
    assert!(process_segment_at_depth(r"find . -execdir echo {} \;", 0).is_none());
}

#[test]
fn test_safe_commands_pass() {
    assert!(process_segment_at_depth("git status", 0).is_none());
    assert!(process_segment_at_depth("git diff", 0).is_none());
    assert!(process_segment_at_depth("git log --oneline", 0).is_none());
    assert!(process_segment_at_depth("git add file.rs", 0).is_none());
    assert!(process_segment_at_depth("ls -la", 0).is_none());
}

#[test]
fn test_docker_system_prune_all() {
    assert!(matches!(
        process_segment_at_depth("docker system prune -a", 0),
        Some(("deny", _))
    ));
    assert!(matches!(
        process_segment_at_depth("docker system prune --all", 0),
        Some(("deny", _))
    ));
}

#[test]
fn test_docker_system_prune() {
    assert!(matches!(
        process_segment_at_depth("docker system prune", 0),
        Some(("ask", _))
    ));
}

#[test]
fn test_docker_volume_prune() {
    assert!(matches!(
        process_segment_at_depth("docker volume prune", 0),
        Some(("ask", _))
    ));
}

#[test]
fn test_podman_system_prune_all() {
    assert!(matches!(
        process_segment_at_depth("podman system prune -a", 0),
        Some(("deny", _))
    ));
    assert!(matches!(
        process_segment_at_depth("podman system prune --all", 0),
        Some(("deny", _))
    ));
}

#[test]
fn test_podman_system_prune() {
    assert!(matches!(
        process_segment_at_depth("podman system prune", 0),
        Some(("ask", _))
    ));
}

#[test]
fn test_podman_volume_prune() {
    assert!(matches!(
        process_segment_at_depth("podman volume prune", 0),
        Some(("ask", _))
    ));
}

#[test]
fn test_docker_global_flags_bypass() {
    // Docker global flags should be stripped before subcommand detection
    assert!(matches!(
        process_segment_at_depth("docker --debug system prune -a", 0),
        Some(("deny", _))
    ));
    assert!(matches!(
        process_segment_at_depth("docker -H tcp://localhost:2375 system prune", 0),
        Some(("ask", _))
    ));
    assert!(matches!(
        process_segment_at_depth("docker -D image prune", 0),
        Some(("ask", _))
    ));
    // Podman too
    assert!(matches!(
        process_segment_at_depth("podman --log-level debug system prune --all", 0),
        Some(("deny", _))
    ));
}

#[test]
fn test_strip_docker_flags() {
    let tokens: Vec<String> = vec!["docker", "--debug", "system", "prune", "-a"]
        .into_iter()
        .map(String::from)
        .collect();
    let stripped = strip_docker_flags(&tokens);
    assert_eq!(stripped, vec!["docker", "system", "prune", "-a"]);

    let tokens: Vec<String> = vec!["docker", "-H", "tcp://host", "image", "prune"]
        .into_iter()
        .map(String::from)
        .collect();
    let stripped = strip_docker_flags(&tokens);
    assert_eq!(stripped, vec!["docker", "image", "prune"]);

    // Truncated: arg flag at end with no value
    let tokens: Vec<String> = vec!["docker", "-H"].into_iter().map(String::from).collect();
    let stripped = strip_docker_flags(&tokens);
    assert_eq!(stripped, vec!["docker"]);
}

#[test]
fn test_psql_drop_database() {
    assert!(matches!(
        process_segment_at_depth("psql -h localhost -c DROP DATABASE mydb", 0),
        Some(("deny", _))
    ));
}

#[test]
fn test_psql_drop_schema() {
    assert!(matches!(
        process_segment_at_depth("psql -c DROP SCHEMA public", 0),
        Some(("deny", _))
    ));
}

#[test]
fn test_psql_drop_table() {
    assert!(matches!(
        process_segment_at_depth("psql -c DROP TABLE users", 0),
        Some(("ask", _))
    ));
}

#[test]
fn test_psql_truncate() {
    assert!(matches!(
        process_segment_at_depth("psql -c TRUNCATE users", 0),
        Some(("ask", _))
    ));
}

#[test]
fn test_psql_safe() {
    assert!(process_segment_at_depth("psql -h localhost mydb", 0).is_none());
    // Table/column names containing SQL keywords should not false-positive
    assert!(process_segment_at_depth("psql -c 'SELECT truncated_at FROM posts'", 0).is_none());
    assert!(process_segment_at_depth("psql -c 'SELECT * FROM drop_schema_logs'", 0).is_none());
}

#[test]
fn test_xargs_git_push_force() {
    // After pipe splitting, xargs sees: "xargs git push --force"
    assert!(matches!(
        process_segment_at_depth("xargs git push --force", 0),
        Some(("deny", _))
    ));
}

#[test]
fn test_xargs_find_delete() {
    assert!(matches!(
        process_segment_at_depth("xargs find . -delete", 0),
        Some(("deny", _))
    ));
}

#[test]
fn test_xargs_safe() {
    assert!(process_segment_at_depth("xargs grep TODO", 0).is_none());
}

#[test]
fn test_xargs_with_flags() {
    assert!(matches!(
        process_segment_at_depth("xargs -n 1 git push --force", 0),
        Some(("deny", _))
    ));
    assert!(matches!(
        process_segment_at_depth("xargs -I {} git push --force", 0),
        Some(("deny", _))
    ));
}

#[test]
fn test_xargs_with_git_global_flags() {
    assert!(matches!(
        process_segment_at_depth("xargs git -C /tmp push --force", 0),
        Some(("deny", _))
    ));
}

#[test]
fn test_docker_combined_short_flags() {
    assert!(matches!(
        process_segment_at_depth("docker system prune -af", 0),
        Some(("deny", _))
    ));
    assert!(matches!(
        process_segment_at_depth("podman system prune -fa", 0),
        Some(("deny", _))
    ));
}

#[test]
fn test_pipe_xargs_end_to_end() {
    assert_eq!(
        evaluate_command("echo main | xargs git push --force")
            .unwrap()
            .0,
        "deny"
    );
}

#[test]
fn test_compound_strictest_wins() {
    // deny beats ask
    assert_eq!(
        evaluate_command("git status && git push --force")
            .unwrap()
            .0,
        "deny"
    );
    // ask beats pass-through
    assert_eq!(
        evaluate_command("git status && git push origin main")
            .unwrap()
            .0,
        "ask"
    );
    // all safe passes through
    assert!(evaluate_command("git status && git diff").is_none());
}

#[test]
fn test_shell_wrapper_depth_limit() {
    // Direct command works at max depth
    assert!(matches!(
        evaluate_command_at_depth("git push --force", MAX_SHELL_DEPTH),
        Some(("deny", _))
    ));
    // One wrapping level at max depth: inner exceeds limit, passes through
    assert!(evaluate_command_at_depth("bash -c 'git push --force'", MAX_SHELL_DEPTH).is_none());
}

#[test]
fn test_combined_short_flags_git() {
    // git push: combined flags containing -f
    assert!(matches!(
        process_segment_at_depth("git push -vf origin main", 0),
        Some(("deny", _))
    ));
    assert!(matches!(
        process_segment_at_depth("git push -nf", 0),
        Some(("deny", _))
    ));
    // git clean: -fd is the canonical invocation
    assert!(matches!(
        process_segment_at_depth("git clean -fd", 0),
        Some(("ask", _))
    ));
    assert!(matches!(
        process_segment_at_depth("git clean -fxd", 0),
        Some(("ask", _))
    ));
    // git add: combined flags containing -A
    assert!(matches!(
        process_segment_at_depth("git add -Av", 0),
        Some(("deny", _))
    ));
    // git branch: combined flags containing -D
    assert!(matches!(
        process_segment_at_depth("git branch -Dv feature", 0),
        Some(("ask", _))
    ));
}

#[test]
fn test_end_of_options_separator() {
    // After --, tokens are positional arguments, not flags.
    // rm -r -- -forceful-name should be "ask" (recursive) not "deny" (recursive + force)
    assert!(matches!(
        process_segment_at_depth("rm -r -- -forceful-name", 0),
        Some(("ask", _))
    ));
    // git clean -- -f: the -f is after --, so clean has no force flag → passes through
    assert!(process_segment_at_depth("git clean -- -f", 0).is_none());
}

#[test]
fn test_strip_git_flags_respects_separator() {
    // -C after -- should not be stripped
    let tokens: Vec<String> = vec!["git", "push", "--", "-C"]
        .into_iter()
        .map(String::from)
        .collect();
    let stripped = strip_git_flags(&tokens);
    assert_eq!(stripped, vec!["git", "push", "--", "-C"]);
}

#[test]
fn test_docker_prune_positional() {
    // "prune" as an argument value or image name should not trigger the prune rule
    assert!(process_segment_at_depth("docker build --tag prune .", 0).is_none());
    assert!(process_segment_at_depth("docker run --name prune-test nginx", 0).is_none());
    assert!(process_segment_at_depth("docker run prune", 0).is_none());
    assert!(process_segment_at_depth("docker exec prune ls", 0).is_none());
    // Actual prune subcommands still work
    assert!(matches!(
        process_segment_at_depth("docker image prune", 0),
        Some(("ask", _))
    ));
    assert!(matches!(
        process_segment_at_depth("docker container prune", 0),
        Some(("ask", _))
    ));
}
