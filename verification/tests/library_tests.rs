use cmd_guard::flags::has_short_flag_char;
use cmd_guard::parse::split_whitespace;
use cmd_guard::text::{is_whitespace, trimmed};
use cmd_guard::{
    evaluate_command, evaluate_command_at_depth, evaluate_general, evaluate_git, evaluate_xargs,
    process_segment_at_depth, psql_verdict, split_segments, strip_docker_flags, strip_git_flags,
    tokenize, unwrap_shell,
};

fn words(ws: &[&str]) -> Vec<String> {
    ws.iter().map(|w| w.to_string()).collect()
}

fn reason(v: Option<(&'static str, String)>) -> String {
    v.expect("a verdict").1
}

#[test]
fn whitespace_matches_std_for_every_char() {
    for code in 0u32..=0x10FFFF {
        if let Some(c) = char::from_u32(code) {
            assert_eq!(is_whitespace(c), c.is_whitespace(), "char {:#x}", code);
        }
    }
}

#[test]
fn trim_matches_std() {
    for s in ["", "   ", " a ", "\u{3000}x y\u{2028}", "\tgit push\n", "a", "\u{85}b\u{a0}"] {
        assert_eq!(trimmed(s), s.trim());
    }
}

#[test]
fn split_whitespace_matches_std() {
    for s in ["", "  a  b ", "DROP\u{2003}TABLE", "x", "\n\t"] {
        let expected: Vec<&str> = s.split_whitespace().collect();
        assert_eq!(split_whitespace(s), expected);
    }
}

#[test]
fn segments_are_trimmed_and_blank_last_dropped() {
    assert_eq!(split_segments("  git status  ;  "), vec!["git status"]);
    assert!(split_segments("   ").is_empty());
    // A blank segment between two operators is kept
    assert_eq!(split_segments("a && && b"), vec!["a", "", "b"]);
}

#[test]
fn operators_inside_quotes_do_not_split() {
    assert_eq!(split_segments("echo 'a && b' | cat"), vec!["echo 'a && b'", "cat"]);
    assert_eq!(split_segments(r#"echo "x; y""#), vec![r#"echo "x; y""#]);
}

#[test]
fn operator_free_command_is_one_segment() {
    assert_eq!(split_segments("  git log --oneline "), vec!["git log --oneline"]);
}

#[test]
fn tokenize_quotes_and_words() {
    assert_eq!(tokenize(r#"echo "it's" 'a "b"'"#), vec!["echo", "it's", "a \"b\""]);
    assert!(tokenize("   ").is_empty());
    // Without quotes, words are the whitespace-separated words
    assert_eq!(tokenize(" a  b\tc "), vec!["a", "b", "c"]);
}

#[test]
fn unwrap_shell_cases() {
    assert_eq!(unwrap_shell(&words(&["/bin/zsh", "-c", "x", "y"])), Some("x".to_string()));
    assert_eq!(unwrap_shell(&words(&["bash", "-x", "y"])), None);
    assert_eq!(unwrap_shell(&words(&["notbash", "-c", "x"])), None);
    assert_eq!(unwrap_shell(&words(&["bash", "-c"])), None);
}

#[test]
fn short_flags_stop_at_sentinel() {
    assert!(!has_short_flag_char(&words(&["rm", "--", "-rf"]), 'f'));
    assert!(has_short_flag_char(&words(&["rm", "-rf", "--", "x"]), 'f'));
    assert!(!has_short_flag_char(&words(&["rm", "--force"]), 'f'));
}

#[test]
fn strip_git_flags_twice_is_once() {
    for t in [
        vec!["git", "-C", "/tmp", "-v", "push", "-C", "x"],
        vec!["git", "--git-dir", "push", "status"],
        vec!["git", "-c"],
        vec!["git", "--", "-C", "x"],
    ] {
        let once = strip_git_flags(&words(&t));
        assert_eq!(strip_git_flags(&once), once);
    }
    assert_eq!(
        strip_git_flags(&words(&["git", "--git-dir", "push", "status"])),
        vec!["git", "status"]
    );
}

#[test]
fn strip_docker_flags_twice_is_once() {
    for t in [
        vec!["docker", "-H", "x", "--debug", "system", "prune"],
        vec!["podman", "--log-level=debug", "image", "prune"],
        vec!["docker", "-c"],
    ] {
        let once = strip_docker_flags(&words(&t));
        assert_eq!(strip_docker_flags(&once), once);
    }
    assert!(strip_docker_flags(&[]).is_empty());
}

#[test]
fn strictest_verdict_wins_with_its_reason() {
    // The first denial is reported
    assert_eq!(
        reason(evaluate_command("git push origin main; git push --force; rm -rf /")),
        "Force push blocked — remote history rewrite"
    );
    // Without a denial, the last request to ask is reported
    let v = evaluate_command("git push; git reset --hard").unwrap();
    assert_eq!(v.0, "ask");
    assert_eq!(v.1, "git reset --hard — recoverable via reflog");
    assert!(evaluate_command("ls; git status | cat").is_none());
}

#[test]
fn depth_limit_passes_everything() {
    assert!(evaluate_command_at_depth("rm -rf /", 17).is_none());
    assert!(evaluate_command_at_depth("rm -rf /", 16).is_some());
}

#[test]
fn lowercase_sql_is_uppercased_before_matching() {
    assert_eq!(
        reason(process_segment_at_depth("psql -c 'drop database prod'", 0)),
        "DROP DATABASE/SCHEMA blocked — data loss"
    );
    assert_eq!(
        process_segment_at_depth("psql -c 'truncate users'", 0).unwrap().0,
        "ask"
    );
}

#[test]
fn psql_verdict_on_words() {
    assert_eq!(psql_verdict(&words(&["DROP", "TABLE"])).unwrap().0, "ask");
    assert_eq!(psql_verdict(&words(&["TRUNCATE"])).unwrap().0, "ask");
    assert_eq!(psql_verdict(&words(&["DROP", "SCHEMA"])).unwrap().0, "deny");
    assert!(psql_verdict(&words(&["DROP"])).is_none());
    assert!(psql_verdict(&words(&["TABLE", "DROP"])).is_none());
}

#[test]
fn every_git_reason() {
    let cases = [
        ("git add -A", "deny", "git add -A/--all blocked by policy"),
        ("git add .", "ask", "git add . — stages all changes in current directory"),
        ("git push -f", "deny", "Force push blocked — remote history rewrite"),
        ("git push --delete origin x", "ask", "Confirm: delete remote ref?"),
        ("git push", "ask", "Confirm: push to remote?"),
        ("git stash clear", "deny", "git stash clear blocked — permanent loss"),
        ("git reset --hard", "ask", "git reset --hard — recoverable via reflog"),
        ("git clean -fd", "ask", "git clean -f — deletes untracked files permanently"),
        ("git checkout ./", "ask", "git checkout . — discards uncommitted changes"),
        ("git checkout -f", "ask", "git checkout --force — discards local modifications"),
        ("git restore .", "ask", "git restore . — discards uncommitted changes"),
        ("git branch -D x", "ask", "git branch -D — recoverable via reflog"),
    ];
    for (cmd, level, why) in cases {
        let v = evaluate_git(&tokenize(cmd)).unwrap();
        assert_eq!((v.0, v.1.as_str()), (level, why), "{}", cmd);
    }
    assert!(evaluate_git(&tokenize("git")).is_none());
    assert!(evaluate_git(&tokenize("git -v")).is_none());
    assert!(evaluate_git(&tokenize("gitk push")).is_none());
}

#[test]
fn every_general_reason() {
    let cases = [
        ("rm -rf x", "deny", "rm -rf blocked — recursive forced deletion"),
        ("rm -r x", "ask", "rm -r — confirm recursive deletion?"),
        ("find . -delete", "deny", "find -delete blocked — permanent deletion"),
        ("docker system prune -a", "deny", "system prune --all blocked — removes all unused resources"),
        ("docker system prune", "ask", "system prune — removes dangling resources"),
        ("podman network prune", "ask", "prune — removes unused resources"),
        ("psql -c TRUNCATE t", "ask", "DROP TABLE/TRUNCATE — confirm?"),
    ];
    for (cmd, level, why) in cases {
        let v = evaluate_general(&tokenize(cmd)).unwrap();
        assert_eq!((v.0, v.1.as_str()), (level, why), "{}", cmd);
    }
    assert!(evaluate_general(&[]).is_none());
}

#[test]
fn xargs_edge_cases() {
    assert!(evaluate_xargs(&words(&["xargs", "-n"])).is_none());
    assert!(evaluate_xargs(&words(&["xargs"])).is_none());
    assert!(evaluate_xargs(&words(&["git", "push"])).is_none());
    assert_eq!(evaluate_xargs(&words(&["echo", "xargs", "-0", "rm", "-rf"])).unwrap().0, "deny");
}

#[test]
fn find_exec_edge_cases() {
    assert!(process_segment_at_depth("find . -exec", 0).is_none());
    assert!(process_segment_at_depth(r"find . -exec {} \; -exec ; ", 0).is_none());
    // The last asking child is reported when nothing denies
    assert_eq!(
        reason(process_segment_at_depth(r"find . -exec rm -r {} \; -exec git push \;", 0)),
        "Confirm: push to remote?"
    );
}

#[test]
fn shell_wrapper_inside_find_starts_from_depth_zero() {
    // Even at the depth limit, a find child's shell wrapper is judged afresh
    assert_eq!(
        evaluate_command_at_depth("find . -exec sh -c 'rm -rf x' +", 16).unwrap().0,
        "deny"
    );
}

#[test]
fn sequence_denied_when_either_part_is() {
    assert_eq!(evaluate_command("rm -rf x; ls").unwrap().0, "deny");
    assert_eq!(evaluate_command("ls ; rm -rf x").unwrap().0, "deny");
    assert!(evaluate_command("ls; echo hi").is_none());
    assert!(evaluate_command("ls; ").is_none());
}

#[test]
fn shell_wrapper_is_judged_as_its_command() {
    assert_eq!(
        process_segment_at_depth("bash -c 'git push; ls'", 0),
        evaluate_command_at_depth("git push; ls", 1)
    );
    assert_eq!(
        process_segment_at_depth("sh -c 'git push --force'", 16),
        evaluate_command_at_depth("git push --force", 17)
    );
}

#[test]
fn find_reports_first_denied_child() {
    assert_eq!(
        reason(process_segment_at_depth(
            "find . -exec rm -r {} + -exec rm -rf {} + -exec git push --force {} +",
            0
        )),
        "rm -rf blocked — recursive forced deletion"
    );
}

#[test]
fn joined_command_is_as_strict_as_the_stricter_part() {
    assert_eq!(evaluate_command("git push ; ls").unwrap().0, "ask");
    assert_eq!(evaluate_command("ls ; git push").unwrap().0, "ask");
    assert_eq!(evaluate_command("echo 'x;' ; git push -f").unwrap().0, "deny");
    assert_eq!(evaluate_command("git reset --hard ; git push -f").unwrap().0, "deny");
    assert!(evaluate_command(" ; ls").is_none());
}
