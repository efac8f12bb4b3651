//! The rules themselves: which git, rm, docker/podman and psql commands are
//! denied, which ask for confirmation, and which pass through.
use vstd::prelude::*;
use crate::text::{str_eq, starts_with, starts_with_char, has_prefix, uppercase, to_uppercase};
use crate::flags::{
    has_token, has_short_flag_char, has_force_flag, starts_with_dash, spec_has_short_flag_char,
    spec_has_force_flag,
};
use crate::parse::{split_whitespace, spec_split_whitespace};

verus! {

/// A verdict as the library hands it out: `("deny" | "ask", reason)`, or `None`
/// to pass the command through.
pub type Verdict = Option<(&'static str, String)>;

/// A verdict as the contracts speak of it: the level and the reason as text.
pub type Outcome = Option<(Seq<char>, Seq<char>)>;

/// Block the command, for the given reason.
pub open spec fn deny(reason: Seq<char>) -> Outcome {
    Some(("deny"@, reason))
}

/// Ask the user to confirm the command, for the given reason.
pub open spec fn ask(reason: Seq<char>) -> Outcome {
    Some(("ask"@, reason))
}

/// The outcome blocks the command.
pub open spec fn is_deny(o: Outcome) -> bool {
    o matches Some((level, _)) && level == "deny"@
}

/// The outcome asks for confirmation.
pub open spec fn is_ask(o: Outcome) -> bool {
    o matches Some((level, _)) && level == "ask"@
}

/// `a` when it is a verdict, else `b`.
pub open spec fn or_else(a: Outcome, b: Outcome) -> Outcome {
    if a is Some {
        a
    } else {
        b
    }
}

/// The levels `"deny"` and `"ask"` are distinct texts.
pub proof fn lemma_levels_distinct()
    ensures
        "deny"@ != "ask"@,
{
    reveal_strlit("deny");
    reveal_strlit("ask");
    assert("deny"@.len() == 4);
    assert("ask"@.len() == 3);
}

/// Builds the verdict `(level, reason)`.
pub(crate) fn verdict(level: &'static str, reason: &'static str) -> (r: Verdict)
    ensures
        r.deep_view() == Some((level@, reason@)),
{
    Some((level, String::from_str(reason)))
}

/// The first word from position `i` on that does not start with `-`.
pub open spec fn first_non_flag_from(t: Seq<Seq<char>>, i: int) -> Option<Seq<char>>
    decreases t.len() - i,
{
    if i < 0 || i >= t.len() {
        None
    } else if !starts_with_dash(t[i]) {
        Some(t[i])
    } else {
        first_non_flag_from(t, i + 1)
    }
}

/// Some word starts with `p`.
pub open spec fn any_has_prefix(t: Seq<Seq<char>>, p: Seq<char>) -> bool {
    exists|i: int| 0 <= i < t.len() && #[trigger] has_prefix(t[i], p)
}

/// Some word is `.` or `./`.
pub open spec fn has_dot_path(t: Seq<Seq<char>>) -> bool {
    t.contains("."@) || t.contains("./"@)
}

/// The git rules, on the words of a command whose global flags are stripped.
/// The subcommand is the first word after `git` that does not start with `-`.
pub open spec fn spec_evaluate_git(t: Seq<Seq<char>>) -> Outcome {
    if t.len() == 0 || t[0] != "git"@ {
        None
    } else {
        match first_non_flag_from(t, 1) {
            None => None,
            Some(sub) => {
                if sub == "add"@ {
                    if t.contains("--all"@) || spec_has_short_flag_char(t, 'A') {
                        deny("git add -A/--all blocked by policy"@)
                    } else if has_dot_path(t) {
                        ask("git add . — stages all changes in current directory"@)
                    } else {
                        None
                    }
                } else if sub == "push"@ {
                    if spec_has_force_flag(t) || any_has_prefix(t, "--force-with-lease"@)
                        || t.contains("--mirror"@) {
                        deny("Force push blocked — remote history rewrite"@)
                    } else if t.contains("--delete"@) || spec_has_short_flag_char(t, 'd') {
                        ask("Confirm: delete remote ref?"@)
                    } else {
                        ask("Confirm: push to remote?"@)
                    }
                } else if sub == "stash"@ {
                    if t.contains("clear"@) {
                        deny("git stash clear blocked — permanent loss"@)
                    } else {
                        None
                    }
                } else if sub == "reset"@ {
                    if t.contains("--hard"@) {
                        ask("git reset --hard — recoverable via reflog"@)
                    } else {
                        None
                    }
                } else if sub == "clean"@ {
                    if spec_has_force_flag(t) {
                        ask("git clean -f — deletes untracked files permanently"@)
                    } else {
                        None
                    }
                } else if sub == "checkout"@ {
                    if has_dot_path(t) {
                        ask("git checkout . — discards uncommitted changes"@)
                    } else if spec_has_force_flag(t) {
                        ask("git checkout --force — discards local modifications"@)
                    } else {
                        None
                    }
                } else if sub == "restore"@ {
                    if has_dot_path(t) && (!t.contains("--staged"@) || t.contains("--worktree"@)) {
                        ask("git restore . — discards uncommitted changes"@)
                    } else {
                        None
                    }
                } else if sub == "branch"@ {
                    if spec_has_short_flag_char(t, 'D') {
                        ask("git branch -D — recoverable via reflog"@)
                    } else {
                        None
                    }
                } else {
                    None
                }
            },
        }
    }
}

/// The rm rules: recursive and forced deletion is denied, recursive deletion
/// asks.
pub open spec fn spec_rm_rules(t: Seq<Seq<char>>) -> Outcome {
    let recursive = t.contains("--recursive"@) || spec_has_short_flag_char(t, 'r')
        || spec_has_short_flag_char(t, 'R');
    if recursive && spec_has_force_flag(t) {
        deny("rm -rf blocked — recursive forced deletion"@)
    } else if recursive {
        ask("rm -r — confirm recursive deletion?"@)
    } else {
        None
    }
}

/// The docker/podman subcommands whose `prune` asks for confirmation.
pub open spec fn is_prunable_object(t: Seq<char>) -> bool {
    ||| t == "image"@
    ||| t == "container"@
    ||| t == "volume"@
    ||| t == "network"@
    ||| t == "builder"@
    ||| t == "buildx"@
}

/// The docker/podman rules, on the words with the global flags stripped. The
/// subcommand is judged by its position, so that `prune` as an argument value
/// does not count.
pub open spec fn spec_docker_rules(t: Seq<Seq<char>>) -> Outcome {
    if t.len() >= 3 && t[1] == "system"@ && t[2] == "prune"@ {
        if t.contains("--all"@) || spec_has_short_flag_char(t, 'a') {
            deny("system prune --all blocked — removes all unused resources"@)
        } else {
            ask("system prune — removes dangling resources"@)
        }
    } else if t.len() >= 3 && t[2] == "prune"@ && is_prunable_object(t[1]) {
        ask("prune — removes unused resources"@)
    } else {
        None
    }
}

/// `words[j]` is `DROP` and `words[j + 1]` is `target` for some `j`.
pub open spec fn has_drop(words: Seq<Seq<char>>, target: Seq<char>) -> bool {
    exists|j: int| #[trigger] drop_at(words, j, target)
}

/// `words[i]` is `DROP` and `words[i + 1]` is `target`.
pub open spec fn drop_at(words: Seq<Seq<char>>, i: int, target: Seq<char>) -> bool {
    0 <= i && i + 1 < words.len() && words[i] == "DROP"@ && words[i + 1] == target
}

/// `DROP DATABASE` or `DROP SCHEMA` stands at position `i`.
pub open spec fn drop_db_at(words: Seq<Seq<char>>, i: int) -> bool {
    drop_at(words, i, "DATABASE"@) || drop_at(words, i, "SCHEMA"@)
}

/// The psql rules, on the uppercased words of the command's arguments.
pub open spec fn spec_psql_verdict(words: Seq<Seq<char>>) -> Outcome {
    if has_drop(words, "DATABASE"@) || has_drop(words, "SCHEMA"@) {
        deny("DROP DATABASE/SCHEMA blocked — data loss"@)
    } else if has_drop(words, "TABLE"@) || words.contains("TRUNCATE"@) {
        ask("DROP TABLE/TRUNCATE — confirm?"@)
    } else {
        None
    }
}

/// The uppercased whitespace-separated words of the words from position `k` on.
pub open spec fn psql_words_from(t: Seq<Seq<char>>, k: int) -> Seq<Seq<char>>
    decreases t.len() - k,
{
    if k < 0 || k >= t.len() {
        seq![]
    } else {
        spec_split_whitespace(t[k]).map_values(|w: Seq<char>| uppercase(w)) + psql_words_from(
            t,
            k + 1,
        )
    }
}

/// Whether some word starts with `p`.
pub fn any_starts_with(tokens: &[String], p: &str) -> (r: bool)
    ensures
        r == any_has_prefix(tokens.deep_view(), p@),
{
    let n = tokens.len();
    let mut i: usize = 0;
    while i < n
        invariant
            n == tokens@.len(),
            i <= n,
            forall|j: int| 0 <= j < i ==> !#[trigger] has_prefix(tokens.deep_view()[j], p@),
        decreases n - i,
    {
        if starts_with(tokens[i].as_str(), p) {
            assert(has_prefix(tokens.deep_view()[i as int], p@));
            return true;
        }
        i += 1;
    }
    false
}

/// Evaluate a normalized set of tokens against the git rules.
/// Returns `Some(("deny" | "ask", reason))`, or `None` to pass through.
pub fn evaluate_git(tokens: &[String]) -> (r: Verdict)
    ensures
        r.deep_view() == spec_evaluate_git(tokens.deep_view()),
{
    let ghost t = tokens.deep_view();
    let n = tokens.len();
    if n == 0 || !str_eq(tokens[0].as_str(), "git") {
        return None;
    }
    let mut k: usize = 1;
    while k < n && starts_with_char(tokens[k].as_str(), '-')
        invariant
            n == tokens@.len(),
            t == tokens.deep_view(),
            1 <= k <= n,
            first_non_flag_from(t, k as int) == first_non_flag_from(t, 1),
        decreases n - k,
    {
        k += 1;
    }
    if k >= n {
        return None;
    }
    assert(first_non_flag_from(t, 1) == Some(t[k as int]));
    let sub = tokens[k].as_str();
    if str_eq(sub, "add") {
        if has_token(tokens, "--all") || has_short_flag_char(tokens, 'A') {
            return verdict("deny", "git add -A/--all blocked by policy");
        }
        if has_token(tokens, ".") || has_token(tokens, "./") {
            return verdict("ask", "git add . — stages all changes in current directory");
        }
    } else if str_eq(sub, "push") {
        if has_force_flag(tokens) || any_starts_with(tokens, "--force-with-lease") || has_token(
            tokens,
            "--mirror",
        ) {
            return verdict("deny", "Force push blocked — remote history rewrite");
        }
        if has_token(tokens, "--delete") || has_short_flag_char(tokens, 'd') {
            return verdict("ask", "Confirm: delete remote ref?");
        }
        return verdict("ask", "Confirm: push to remote?");
    } else if str_eq(sub, "stash") {
        if has_token(tokens, "clear") {
            return verdict("deny", "git stash clear blocked — permanent loss");
        }
    } else if str_eq(sub, "reset") {
        if has_token(tokens, "--hard") {
            return verdict("ask", "git reset --hard — recoverable via reflog");
        }
    } else if str_eq(sub, "clean") {
        if has_force_flag(tokens) {
            return verdict("ask", "git clean -f — deletes untracked files permanently");
        }
    } else if str_eq(sub, "checkout") {
        if has_token(tokens, ".") || has_token(tokens, "./") {
            return verdict("ask", "git checkout . — discards uncommitted changes");
        }
        if has_force_flag(tokens) {
            return verdict("ask", "git checkout --force — discards local modifications");
        }
    } else if str_eq(sub, "restore") {
        if has_token(tokens, ".") || has_token(tokens, "./") {
            // `git restore --staged .` only unstages, which destroys nothing
            let staged = has_token(tokens, "--staged");
            let worktree = has_token(tokens, "--worktree");
            if !staged || worktree {
                return verdict("ask", "git restore . — discards uncommitted changes");
            }
        }
    } else if str_eq(sub, "branch") {
        if has_short_flag_char(tokens, 'D') {
            return verdict("ask", "git branch -D — recoverable via reflog");
        }
    }
    None
}

/// The rm rules on the words of an `rm` command.
pub fn rm_rules(tokens: &[String]) -> (r: Verdict)
    ensures
        r.deep_view() == spec_rm_rules(tokens.deep_view()),
{
    let has_recursive = has_token(tokens, "--recursive") || has_short_flag_char(tokens, 'r')
        || has_short_flag_char(tokens, 'R');
    let has_force = has_force_flag(tokens);
    if has_recursive && has_force {
        return verdict("deny", "rm -rf blocked — recursive forced deletion");
    }
    if has_recursive {
        return verdict("ask", "rm -r — confirm recursive deletion?");
    }
    None
}

/// The docker/podman rules on words whose global flags are stripped.
pub fn docker_rules(tokens: &[String]) -> (r: Verdict)
    ensures
        r.deep_view() == spec_docker_rules(tokens.deep_view()),
{
    let n = tokens.len();
    if n >= 3 && str_eq(tokens[1].as_str(), "system") && str_eq(tokens[2].as_str(), "prune") {
        if has_token(tokens, "--all") || has_short_flag_char(tokens, 'a') {
            return verdict("deny", "system prune --all blocked — removes all unused resources");
        }
        return verdict("ask", "system prune — removes dangling resources");
    }
    if n >= 3 && str_eq(tokens[2].as_str(), "prune") {
        let o = tokens[1].as_str();
        if str_eq(o, "image") || str_eq(o, "container") || str_eq(o, "volume") || str_eq(
            o,
            "network",
        ) || str_eq(o, "builder") || str_eq(o, "buildx") {
            return verdict("ask", "prune — removes unused resources");
        }
    }
    None
}

/// The uppercased whitespace-separated words of all words but the first, as the
/// psql rules read them.
pub fn psql_words(tokens: &[String]) -> (words: Vec<String>)
    ensures
        words.deep_view() == psql_words_from(tokens.deep_view(), 1),
{
    let ghost t = tokens.deep_view();
    let n = tokens.len();
    let mut words: Vec<String> = Vec::new();
    let mut k: usize = 1;
    assert(words.deep_view() + psql_words_from(t, 1) =~= psql_words_from(t, 1));
    while k < n
        invariant
            n == tokens@.len(),
            t == tokens.deep_view(),
            1 <= k,
            words.deep_view() + psql_words_from(t, k as int) == psql_words_from(t, 1),
        decreases n - k,
    {
        let parts = split_whitespace(tokens[k].as_str());
        let ghost before = words.deep_view();
        let ghost ups = spec_split_whitespace(t[k as int]).map_values(|w: Seq<char>| uppercase(w));
        let mut m: usize = 0;
        while m < parts.len()
            invariant
                parts.deep_view() == spec_split_whitespace(t[k as int]),
                ups == parts.deep_view().map_values(|w: Seq<char>| uppercase(w)),
                m <= parts@.len(),
                words.deep_view() == before + ups.take(m as int),
            decreases parts@.len() - m,
        {
            let ghost old_w = words.deep_view();
            let u = to_uppercase(parts[m].as_str());
            words.push(u);
            assert(words.deep_view() =~= old_w.push(ups[m as int]));
            assert(ups.take(m + 1) =~= ups.take(m as int).push(ups[m as int]));
            m += 1;
        }
        assert(ups.take(m as int) =~= ups);
        assert(psql_words_from(t, k as int) == ups + psql_words_from(t, k + 1));
        assert(before + (ups + psql_words_from(t, k + 1)) =~= (before + ups) + psql_words_from(
            t,
            k + 1,
        ));
        k += 1;
    }
    assert(psql_words_from(t, k as int) =~= Seq::<Seq<char>>::empty());
    assert(words.deep_view() + Seq::<Seq<char>>::empty() =~= words.deep_view());
    words
}

/// The psql rules, on the uppercased words of a psql command's arguments:
/// `DROP DATABASE` and `DROP SCHEMA` are denied, `DROP TABLE` and `TRUNCATE`
/// ask. Best effort: only words on the command line are seen.
pub fn psql_verdict(words: &[String]) -> (r: Verdict)
    ensures
        r.deep_view() == spec_psql_verdict(words.deep_view()),
{
    let ghost w = words.deep_view();
    let n = words.len();
    let mut drop_db = false;
    let mut drop_table = false;
    let mut truncate = false;
    let mut j: usize = 0;
    while j < n
        invariant
            n == words@.len(),
            w == words.deep_view(),
            j <= n,
            drop_db == exists|i: int| 0 <= i < j && #[trigger] drop_db_at(w, i),
            drop_table == exists|i: int| 0 <= i < j && #[trigger] drop_at(w, i, "TABLE"@),
            truncate == exists|i: int| 0 <= i < j && #[trigger] w[i] == "TRUNCATE"@,
        decreases n - j,
    {
        let cur = words[j].as_str();
        if str_eq(cur, "TRUNCATE") {
            truncate = true;
        }
        let mut db_here = false;
        let mut table_here = false;
        if j + 1 < n && str_eq(cur, "DROP") {
            let next = words[j + 1].as_str();
            db_here = str_eq(next, "DATABASE") || str_eq(next, "SCHEMA");
            table_here = str_eq(next, "TABLE");
        }
        assert(db_here == drop_db_at(w, j as int));
        assert(w[j as int] == cur@);
        assert(table_here == drop_at(w, j as int, "TABLE"@));
        drop_db = drop_db || db_here;
        drop_table = drop_table || table_here;
        j += 1;
    }
    assert(drop_db == (has_drop(w, "DATABASE"@) || has_drop(w, "SCHEMA"@))) by {
        if has_drop(w, "DATABASE"@) {
            let i = choose|i: int| #[trigger] drop_at(w, i, "DATABASE"@);
            assert(drop_db_at(w, i));
        }
        if has_drop(w, "SCHEMA"@) {
            let i = choose|i: int| #[trigger] drop_at(w, i, "SCHEMA"@);
            assert(drop_db_at(w, i));
        }
    }
    if drop_db {
        return verdict("deny", "DROP DATABASE/SCHEMA blocked — data loss");
    }
    if drop_table || truncate {
        return verdict("ask", "DROP TABLE/TRUNCATE — confirm?");
    }
    None
}

} // verus!
