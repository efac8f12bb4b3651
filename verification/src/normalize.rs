//! Normalising the words of a command before the rules look at them: shell
//! `-c` wrappers, and the global flags of git and docker/podman.
use vstd::prelude::*;
use crate::text::{str_eq, starts_with, starts_with_char, contains_char, chars_of, string_of_range, has_prefix};
use crate::flags::starts_with_dash;
use crate::parse::{total_len, tail_len, lemma_tail_len_step, lemma_tail_len_mono, lemma_tail_len_total};

verus! {

/// The part of `s` after its last `/` (all of `s` when it has none).
pub open spec fn after_last_slash(s: Seq<char>) -> Seq<char>
    decreases s.len(),
{
    if s.len() == 0 {
        s
    } else if s.last() == '/' {
        seq![]
    } else {
        after_last_slash(s.drop_last()).push(s.last())
    }
}

/// The shells whose `-c` argument is unwrapped.
pub open spec fn is_shell_name(n: Seq<char>) -> bool {
    n == "bash"@ || n == "sh"@ || n == "zsh"@ || n == "fish"@ || n == "dash"@ || n == "ksh"@
}

/// `Some(tokens[2])` when the words are `<shell> -c <command> ...` for a shell
/// named by its base name or a path ending in it; `None` otherwise.
pub open spec fn spec_unwrap_shell(tokens: Seq<Seq<char>>) -> Option<Seq<char>> {
    if tokens.len() >= 3 && tokens[1] == "-c"@ && is_shell_name(after_last_slash(tokens[0])) {
        Some(tokens[2])
    } else {
        None
    }
}

/// The words kept by `strip_git_flags` from position `i` on, where `past` tells
/// whether the subcommand or `--` has been passed.
pub open spec fn strip_git_from(tokens: Seq<Seq<char>>, i: int, past: bool) -> Seq<Seq<char>>
    decreases tokens.len() + 1 - i,
{
    if i < 0 || i >= tokens.len() {
        seq![]
    } else {
        let t = tokens[i];
        if i == 0 || past {
            seq![t] + strip_git_from(tokens, i + 1, past)
        } else if t == "--"@ {
            seq![t] + strip_git_from(tokens, i + 1, true)
        } else if t == "-C"@ || t == "-c"@ {
            strip_git_from(tokens, i + 2, past)
        } else if has_prefix(t, "--git-dir"@) || has_prefix(t, "--work-tree"@) {
            if t.contains('=') {
                strip_git_from(tokens, i + 1, past)
            } else {
                strip_git_from(tokens, i + 2, past)
            }
        } else {
            seq![t] + strip_git_from(tokens, i + 1, !starts_with_dash(t))
        }
    }
}

/// The words of a git command without its global flags `-C <path>`,
/// `-c <key=value>`, `--git-dir[=]<path>` and `--work-tree[=]<path>`, which are
/// only removed before the subcommand and before `--`.
pub open spec fn spec_strip_git_flags(tokens: Seq<Seq<char>>) -> Seq<Seq<char>> {
    strip_git_from(tokens, 0, false)
}

/// The docker/podman global flags that take the next word as their argument.
pub open spec fn is_docker_arg_flag(t: Seq<char>) -> bool {
    ||| t == "-H"@
    ||| t == "--host"@
    ||| t == "--config"@
    ||| t == "-c"@
    ||| t == "--context"@
    ||| t == "-l"@
    ||| t == "--log-level"@
    ||| t == "--tlscacert"@
    ||| t == "--tlscert"@
    ||| t == "--tlskey"@
}

/// The position of the docker/podman subcommand, reading global flags from
/// position `i` on; it may lie past the end when a flag lacks its argument.
pub open spec fn docker_subcommand_pos(tokens: Seq<Seq<char>>, i: int) -> int
    decreases tokens.len() + 1 - i,
{
    if i < 0 || i >= tokens.len() || !starts_with_dash(tokens[i]) {
        i
    } else if tokens[i].contains('=') {
        docker_subcommand_pos(tokens, i + 1)
    } else if is_docker_arg_flag(tokens[i]) {
        docker_subcommand_pos(tokens, i + 2)
    } else {
        docker_subcommand_pos(tokens, i + 1)
    }
}

/// The words of a docker/podman command without the global flags between the
/// program name and the subcommand.
pub open spec fn spec_strip_docker_flags(tokens: Seq<Seq<char>>) -> Seq<Seq<char>> {
    if tokens.len() == 0 {
        tokens
    } else {
        let p = docker_subcommand_pos(tokens, 1);
        if p <= tokens.len() {
            seq![tokens[0]] + tokens.subrange(p, tokens.len() as int)
        } else {
            seq![tokens[0]]
        }
    }
}

/// The part after the last `/` is no longer than the whole.
pub proof fn lemma_after_last_slash_len(s: Seq<char>)
    ensures
        after_last_slash(s).len() <= s.len(),
    decreases s.len(),
{
    if s.len() > 0 && s.last() != '/' {
        lemma_after_last_slash_len(s.drop_last());
    }
}

/// Every shell name has at least two characters.
pub proof fn lemma_shell_name_len(n: Seq<char>)
    requires
        is_shell_name(n),
    ensures
        n.len() >= 2,
{
    reveal_strlit("bash");
    reveal_strlit("sh");
    reveal_strlit("zsh");
    reveal_strlit("fish");
    reveal_strlit("dash");
    reveal_strlit("ksh");
    assert("bash"@.len() == 4);
    assert("sh"@.len() == 2);
    assert("zsh"@.len() == 3);
    assert("fish"@.len() == 4);
    assert("dash"@.len() == 4);
    assert("ksh"@.len() == 3);
}

/// The command inside a shell wrapper is shorter than all the words together.
pub proof fn lemma_unwrap_shell_shorter(t: Seq<Seq<char>>)
    requires
        spec_unwrap_shell(t) is Some,
    ensures
        spec_unwrap_shell(t)->0.len() < total_len(t),
{
    lemma_after_last_slash_len(t[0]);
    lemma_shell_name_len(after_last_slash(t[0]));
    lemma_tail_len_step(t, 0);
    lemma_tail_len_step(t, 1);
    lemma_tail_len_step(t, 2);
    lemma_tail_len_total(t, 0);
}

/// Stripping git flags keeps the words of the tail within its length.
proof fn lemma_strip_git_from_len(t: Seq<Seq<char>>, i: int, past: bool)
    requires
        0 <= i,
    ensures
        total_len(strip_git_from(t, i, past)) <= tail_len(t, i),
    decreases t.len() + 1 - i,
{
    if i < t.len() {
        let x = t[i];
        lemma_tail_len_step(t, i);
        lemma_tail_len_mono(t, i + 1, i + 2);
        if i == 0 || past {
            lemma_strip_git_from_len(t, i + 1, past);
            assert((seq![x] + strip_git_from(t, i + 1, past)).drop_first() =~= strip_git_from(t, i + 1, past));
        } else if x == "--"@ {
            lemma_strip_git_from_len(t, i + 1, true);
            assert((seq![x] + strip_git_from(t, i + 1, true)).drop_first() =~= strip_git_from(t, i + 1, true));
        } else if x == "-C"@ || x == "-c"@ {
            lemma_strip_git_from_len(t, i + 2, past);
        } else if has_prefix(x, "--git-dir"@) || has_prefix(x, "--work-tree"@) {
            lemma_strip_git_from_len(t, i + 1, past);
            lemma_strip_git_from_len(t, i + 2, past);
        } else {
            let p = !starts_with_dash(x);
            lemma_strip_git_from_len(t, i + 1, p);
            assert((seq![x] + strip_git_from(t, i + 1, p)).drop_first() =~= strip_git_from(t, i + 1, p));
        }
    } else {
        assert(total_len(Seq::<Seq<char>>::empty()) == 0);
    }
}

/// Stripping git flags never adds to the total length of the words.
pub proof fn lemma_strip_git_len(t: Seq<Seq<char>>)
    ensures
        total_len(spec_strip_git_flags(t)) <= total_len(t),
{
    lemma_strip_git_from_len(t, 0, false);
    lemma_tail_len_total(t, 0);
}

/// A global flag that `strip_git_flags` removes.
pub open spec fn is_git_global_flag(x: Seq<char>) -> bool {
    x == "-C"@ || x == "-c"@ || has_prefix(x, "--git-dir"@) || has_prefix(x, "--work-tree"@)
}

/// Words after `git` that hold no removable global flag before the subcommand
/// or `--`.
pub open spec fn git_flags_clean(r: Seq<Seq<char>>) -> bool
    decreases r.len(),
{
    if r.len() == 0 {
        true
    } else if r[0] == "--"@ || !starts_with_dash(r[0]) {
        true
    } else {
        !is_git_global_flag(r[0]) && git_flags_clean(r.drop_first())
    }
}

/// Every removable global flag starts with `-`.
proof fn lemma_git_global_flag_dash(x: Seq<char>)
    requires
        is_git_global_flag(x),
    ensures
        starts_with_dash(x),
{
    reveal_strlit("-C");
    reveal_strlit("-c");
    reveal_strlit("--git-dir");
    reveal_strlit("--work-tree");
    assert("-C"@[0] == '-');
    assert("-c"@[0] == '-');
    assert("--git-dir"@.len() == 9 && "--git-dir"@[0] == '-');
    assert("--work-tree"@.len() == 11 && "--work-tree"@[0] == '-');
    if has_prefix(x, "--git-dir"@) {
        assert(x.subrange(0, 9)[0] == x[0]);
    }
    if has_prefix(x, "--work-tree"@) {
        assert(x.subrange(0, 11)[0] == x[0]);
    }
}

/// Once past the subcommand every word is kept.
pub proof fn lemma_strip_git_past(t: Seq<Seq<char>>, i: int)
    requires
        1 <= i <= t.len(),
    ensures
        strip_git_from(t, i, true) == t.subrange(i, t.len() as int),
    decreases t.len() - i,
{
    if i < t.len() {
        lemma_strip_git_past(t, i + 1);
        assert(seq![t[i]] + t.subrange(i + 1, t.len() as int) =~= t.subrange(i, t.len() as int));
    } else {
        assert(t.subrange(i, t.len() as int) =~= Seq::<Seq<char>>::empty());
    }
}

/// What `strip_git_flags` keeps after `git` holds no removable global flag.
proof fn lemma_strip_git_output_clean(t: Seq<Seq<char>>, i: int)
    requires
        1 <= i,
    ensures
        git_flags_clean(strip_git_from(t, i, false)),
    decreases t.len() + 1 - i,
{
    if i < t.len() {
        let x = t[i];
        if x == "--"@ {
            assert((seq![x] + strip_git_from(t, i + 1, true))[0] == x);
        } else if x == "-C"@ || x == "-c"@ {
            lemma_strip_git_output_clean(t, i + 2);
        } else if has_prefix(x, "--git-dir"@) || has_prefix(x, "--work-tree"@) {
            lemma_strip_git_output_clean(t, i + 1);
            lemma_strip_git_output_clean(t, i + 2);
        } else {
            let r = seq![x] + strip_git_from(t, i + 1, !starts_with_dash(x));
            assert(r[0] == x);
            if starts_with_dash(x) {
                lemma_strip_git_output_clean(t, i + 1);
                assert(r.drop_first() =~= strip_git_from(t, i + 1, false));
            }
        }
    }
}

/// Words whose part after `git` is clean are left as they are.
proof fn lemma_strip_git_clean_fixed(r: Seq<Seq<char>>, i: int)
    requires
        1 <= i <= r.len(),
        git_flags_clean(r.subrange(i, r.len() as int)),
    ensures
        strip_git_from(r, i, false) == r.subrange(i, r.len() as int),
    decreases r.len() - i,
{
    if i < r.len() {
        let x = r[i];
        let s = r.subrange(i, r.len() as int);
        assert(s[0] == x);
        assert(s.drop_first() =~= r.subrange(i + 1, r.len() as int));
        if x == "--"@ {
            lemma_strip_git_past(r, i + 1);
            assert(seq![x] + r.subrange(i + 1, r.len() as int) =~= s);
        } else if !starts_with_dash(x) {
            if is_git_global_flag(x) {
                lemma_git_global_flag_dash(x);
            }
            lemma_strip_git_past(r, i + 1);
            assert(seq![x] + r.subrange(i + 1, r.len() as int) =~= s);
        } else {
            lemma_strip_git_clean_fixed(r, i + 1);
            assert(seq![x] + r.subrange(i + 1, r.len() as int) =~= s);
        }
    } else {
        assert(r.subrange(i, r.len() as int) =~= Seq::<Seq<char>>::empty());
    }
}

/// Stripping git global flags twice is the same as stripping them once.
pub proof fn lemma_strip_git_idempotent(t: Seq<Seq<char>>)
    ensures
        spec_strip_git_flags(spec_strip_git_flags(t)) == spec_strip_git_flags(t),
{
    let r = spec_strip_git_flags(t);
    if t.len() > 0 {
        let c = strip_git_from(t, 1, false);
        assert(r == seq![t[0]] + c);
        lemma_strip_git_output_clean(t, 1);
        assert(r.subrange(1, r.len() as int) =~= c);
        lemma_strip_git_clean_fixed(r, 1);
        assert(r[0] == t[0]);
        assert(seq![r[0]] + r.subrange(1, r.len() as int) =~= r);
    } else {
        assert(r =~= Seq::<Seq<char>>::empty());
    }
}

/// The docker/podman subcommand position lies at or after `i` and, within the
/// words, on a word that does not start with `-`.
pub proof fn lemma_docker_pos(t: Seq<Seq<char>>, i: int)
    requires
        0 <= i,
    ensures
        docker_subcommand_pos(t, i) >= i,
        docker_subcommand_pos(t, i) < t.len() ==> !starts_with_dash(t[docker_subcommand_pos(t, i)]),
    decreases t.len() + 1 - i,
{
    if i < t.len() && starts_with_dash(t[i]) {
        lemma_docker_pos(t, i + 1);
        lemma_docker_pos(t, i + 2);
    }
}

/// Stripping docker/podman global flags twice is the same as stripping them once.
pub proof fn lemma_strip_docker_idempotent(t: Seq<Seq<char>>)
    ensures
        spec_strip_docker_flags(spec_strip_docker_flags(t)) == spec_strip_docker_flags(t),
{
    let r = spec_strip_docker_flags(t);
    if t.len() > 0 {
        lemma_docker_pos(t, 1);
        let p = docker_subcommand_pos(t, 1);
        assert(r[0] == t[0]);
        if r.len() > 1 {
            assert(r[1] == t[p]);
            assert(docker_subcommand_pos(r, 1) == 1);
        } else {
            assert(docker_subcommand_pos(r, 1) == 1);
        }
        assert(seq![r[0]] + r.subrange(1, r.len() as int) =~= r);
    }
}

/// The part of `s` after its last `/`.
pub fn base_name(s: &str) -> (r: String)
    ensures
        r@ == after_last_slash(s@),
{
    let v = chars_of(s);
    let len = v.len();
    let mut j = len;
    assert(v@.subrange(0, len as int) =~= v@);
    while j > 0 && v[j - 1] != '/'
        invariant
            len == v@.len(),
            j <= len,
            after_last_slash(v@) == after_last_slash(v@.subrange(0, j as int)) + v@.subrange(
                j as int,
                len as int,
            ),
        decreases j,
    {
        let ghost pre = v@.subrange(0, j as int);
        assert(pre.drop_last() =~= v@.subrange(0, j - 1));
        assert(v@.subrange(j - 1, len as int) =~= seq![v@[j - 1]] + v@.subrange(
            j as int,
            len as int,
        ));
        assert(after_last_slash(pre) == after_last_slash(pre.drop_last()).push(pre.last()));
        assert(after_last_slash(pre.drop_last()).push(pre.last()) + v@.subrange(j as int, len as int)
            =~= after_last_slash(pre.drop_last()) + v@.subrange(j - 1, len as int));
        j -= 1;
    }
    assert(after_last_slash(v@.subrange(0, j as int)) =~= Seq::<char>::empty());
    assert(after_last_slash(v@) =~= v@.subrange(j as int, len as int));
    string_of_range(&v, j, len)
}

/// Unwrap shell `-c` wrappers: `bash -c "git push --force"` gives
/// `git push --force`. Returns the raw inner command string so the caller can
/// re-split it on shell operators. Only `tokens[2]` is used: in shell syntax,
/// further arguments are positional parameters, not part of the command.
pub fn unwrap_shell(tokens: &[String]) -> (r: Option<String>)
    ensures
        r.deep_view() == spec_unwrap_shell(tokens.deep_view()),
{
    if tokens.len() >= 3 && str_eq(tokens[1].as_str(), "-c") {
        let name = base_name(tokens[0].as_str());
        let n = name.as_str();
        if str_eq(n, "bash") || str_eq(n, "sh") || str_eq(n, "zsh") || str_eq(n, "fish") || str_eq(
            n,
            "dash",
        ) || str_eq(n, "ksh") {
            return Some(tokens[2].clone());
        }
    }
    None
}

/// Strip git global flags that appear between `git` and the subcommand:
/// `-C <path>`, `-c <key=value>`, `--git-dir=<path>`, `--work-tree=<path>`.
/// After the subcommand, and after the `--` sentinel, every word is kept.
pub fn strip_git_flags(tokens: &[String]) -> (r: Vec<String>)
    ensures
        r.deep_view() == spec_strip_git_flags(tokens.deep_view()),
{
    let ghost t = tokens.deep_view();
    let n = tokens.len();
    let mut result: Vec<String> = Vec::new();
    let mut i: usize = 0;
    let mut past_subcommand = false;
    assert(result.deep_view() + strip_git_from(t, 0, false) =~= spec_strip_git_flags(t));
    while i < n
        invariant
            n == tokens@.len(),
            t == tokens.deep_view(),
            result.deep_view() + strip_git_from(t, i as int, past_subcommand)
                == spec_strip_git_flags(t),
        decreases n - i,
    {
        let ghost old_r = result.deep_view();
        let w = tokens[i].as_str();
        if i == 0 || past_subcommand {
            result.push(tokens[i].clone());
            assert(result.deep_view() =~= old_r.push(t[i as int]));
            assert(old_r + strip_git_from(t, i as int, past_subcommand) =~= result.deep_view()
                + strip_git_from(t, i + 1, past_subcommand));
            i += 1;
            continue;
        }
        if str_eq(w, "--") {
            past_subcommand = true;
            result.push(tokens[i].clone());
            assert(result.deep_view() =~= old_r.push(t[i as int]));
            assert(old_r + strip_git_from(t, i as int, false) =~= result.deep_view()
                + strip_git_from(t, i + 1, true));
            i += 1;
            continue;
        }
        if str_eq(w, "-C") || str_eq(w, "-c") {
            if i + 1 >= n {
                assert(strip_git_from(t, i + 2, past_subcommand) =~= Seq::<Seq<char>>::empty());
                i = n;
            } else {
                i += 2;
            }
            continue;
        }
        if starts_with(w, "--git-dir") || starts_with(w, "--work-tree") {
            if contains_char(w, '=') {
                i += 1;
            } else if i + 1 >= n {
                assert(strip_git_from(t, i + 2, past_subcommand) =~= Seq::<Seq<char>>::empty());
                i = n;
            } else {
                i += 2;
            }
            continue;
        }
        if !starts_with_char(w, '-') {
            past_subcommand = true;
        }
        result.push(tokens[i].clone());
        assert(result.deep_view() =~= old_r.push(t[i as int]));
        assert(old_r + strip_git_from(t, i as int, false) =~= result.deep_view() + strip_git_from(
            t,
            i + 1,
            past_subcommand,
        ));
        i += 1;
    }
    assert(result.deep_view() + strip_git_from(t, i as int, past_subcommand) =~= result.deep_view());
    result
}

/// Whether `t` is a docker/podman global flag that takes an argument.
pub fn takes_docker_argument(t: &str) -> (r: bool)
    ensures
        r == is_docker_arg_flag(t@),
{
    str_eq(t, "-H") || str_eq(t, "--host") || str_eq(t, "--config") || str_eq(t, "-c") || str_eq(
        t,
        "--context",
    ) || str_eq(t, "-l") || str_eq(t, "--log-level") || str_eq(t, "--tlscacert") || str_eq(
        t,
        "--tlscert",
    ) || str_eq(t, "--tlskey")
}

/// Skip docker/podman global flags that precede the subcommand, so that
/// `docker -H tcp://host system prune -a` and `docker --debug image prune`
/// are judged by their subcommand.
pub fn strip_docker_flags(tokens: &[String]) -> (r: Vec<String>)
    ensures
        r.deep_view() == spec_strip_docker_flags(tokens.deep_view()),
{
    let ghost t = tokens.deep_view();
    let n = tokens.len();
    let mut result: Vec<String> = Vec::new();
    if n == 0 {
        assert(result.deep_view() =~= t);
        return result;
    }
    result.push(tokens[0].clone());
    assert(result.deep_view() =~= seq![t[0]]);
    let mut i: usize = 1;
    while i < n
        invariant
            n == tokens@.len(),
            t == tokens.deep_view(),
            1 <= i <= n,
            docker_subcommand_pos(t, i as int) == docker_subcommand_pos(t, 1),
            result.deep_view() == seq![t[0]],
        ensures
            i <= n,
            docker_subcommand_pos(t, 1) == i,
            result.deep_view() == seq![t[0]],
        decreases n - i,
    {
        let w = tokens[i].as_str();
        assert(t[i as int] == w@);
        if !starts_with_char(w, '-') {
            assert(docker_subcommand_pos(t, i as int) == i);
            break;
        }
        if contains_char(w, '=') {
            i += 1;
            continue;
        }
        if takes_docker_argument(w) {
            if i + 1 >= n {
                assert(docker_subcommand_pos(t, i + 2) == i + 2);
                assert(docker_subcommand_pos(t, i as int) == i + 2);
                assert(docker_subcommand_pos(t, 1) > n);
                assert(result.deep_view() =~= spec_strip_docker_flags(t));
                return result;
            }
            i += 2;
            continue;
        }
        i += 1;
    }
    assert(docker_subcommand_pos(t, 1) == i);
    let ghost head = result.deep_view();
    let mut k = i;
    while k < n
        invariant
            n == tokens@.len(),
            t == tokens.deep_view(),
            i <= k <= n,
            head == seq![t[0]],
            result.deep_view() == head + t.subrange(i as int, k as int),
        decreases n - k,
    {
        let ghost old_r = result.deep_view();
        result.push(tokens[k].clone());
        assert(result.deep_view() =~= old_r.push(t[k as int]));
        assert(t.subrange(i as int, k + 1) =~= t.subrange(i as int, k as int).push(t[k as int]));
        assert(head + t.subrange(i as int, k + 1) =~= (head + t.subrange(i as int, k as int)).push(
            t[k as int],
        ));
        k += 1;
    }
    result
}

} // verus!
