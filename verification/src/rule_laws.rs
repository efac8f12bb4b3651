//! What each rule decides, stated over the words themselves: which commands are
//! denied, which ask for confirmation, which pass, and which words the
//! normalisation steps remove or look through.
use vstd::prelude::*;
use crate::rules::{
    spec_evaluate_git, spec_docker_rules, lemma_levels_distinct, any_has_prefix, spec_rm_rules,
};
use crate::flags::{spec_has_short_flag_char, spec_has_force_flag, is_short_flag_with};
use crate::text::has_prefix;
use crate::normalize::{
    spec_unwrap_shell, after_last_slash, spec_strip_docker_flags, docker_subcommand_pos,
};
use crate::policy::{
    spec_evaluate_general, spec_evaluate_xargs, spec_evaluate_words, index_of_from,
    xargs_child_pos, xargs_child, child_words, find_child_verdicts, find_child_verdict,
    spec_evaluate_command_at_depth, lemma_find_strictest_child, lemma_find_child_verdict_valid,
    is_first_deny, is_last_ask, no_deny, no_ask, valid_outcome,
};
use crate::rules::{spec_psql_verdict, psql_words_from, drop_at, drop_db_at, has_drop, is_deny, is_ask};
use crate::normalize::{spec_strip_git_flags, strip_git_from, lemma_strip_git_past};

verus! {

/// No word of `t` starts with `-`.
pub open spec fn no_dash_words(t: Seq<Seq<char>>) -> bool {
    forall|i: int| 0 <= i < t.len() ==> !(#[trigger] t[i].len() > 0 && t[i][0] == '-')
}

/// No character of `s` is `/`.
pub open spec fn slash_free(s: Seq<char>) -> bool {
    forall|i: int| 0 <= i < s.len() ==> #[trigger] s[i] != '/'
}

/// The part after the last `/` of `x` followed by a slash-free `n` ends in `n`.
proof fn lemma_after_last_slash_append(x: Seq<char>, n: Seq<char>)
    requires
        slash_free(n),
    ensures
        after_last_slash(x + n) == after_last_slash(x) + n,
    decreases n.len(),
{
    if n.len() == 0 {
        assert(x + n =~= x);
        assert(after_last_slash(x) + n =~= after_last_slash(x));
    } else {
        let xn = x + n;
        assert(xn.last() == n.last());
        assert(xn.drop_last() =~= x + n.drop_last());
        lemma_after_last_slash_append(x, n.drop_last());
        assert(after_last_slash(x) + n.drop_last() + seq![n.last()] =~= after_last_slash(x) + n);
        assert((after_last_slash(x) + n.drop_last()).push(n.last()) =~= after_last_slash(x) + n);
    }
}

/// The shell names hold no `/`.
proof fn lemma_shell_names_slash_free()
    ensures
        slash_free("bash"@),
        slash_free("sh"@),
        slash_free("zsh"@),
        slash_free("fish"@),
        slash_free("dash"@),
        slash_free("ksh"@),
{
    reveal_strlit("bash");
    reveal_strlit("sh");
    reveal_strlit("zsh");
    reveal_strlit("fish");
    reveal_strlit("dash");
    reveal_strlit("ksh");
}

/// `<shell> -c <command> ...` is unwrapped to `<command>` for the shells bash,
/// sh, zsh, fish, dash and ksh, named by themselves or by any path ending in
/// `/<shell>`; and whatever is unwrapped is the third word of a `-c` call.
pub proof fn lemma_shell_wrappers_unwrapped(t: Seq<Seq<char>>, dir: Seq<char>, name: Seq<char>)
    ensures
        t.len() >= 3 && t[1] == "-c"@ && (name == "bash"@ || name == "sh"@ || name == "zsh"@
            || name == "fish"@ || name == "dash"@ || name == "ksh"@) && (t[0] == name || t[0]
            == dir + seq!['/'] + name) ==> spec_unwrap_shell(t) == Some(t[2]),
        spec_unwrap_shell(t) matches Some(inner) ==> t.len() >= 3 && t[1] == "-c"@ && inner
            == t[2],
        t.len() >= 3 && slash_free(t[0]) && !(t[0] == "bash"@ || t[0] == "sh"@ || t[0] == "zsh"@
            || t[0] == "fish"@ || t[0] == "dash"@ || t[0] == "ksh"@) ==> spec_unwrap_shell(t)
            is None,
{
    lemma_shell_names_slash_free();
    let e = Seq::<char>::empty();
    if name == "bash"@ || name == "sh"@ || name == "zsh"@ || name == "fish"@ || name == "dash"@
        || name == "ksh"@ {
        lemma_after_last_slash_append(e, name);
        assert(e + name =~= name);
        lemma_after_last_slash_append(dir + seq!['/'], name);
        assert((dir + seq!['/']).last() == '/');
        assert(after_last_slash(dir + seq!['/']) =~= e);
        assert(dir + seq!['/'] + name =~= (dir + seq!['/']) + name);
    }
    if t.len() > 0 && slash_free(t[0]) {
        lemma_after_last_slash_append(e, t[0]);
        assert(e + t[0] =~= t[0]);
    }
}

/// For docker/podman words with their global flags stripped, `<object> prune`
/// asks for confirmation for each of image, container, volume, network, builder
/// and buildx; `system prune` is denied with `--all` and asks without any flag;
/// other second words pass.
pub proof fn lemma_docker_prune_rules(t: Seq<Seq<char>>)
    ensures
        t.len() >= 3 && t[2] == "prune"@ && (t[1] == "image"@ || t[1] == "container"@ || t[1]
            == "volume"@ || t[1] == "network"@ || t[1] == "builder"@ || t[1] == "buildx"@)
            ==> spec_docker_rules(t) == Some(("ask"@, "prune — removes unused resources"@)),
        t.len() >= 3 && t[1] == "system"@ && t[2] == "prune"@ && (t.contains("--all"@)
            || spec_has_short_flag_char(t, 'a')) ==> spec_docker_rules(t) == Some(
            ("deny"@, "system prune --all blocked — removes all unused resources"@),
        ),
        t.len() >= 3 && t[1] == "system"@ && t[2] == "prune"@ && no_dash_words(t)
            ==> spec_docker_rules(t) == Some(
            ("ask"@, "system prune — removes dangling resources"@),
        ),
        t.len() >= 3 && !(t[1] == "system"@ || t[1] == "image"@ || t[1] == "container"@ || t[1]
            == "volume"@ || t[1] == "network"@ || t[1] == "builder"@ || t[1] == "buildx"@)
            ==> spec_docker_rules(t) is None,
        t.len() < 3 || t[2] != "prune"@ ==> spec_docker_rules(t) is None,
{
    reveal_strlit("system");
    reveal_strlit("image");
    reveal_strlit("container");
    reveal_strlit("volume");
    reveal_strlit("network");
    reveal_strlit("builder");
    reveal_strlit("buildx");
    assert("system"@.len() == 6 && "system"@[0] == 's');
    assert("image"@.len() == 5);
    assert("container"@.len() == 9);
    assert("volume"@.len() == 6 && "volume"@[0] == 'v');
    assert("network"@.len() == 7);
    assert("builder"@.len() == 7);
    assert("buildx"@.len() == 6 && "buildx"@[0] == 'b');
    if t.len() >= 3 && t[1] == "system"@ && t[2] == "prune"@ && no_dash_words(t) {
        reveal_strlit("--all");
        assert("--all"@[0] == '-');
        if t.contains("--all"@) {
            let i = choose|i: int| 0 <= i < t.len() && t[i] == "--all"@;
            assert(t[i].len() > 0 && t[i][0] == '-');
        }
        assert(!spec_has_short_flag_char(t, 'a')) by {
            if spec_has_short_flag_char(t, 'a') {
                let i = choose|i: int|
                    0 <= i < t.len() && (forall|j: int| 0 <= j <= i ==> t[j] != "--"@)
                        && #[trigger] crate::flags::is_short_flag_with(t[i], 'a');
                assert(t[i].len() > 0 && t[i][0] == '-');
            }
        }
    }
}

/// The docker/podman global flags that take an argument: none holds `=`.
proof fn lemma_docker_arg_flag_words(f: Seq<char>)
    requires
        f == "-H"@ || f == "--host"@ || f == "--config"@ || f == "-c"@ || f == "--context"@ || f
            == "-l"@ || f == "--log-level"@ || f == "--tlscacert"@ || f == "--tlscert"@ || f
            == "--tlskey"@,
    ensures
        f.len() > 0 && f[0] == '-',
        !f.contains('='),
{
    reveal_strlit("-H");
    reveal_strlit("--host");
    reveal_strlit("--config");
    reveal_strlit("-c");
    reveal_strlit("--context");
    reveal_strlit("-l");
    reveal_strlit("--log-level");
    reveal_strlit("--tlscacert");
    reveal_strlit("--tlscert");
    reveal_strlit("--tlskey");
    assert forall|i: int| 0 <= i < f.len() implies f[i] != '=' by {}
}

/// Where the docker/podman subcommand is found depends only on the words from
/// the reading position on.
proof fn lemma_docker_pos_suffix(s1: Seq<Seq<char>>, k1: int, s2: Seq<Seq<char>>, k2: int)
    requires
        0 <= k1 <= s1.len(),
        0 <= k2 <= s2.len(),
        s1.subrange(k1, s1.len() as int) == s2.subrange(k2, s2.len() as int),
    ensures
        docker_subcommand_pos(s1, k1) - k1 == docker_subcommand_pos(s2, k2) - k2,
    decreases s1.len() - k1,
{
    let r1 = s1.subrange(k1, s1.len() as int);
    let r2 = s2.subrange(k2, s2.len() as int);
    assert(r1.len() == r2.len());
    if k1 < s1.len() {
        assert(r1[0] == s1[k1] && r2[0] == s2[k2]);
        assert(s1[k1] == s2[k2]);
        assert(r1.drop_first() =~= s1.subrange(k1 + 1, s1.len() as int));
        assert(r2.drop_first() =~= s2.subrange(k2 + 1, s2.len() as int));
        lemma_docker_pos_suffix(s1, k1 + 1, s2, k2 + 1);
        if k1 + 2 <= s1.len() {
            assert(s1.subrange(k1 + 1, s1.len() as int).drop_first() =~= s1.subrange(
                k1 + 2,
                s1.len() as int,
            ));
            assert(s2.subrange(k2 + 1, s2.len() as int).drop_first() =~= s2.subrange(
                k2 + 2,
                s2.len() as int,
            ));
            lemma_docker_pos_suffix(s1, k1 + 2, s2, k2 + 2);
        } else {
            assert(docker_subcommand_pos(s1, k1 + 2) == k1 + 2);
            assert(docker_subcommand_pos(s2, k2 + 2) == k2 + 2);
        }
        if !crate::flags::starts_with_dash(s1[k1]) {
            assert(docker_subcommand_pos(s1, k1) == k1);
            assert(docker_subcommand_pos(s2, k2) == k2);
        }
    } else {
        assert(docker_subcommand_pos(s1, k1) == k1);
        assert(docker_subcommand_pos(s2, k2) == k2);
    }
}

/// Stripping docker/podman global flags removes an argument-taking flag (-H,
/// --host, --config, -c, --context, -l, --log-level, --tlscacert, --tlscert,
/// --tlskey) together with its value, a `--flag=value` word, and any other
/// flag word alone, when they stand before the subcommand; the subcommand and
/// everything after it are kept.
pub proof fn lemma_docker_global_flags_stripped(
    p: Seq<char>,
    f: Seq<char>,
    v: Seq<char>,
    rest: Seq<Seq<char>>,
)
    ensures
        (f == "-H"@ || f == "--host"@ || f == "--config"@ || f == "-c"@ || f == "--context"@ || f
            == "-l"@ || f == "--log-level"@ || f == "--tlscacert"@ || f == "--tlscert"@ || f
            == "--tlskey"@) ==> spec_strip_docker_flags(seq![p, f, v] + rest)
            == spec_strip_docker_flags(seq![p] + rest),
        f.len() > 0 && f[0] == '-' && f.contains('=') ==> spec_strip_docker_flags(
            seq![p, f] + rest,
        ) == spec_strip_docker_flags(seq![p] + rest),
        f.len() > 0 && f[0] == '-' && !f.contains('=') && !(f == "-H"@ || f == "--host"@ || f
            == "--config"@ || f == "-c"@ || f == "--context"@ || f == "-l"@ || f
            == "--log-level"@ || f == "--tlscacert"@ || f == "--tlscert"@ || f == "--tlskey"@)
            ==> spec_strip_docker_flags(seq![p, f] + rest) == spec_strip_docker_flags(
            seq![p] + rest,
        ),
        rest.len() == 0 || !(rest[0].len() > 0 && rest[0][0] == '-') ==> spec_strip_docker_flags(
            seq![p] + rest,
        ) == seq![p] + rest,
{
    let t = seq![p] + rest;
    let t2 = seq![p, f] + rest;
    let t3 = seq![p, f, v] + rest;
    assert(t.subrange(1, t.len() as int) =~= rest);
    assert(t2.subrange(2, t2.len() as int) =~= rest);
    assert(t3.subrange(3, t3.len() as int) =~= rest);
    assert(t[0] == p && t2[0] == p && t3[0] == p && t2[1] == f && t3[1] == f);
    lemma_docker_pos_suffix(t, 1, t2, 2);
    lemma_docker_pos_suffix(t, 1, t3, 3);
    let q = docker_subcommand_pos(t, 1);
    crate::normalize::lemma_docker_pos(t, 1);
    if q <= t.len() {
        assert(t2.subrange(q + 1, t2.len() as int) =~= t.subrange(q, t.len() as int));
        assert(t3.subrange(q + 2, t3.len() as int) =~= t.subrange(q, t.len() as int));
    }
    if f == "-H"@ || f == "--host"@ || f == "--config"@ || f == "-c"@ || f == "--context"@ || f
        == "-l"@ || f == "--log-level"@ || f == "--tlscacert"@ || f == "--tlscert"@ || f
        == "--tlskey"@ {
        lemma_docker_arg_flag_words(f);
        assert(docker_subcommand_pos(t3, 1) == docker_subcommand_pos(t3, 3));
    }
    if rest.len() == 0 || !(rest[0].len() > 0 && rest[0][0] == '-') {
        if rest.len() > 0 {
            assert(t[1] == rest[0]);
        }
        assert(q == 1);
        assert(t.subrange(1, t.len() as int) =~= rest);
        assert(seq![p] + rest =~= t);
    }
}

/// The global flags of docker and podman before the subcommand, an
/// argument-taking flag with its value, do not change the verdict.
pub proof fn lemma_docker_flag_verdict(p: Seq<char>, f: Seq<char>, v: Seq<char>, rest: Seq<Seq<char>>)
    requires
        p == "docker"@ || p == "podman"@,
        f == "-H"@ || f == "--host"@ || f == "--config"@ || f == "-c"@ || f == "--context"@ || f
            == "-l"@ || f == "--log-level"@ || f == "--tlscacert"@ || f == "--tlscert"@ || f
            == "--tlskey"@,
    ensures
        spec_evaluate_general(seq![p, f, v] + rest) == spec_evaluate_general(seq![p] + rest),
{
    lemma_docker_global_flags_stripped(p, f, v, rest);
    lemma_command_names();
    assert((seq![p, f, v] + rest)[0] == p);
    assert((seq![p] + rest)[0] == p);
}

/// The command names the general rules look at are distinct.
pub proof fn lemma_command_names()
    ensures
        "rm"@.len() == 2,
        "find"@.len() == 4 && "find"@[0] == 'f',
        "psql"@.len() == 4 && "psql"@[0] == 'p',
        "docker"@.len() == 6 && "docker"@[0] == 'd',
        "podman"@.len() == 6 && "podman"@[0] == 'p',
        "git"@.len() == 3,
        "xargs"@.len() == 5,
{
    reveal_strlit("rm");
    reveal_strlit("find");
    reveal_strlit("psql");
    reveal_strlit("docker");
    reveal_strlit("podman");
    reveal_strlit("git");
    reveal_strlit("xargs");
}

/// A `prune` of one of docker's or podman's object kinds asks for
/// confirmation, judged from the whole command.
pub proof fn lemma_docker_prune_verdict(p: Seq<char>, obj: Seq<char>, rest: Seq<Seq<char>>)
    requires
        p == "docker"@ || p == "podman"@,
        obj == "image"@ || obj == "container"@ || obj == "volume"@ || obj == "network"@ || obj
            == "builder"@ || obj == "buildx"@,
    ensures
        spec_evaluate_general(seq![p, obj, "prune"@] + rest) == Some(
            ("ask"@, "prune — removes unused resources"@),
        ),
{
    let t = seq![p, obj, "prune"@] + rest;
    lemma_command_names();
    reveal_strlit("image");
    reveal_strlit("container");
    reveal_strlit("volume");
    reveal_strlit("network");
    reveal_strlit("builder");
    reveal_strlit("buildx");
    assert(t[0] == p && t[1] == obj && t[2] == "prune"@);
    assert(!(obj.len() > 0 && obj[0] == '-'));
    lemma_docker_global_flags_stripped(p, obj, obj, seq![obj, "prune"@] + rest);
    assert(seq![p] + (seq![obj, "prune"@] + rest) =~= t);
    lemma_docker_prune_rules(t);
}

/// Xargs judges its child command: after an `xargs` word, an argument-taking
/// flag (-I, -n, -d, -P, -L, -s, -a, -E) is skipped with its argument and any
/// other flag alone, and the verdict is the verdict on the words that follow.
pub proof fn lemma_xargs_child_judged(
    pre: Seq<Seq<char>>,
    f: Seq<char>,
    a: Seq<char>,
    child: Seq<Seq<char>>,
)
    requires
        !pre.contains("xargs"@),
        child.len() > 0,
        !(child[0].len() > 0 && child[0][0] == '-'),
    ensures
        spec_evaluate_xargs(pre + seq!["xargs"@] + child) == spec_evaluate_words(child),
        (f == "-I"@ || f == "-n"@ || f == "-d"@ || f == "-P"@ || f == "-L"@ || f == "-s"@ || f
            == "-a"@ || f == "-E"@) ==> spec_evaluate_xargs(pre + seq!["xargs"@, f, a] + child)
            == spec_evaluate_words(child),
        f.len() > 0 && f[0] == '-' && !(f == "-I"@ || f == "-n"@ || f == "-d"@ || f == "-P"@ || f
            == "-L"@ || f == "-s"@ || f == "-a"@ || f == "-E"@) ==> spec_evaluate_xargs(
            pre + seq!["xargs"@, f] + child,
        ) == spec_evaluate_words(child),
{
    let n = pre.len() as int;
    let t1 = pre + seq!["xargs"@] + child;
    let t2 = pre + seq!["xargs"@, f] + child;
    let t3 = pre + seq!["xargs"@, f, a] + child;
    assert forall|k: int| 0 <= k < n implies t1[k] != "xargs"@ && t2[k] != "xargs"@ && t3[k]
        != "xargs"@ by {
        assert(t1[k] == pre[k] && t2[k] == pre[k] && t3[k] == pre[k]);
    }
    assert(t1[n] == "xargs"@ && t2[n] == "xargs"@ && t3[n] == "xargs"@);
    lemma_index_of_first(t1, "xargs"@, 0, n);
    lemma_index_of_first(t2, "xargs"@, 0, n);
    lemma_index_of_first(t3, "xargs"@, 0, n);
    assert(t1[n + 1] == child[0]);
    assert(t2[n + 2] == child[0] && t2[n + 1] == f);
    assert(t3[n + 3] == child[0] && t3[n + 1] == f);
    assert(t1.subrange(n + 1, t1.len() as int) =~= child);
    assert(t2.subrange(n + 2, t2.len() as int) =~= child);
    assert(t3.subrange(n + 3, t3.len() as int) =~= child);
    assert(xargs_child_pos(t1, n + 1) == n + 1);
    assert(xargs_child(t1, n) == child);
    if f == "-I"@ || f == "-n"@ || f == "-d"@ || f == "-P"@ || f == "-L"@ || f == "-s"@ || f
        == "-a"@ || f == "-E"@ {
        lemma_xargs_flag_words(f);
        assert(xargs_child_pos(t3, n + 3) == n + 3);
        assert(xargs_child_pos(t3, n + 1) == n + 3);
        assert(xargs_child(t3, n) == child);
    }
    if f.len() > 0 && f[0] == '-' && !(f == "-I"@ || f == "-n"@ || f == "-d"@ || f == "-P"@ || f
        == "-L"@ || f == "-s"@ || f == "-a"@ || f == "-E"@) {
        assert(xargs_child_pos(t2, n + 2) == n + 2);
        assert(xargs_child_pos(t2, n + 1) == n + 2);
        assert(xargs_child(t2, n) == child);
    }
}

/// Xargs' argument-taking flags start with `-`.
proof fn lemma_xargs_flag_words(f: Seq<char>)
    requires
        f == "-I"@ || f == "-n"@ || f == "-d"@ || f == "-P"@ || f == "-L"@ || f == "-s"@ || f
            == "-a"@ || f == "-E"@,
    ensures
        f.len() > 0 && f[0] == '-',
{
    reveal_strlit("-I");
    reveal_strlit("-n");
    reveal_strlit("-d");
    reveal_strlit("-P");
    reveal_strlit("-L");
    reveal_strlit("-s");
    reveal_strlit("-a");
    reveal_strlit("-E");
}

/// The search for a word from `i` finds `p` when `p` holds it and nothing in
/// between does.
proof fn lemma_index_of_first(t: Seq<Seq<char>>, w: Seq<char>, i: int, p: int)
    requires
        0 <= i <= p < t.len(),
        t[p] == w,
        forall|k: int| i <= k < p ==> t[k] != w,
    ensures
        index_of_from(t, w, i) == Some(p),
    decreases p - i,
{
    if i < p {
        lemma_index_of_first(t, w, i + 1, p);
    }
}

/// Without an `xargs` word there is no xargs verdict.
pub proof fn lemma_no_xargs(t: Seq<Seq<char>>)
    requires
        !t.contains("xargs"@),
    ensures
        spec_evaluate_xargs(t) is None,
{
    crate::policy::lemma_index_of_from(t, "xargs"@, 0);
}

/// A short-flag word holding `ch` is found exactly when some word before the
/// first `--` starts with `-`, has no second `-`, and holds `ch`; a force flag
/// is `--force` or such a word holding `f`.
pub proof fn lemma_short_flag_meaning(t: Seq<Seq<char>>, ch: char)
    ensures
        spec_has_short_flag_char(t, ch) <==> exists|i: int|
            0 <= i < t.len() && (forall|j: int| 0 <= j <= i ==> t[j] != "--"@) && #[trigger] t[i].len()
                > 0 && t[i][0] == '-' && !(t[i].len() >= 2 && t[i][1] == '-') && t[i].contains(ch),
        spec_has_force_flag(t) <==> t.contains("--force"@) || spec_has_short_flag_char(t, 'f'),
{
    if spec_has_short_flag_char(t, ch) {
        let i = choose|i: int|
            0 <= i < t.len() && (forall|j: int| 0 <= j <= i ==> t[j] != "--"@)
                && #[trigger] is_short_flag_with(t[i], ch);
        assert(t[i].len() > 0);
    }
    if exists|i: int|
        0 <= i < t.len() && (forall|j: int| 0 <= j <= i ==> t[j] != "--"@) && #[trigger] t[i].len()
            > 0 && t[i][0] == '-' && !(t[i].len() >= 2 && t[i][1] == '-') && t[i].contains(ch) {
        let i = choose|i: int|
            0 <= i < t.len() && (forall|j: int| 0 <= j <= i ==> t[j] != "--"@) && #[trigger] t[i].len()
                > 0 && t[i][0] == '-' && !(t[i].len() >= 2 && t[i][1] == '-') && t[i].contains(ch);
        assert(is_short_flag_with(t[i], ch));
    }
}

/// Words none of which starts with `-` hold no flag the rules look for.
pub proof fn lemma_plain_words(t: Seq<Seq<char>>)
    requires
        no_dash_words(t),
    ensures
        forall|ch: char| !spec_has_short_flag_char(t, ch),
        !spec_has_force_flag(t),
        !t.contains("--all"@),
        !t.contains("--force"@),
        !t.contains("--mirror"@),
        !t.contains("--delete"@),
        !t.contains("--hard"@),
        !t.contains("--staged"@),
        !t.contains("--worktree"@),
        !t.contains("--recursive"@),
        !t.contains("-delete"@),
        !any_has_prefix(t, "--force-with-lease"@),
{
    reveal_strlit("--all");
    reveal_strlit("--force");
    reveal_strlit("--mirror");
    reveal_strlit("--delete");
    reveal_strlit("--hard");
    reveal_strlit("--staged");
    reveal_strlit("--worktree");
    reveal_strlit("--recursive");
    reveal_strlit("-delete");
    reveal_strlit("--force-with-lease");
    assert("--all"@[0] == '-' && "--force"@[0] == '-' && "--mirror"@[0] == '-' && "--delete"@[0]
        == '-' && "--hard"@[0] == '-' && "--staged"@[0] == '-' && "--worktree"@[0] == '-'
        && "--recursive"@[0] == '-' && "-delete"@[0] == '-');
    assert("--force-with-lease"@.len() == 18 && "--force-with-lease"@[0] == '-');
    assert forall|w: Seq<char>| w.len() > 0 && w[0] == '-' implies !t.contains(w) by {
        if t.contains(w) {
            let i = choose|i: int| 0 <= i < t.len() && t[i] == w;
            assert(t[i].len() > 0 && t[i][0] == '-');
        }
    }
    assert forall|ch: char| !spec_has_short_flag_char(t, ch) by {
        if spec_has_short_flag_char(t, ch) {
            let i = choose|i: int|
                0 <= i < t.len() && (forall|j: int| 0 <= j <= i ==> t[j] != "--"@)
                    && #[trigger] is_short_flag_with(t[i], ch);
            assert(t[i].len() > 0 && t[i][0] == '-');
        }
    }
    if any_has_prefix(t, "--force-with-lease"@) {
        let i = choose|i: int| 0 <= i < t.len() && #[trigger] has_prefix(t[i], "--force-with-lease"@);
        assert(t[i].subrange(0, 18)[0] == t[i][0]);
        assert(t[i].len() > 0 && t[i][0] == '-');
    }
    assert(!t.contains("--force"@));
}

/// The git rules on `git add`: `--all` or a short flag holding `A` is denied;
/// otherwise staging `.` or `./` asks; plain paths pass.
pub proof fn lemma_git_add_rule(t: Seq<Seq<char>>)
    requires
        t.len() >= 2,
        t[0] == "git"@,
        t[1] == "add"@,
    ensures
        t.contains("--all"@) || spec_has_short_flag_char(t, 'A') ==> spec_evaluate_git(t) == Some(
            ("deny"@, "git add -A/--all blocked by policy"@),
        ),
        no_dash_words(t) && (t.contains("."@) || t.contains("./"@)) ==> spec_evaluate_git(t)
            == Some(("ask"@, "git add . — stages all changes in current directory"@)),
        no_dash_words(t) && !t.contains("."@) && !t.contains("./"@) ==> spec_evaluate_git(t)
            is None,
{
    lemma_git_subcommands();
    if no_dash_words(t) {
        lemma_plain_words(t);
    }
}

/// The git rules on `git push`: forcing (`--force`, a short flag holding `f`,
/// `--force-with-lease[=...]`, `--mirror`) is denied; deleting a remote ref
/// (`--delete` or `-d`) asks; a plain push asks too.
pub proof fn lemma_git_push_rule(t: Seq<Seq<char>>, d: Seq<char>, rest: Seq<Seq<char>>)
    requires
        t.len() >= 2,
        t[0] == "git"@,
        t[1] == "push"@,
    ensures
        t.contains("--force"@) || t.contains("--mirror"@) || spec_has_short_flag_char(t, 'f')
            || (exists|i: int| 0 <= i < t.len() && #[trigger] has_prefix(t[i], "--force-with-lease"@))
            ==> spec_evaluate_git(t) == Some(
            ("deny"@, "Force push blocked — remote history rewrite"@),
        ),
        no_dash_words(t) ==> spec_evaluate_git(t) == Some(("ask"@, "Confirm: push to remote?"@)),
        (d == "--delete"@ || d == "-d"@) && no_dash_words(rest) ==> spec_evaluate_git(
            seq!["git"@, "push"@, d] + rest,
        ) == Some(("ask"@, "Confirm: delete remote ref?"@)),
{
    lemma_git_subcommands();
    lemma_short_flag_meaning(t, 'f');
    if no_dash_words(t) {
        lemma_plain_words(t);
    }
    if d == "--delete"@ || d == "-d"@ {
        let u = seq!["git"@, "push"@, d] + rest;
        assert(u[0] == "git"@ && u[1] == "push"@ && u[2] == d);
        reveal_strlit("--delete");
        reveal_strlit("-d");
        reveal_strlit("--force");
        reveal_strlit("--mirror");
        reveal_strlit("git");
        reveal_strlit("push");
        assert(u[0].len() == 3 && u[1].len() == 4 && u[1][0] == 'p');
        if no_dash_words(rest) {
            assert forall|i: int| 3 <= i < u.len() implies !(#[trigger] u[i].len() > 0 && u[i][0] == '-') by {
                assert(u[i] == rest[i - 3]);
            }
            assert(!u.contains("--force"@)) by {
                if u.contains("--force"@) {
                    let i = choose|i: int| 0 <= i < u.len() && u[i] == "--force"@;
                    assert("--force"@.len() == 7 && "--force"@[0] == '-');
                    if i >= 3 {
                        assert(u[i].len() > 0 && u[i][0] == '-');
                    }
                }
            }
            assert(!u.contains("--mirror"@)) by {
                if u.contains("--mirror"@) {
                    let i = choose|i: int| 0 <= i < u.len() && u[i] == "--mirror"@;
                    assert("--mirror"@.len() == 8 && "--mirror"@[0] == '-' && "--mirror"@[2] == 'm');
                    assert("--delete"@.len() == 8 && "--delete"@[2] == 'd');
                    if i >= 3 {
                        assert(u[i].len() > 0 && u[i][0] == '-');
                    }
                }
            }
            assert(u.subrange(3, u.len() as int) =~= rest);
            lemma_push_delete_not_forced(u, rest);
        }
    }
}

proof fn lemma_push_delete_not_forced(u: Seq<Seq<char>>, rest: Seq<Seq<char>>)
    requires
        u.len() >= 3,
        u.subrange(3, u.len() as int) == rest,
        u[0] == "git"@,
        u[1] == "push"@,
        u[2] == "--delete"@ || u[2] == "-d"@,
        no_dash_words(rest),
    ensures
        !spec_has_short_flag_char(u, 'f'),
        !any_has_prefix(u, "--force-with-lease"@),
        u.contains("--delete"@) || spec_has_short_flag_char(u, 'd'),
{
    reveal_strlit("--delete");
    reveal_strlit("-d");
    reveal_strlit("git");
    reveal_strlit("push");
    reveal_strlit("--force-with-lease");
    reveal_strlit("--");
    assert("--force-with-lease"@.len() == 18);
    assert forall|i: int| 3 <= i < u.len() implies !(#[trigger] u[i].len() > 0 && u[i][0] == '-') by {
        assert(u[i] == rest[i - 3]);
    }
    assert("--"@.len() == 2 && "--"@[1] == '-' && "-d"@.len() == 2 && "-d"@[1] == 'd');
    assert("--delete"@.len() == 8);
    assert(u[0] != "--"@ && u[1] != "--"@ && u[2] != "--"@);
    if spec_has_short_flag_char(u, 'f') {
        let i = choose|i: int|
            0 <= i < u.len() && (forall|j: int| 0 <= j <= i ==> u[j] != "--"@)
                && #[trigger] is_short_flag_with(u[i], 'f');
        assert(i == 2);
        assert(!u[2].contains('f'));
    }
    if any_has_prefix(u, "--force-with-lease"@) {
        let i = choose|i: int| 0 <= i < u.len() && #[trigger] has_prefix(u[i], "--force-with-lease"@);
        assert(u[i].subrange(0, 18)[0] == u[i][0]);
        assert(u[i].len() >= 18);
    }
    if u[2] == "-d"@ {
        assert(u[2][1] == 'd');
        assert(u[2].contains('d'));
        assert(is_short_flag_with(u[2], 'd'));
    }
}

/// The git rules on `git stash`, `git reset` and `git branch`: `stash clear`
/// is denied, `reset --hard` asks, a short flag holding `D` on `branch` asks;
/// without those words they pass.
pub proof fn lemma_git_stash_reset_branch_rules(t: Seq<Seq<char>>)
    requires
        t.len() >= 2,
        t[0] == "git"@,
    ensures
        t[1] == "stash"@ ==> spec_evaluate_git(t) == (if t.contains("clear"@) {
            Some(("deny"@, "git stash clear blocked — permanent loss"@))
        } else {
            None
        }),
        t[1] == "reset"@ ==> spec_evaluate_git(t) == (if t.contains("--hard"@) {
            Some(("ask"@, "git reset --hard — recoverable via reflog"@))
        } else {
            None
        }),
        t[1] == "branch"@ ==> spec_evaluate_git(t) == (if spec_has_short_flag_char(t, 'D') {
            Some(("ask"@, "git branch -D — recoverable via reflog"@))
        } else {
            None
        }),
{
    lemma_git_subcommands();
}

/// The git rules on `git checkout` and `git restore`: checking out `.` or `./`
/// asks, as does a forced checkout; restoring `.` or `./` asks unless it only
/// unstages (`--staged` without `--worktree`).
pub proof fn lemma_git_checkout_restore_rules(t: Seq<Seq<char>>)
    requires
        t.len() >= 2,
        t[0] == "git"@,
    ensures
        t[1] == "checkout"@ ==> spec_evaluate_git(t) == (if t.contains("."@) || t.contains("./"@) {
            Some(("ask"@, "git checkout . — discards uncommitted changes"@))
        } else if t.contains("--force"@) || spec_has_short_flag_char(t, 'f') {
            Some(("ask"@, "git checkout --force — discards local modifications"@))
        } else {
            None
        }),
        t[1] == "restore"@ ==> spec_evaluate_git(t) == (if (t.contains("."@) || t.contains("./"@))
            && (!t.contains("--staged"@) || t.contains("--worktree"@)) {
            Some(("ask"@, "git restore . — discards uncommitted changes"@))
        } else {
            None
        }),
{
    lemma_git_subcommands();
}

/// Git commands whose subcommand has no rule pass, and the git rules see only
/// commands that start with `git`.
pub proof fn lemma_git_other_commands(t: Seq<Seq<char>>)
    ensures
        t.len() >= 2 && t[0] == "git"@ && !(t[1].len() > 0 && t[1][0] == '-') && !(t[1] == "add"@
            || t[1] == "push"@ || t[1] == "stash"@ || t[1] == "reset"@ || t[1] == "clean"@ || t[1]
            == "checkout"@ || t[1] == "restore"@ || t[1] == "branch"@) ==> spec_evaluate_git(t)
            is None,
        t.len() == 0 || t[0] != "git"@ ==> spec_evaluate_git(t) is None,
{
}

/// The rm rules: a recursive (`--recursive`, or a short flag holding `r` or
/// `R`) and forced (`--force`, or a short flag holding `f`) removal is denied, a
/// recursive one asks, any other passes.
pub proof fn lemma_rm_rules(t: Seq<Seq<char>>)
    requires
        t.len() > 0,
        t[0] == "rm"@,
    ensures
        ({
            let recursive = t.contains("--recursive"@) || spec_has_short_flag_char(t, 'r')
                || spec_has_short_flag_char(t, 'R');
            let force = t.contains("--force"@) || spec_has_short_flag_char(t, 'f');
            spec_evaluate_general(t) == if recursive && force {
                Some(("deny"@, "rm -rf blocked — recursive forced deletion"@))
            } else if recursive {
                Some(("ask"@, "rm -r — confirm recursive deletion?"@))
            } else {
                None
            }
        }),
{
    lemma_short_flag_meaning(t, 'f');
}

/// The psql rules on the uppercased words: `DROP DATABASE` or `DROP SCHEMA`
/// anywhere is denied; otherwise `DROP TABLE` or `TRUNCATE` asks; otherwise the
/// command passes.
pub proof fn lemma_psql_rules(w: Seq<Seq<char>>)
    ensures
        spec_psql_verdict(w) == if exists|j: int|
            0 <= j && j + 1 < w.len() && #[trigger] w[j] == "DROP"@ && (w[j + 1] == "DATABASE"@
                || w[j + 1] == "SCHEMA"@) {
            Some(("deny"@, "DROP DATABASE/SCHEMA blocked — data loss"@))
        } else if (exists|j: int|
            0 <= j && j + 1 < w.len() && #[trigger] w[j] == "DROP"@ && w[j + 1] == "TABLE"@)
            || w.contains("TRUNCATE"@) {
            Some(("ask"@, "DROP TABLE/TRUNCATE — confirm?"@))
        } else {
            None
        },
{
    if exists|j: int|
        0 <= j && j + 1 < w.len() && #[trigger] w[j] == "DROP"@ && (w[j + 1] == "DATABASE"@ || w[j
            + 1] == "SCHEMA"@) {
        let j = choose|j: int|
            0 <= j && j + 1 < w.len() && #[trigger] w[j] == "DROP"@ && (w[j + 1] == "DATABASE"@
                || w[j + 1] == "SCHEMA"@);
        assert(drop_db_at(w, j));
        assert(drop_at(w, j, "DATABASE"@) || drop_at(w, j, "SCHEMA"@));
    }
    if has_drop(w, "DATABASE"@) {
        let j = choose|j: int| #[trigger] drop_at(w, j, "DATABASE"@);
        assert(w[j] == "DROP"@);
    }
    if has_drop(w, "SCHEMA"@) {
        let j = choose|j: int| #[trigger] drop_at(w, j, "SCHEMA"@);
        assert(w[j] == "DROP"@);
    }
    if has_drop(w, "TABLE"@) {
        let j = choose|j: int| #[trigger] drop_at(w, j, "TABLE"@);
        assert(w[j] == "DROP"@);
    }
    if exists|j: int| 0 <= j && j + 1 < w.len() && #[trigger] w[j] == "DROP"@ && w[j + 1] == "TABLE"@ {
        let j = choose|j: int|
            0 <= j && j + 1 < w.len() && #[trigger] w[j] == "DROP"@ && w[j + 1] == "TABLE"@;
        assert(drop_at(w, j, "TABLE"@));
    }
}

/// A psql command is judged by the psql rules on the uppercased
/// whitespace-separated words of its arguments.
pub proof fn lemma_psql_dispatch(t: Seq<Seq<char>>)
    requires
        t.len() > 0,
        t[0] == "psql"@,
    ensures
        spec_evaluate_general(t) == spec_psql_verdict(psql_words_from(t, 1)),
{
    lemma_command_names();
}

/// `find ... -delete` is denied; commands other than rm, find, psql, docker and
/// podman get no verdict from the general rules.
pub proof fn lemma_general_dispatch(t: Seq<Seq<char>>)
    ensures
        t.len() > 0 && t[0] == "find"@ && t.contains("-delete"@) ==> spec_evaluate_general(t)
            == Some(("deny"@, "find -delete blocked — permanent deletion"@)),
        t.len() == 0 || !(t[0] == "rm"@ || t[0] == "find"@ || t[0] == "psql"@ || t[0] == "docker"@
            || t[0] == "podman"@) ==> spec_evaluate_general(t) is None,
{
    lemma_command_names();
}

/// The words of a `find -exec` child: reading stops at `;`, `\;` or `+`, and
/// the `{}` placeholders are dropped; every other word is kept.
pub proof fn lemma_find_child_words(w: Seq<char>, s: Seq<Seq<char>>)
    ensures
        w == ";"@ || w == "\\;"@ || w == "+"@ ==> child_words(seq![w] + s) == Seq::<Seq<char>>::empty(),
        w == "{}"@ ==> child_words(seq![w] + s) == child_words(s),
        !(w == ";"@ || w == "\\;"@ || w == "+"@ || w == "{}"@) ==> child_words(seq![w] + s) == seq![w]
            + child_words(s),
{
    let u = seq![w] + s;
    assert(u[0] == w);
    assert(u.drop_first() =~= s);
    reveal_strlit("{}");
    reveal_strlit(";");
    reveal_strlit("\\;");
    reveal_strlit("+");
    assert("{}"@.len() == 2 && "{}"@[0] == '{' && "\\;"@.len() == 2 && "\\;"@[0] == '\\'
        && ";"@.len() == 1 && "+"@.len() == 1);
}

/// Words that hold none of `;`, `\;`, `+`, `{}` as a word.
pub open spec fn plain_child(c: Seq<Seq<char>>) -> bool {
    forall|k: int|
        0 <= k < c.len() ==> !(#[trigger] c[k] == ";"@ || c[k] == "\\;"@ || c[k] == "+"@ || c[k]
            == "{}"@)
}

proof fn lemma_child_words_plain(c: Seq<Seq<char>>, rest: Seq<Seq<char>>)
    requires
        plain_child(c),
        rest.len() > 0,
        rest[0] == ";"@ || rest[0] == "\\;"@ || rest[0] == "+"@,
    ensures
        child_words(c + rest) == c,
    decreases c.len(),
{
    if c.len() == 0 {
        assert(c + rest =~= rest);
        lemma_find_child_words(rest[0], rest.drop_first());
        assert(seq![rest[0]] + rest.drop_first() =~= rest);
    } else {
        assert(plain_child(c.drop_first()));
        lemma_child_words_plain(c.drop_first(), rest);
        lemma_find_child_words(c[0], c.drop_first() + rest);
        assert(seq![c[0]] + (c.drop_first() + rest) =~= c + rest);
        assert(seq![c[0]] + c.drop_first() =~= c);
    }
}

/// Words that are neither `-exec`, `-execdir` nor `-delete`.
pub open spec fn no_find_actions(c: Seq<Seq<char>>) -> bool {
    forall|k: int|
        0 <= k < c.len() ==> !(#[trigger] c[k] == "-exec"@ || c[k] == "-execdir"@ || c[k]
            == "-delete"@)
}

/// `find . -exec <child> <end> ...` (or `-execdir`), with one child ended by
/// `;`, `\;` or `+`, gets the verdict on the child: on its inner command when
/// the child is a shell wrapper, else on its words.
pub proof fn lemma_find_exec_child(
    x: Seq<char>,
    c: Seq<Seq<char>>,
    term: Seq<char>,
    post: Seq<Seq<char>>,
)
    requires
        x == "-exec"@ || x == "-execdir"@,
        term == ";"@ || term == "\\;"@ || term == "+"@,
        c.len() > 0,
        plain_child(c),
        no_find_actions(c),
        no_find_actions(post),
    ensures
        spec_evaluate_general(seq!["find"@, "."@, x] + c + seq![term] + post) == match spec_unwrap_shell(c) {
            Some(inner) => spec_evaluate_command_at_depth(inner, 0),
            None => spec_evaluate_words(c),
        },
{
    let t = seq!["find"@, "."@, x] + c + seq![term] + post;
    let n = c.len() as int;
    reveal_strlit("find");
    reveal_strlit(".");
    reveal_strlit("-exec");
    reveal_strlit("-execdir");
    reveal_strlit("-delete");
    reveal_strlit(";");
    reveal_strlit("\\;");
    reveal_strlit("+");
    assert("-exec"@.len() == 5 && "-execdir"@.len() == 8 && "-delete"@.len() == 7);
    assert("-exec"@[1] == 'e' && "-delete"@[1] == 'd');
    assert("find"@.len() == 4 && "."@.len() == 1 && ";"@.len() == 1 && "\\;"@.len() == 2
        && "+"@.len() == 1);
    assert(t[0] == "find"@ && t[1] == "."@ && t[2] == x && t[3 + n] == term);
    assert forall|k: int| 3 <= k < 3 + n implies #[trigger] t[k] == c[k - 3] by {}
    assert forall|k: int| 4 + n <= k < t.len() implies #[trigger] t[k] == post[k - 4 - n] by {}
    assert(!t.contains("-delete"@)) by {
        if t.contains("-delete"@) {
            let k = choose|k: int| 0 <= k < t.len() && t[k] == "-delete"@;
            if 3 <= k < 3 + n {
                assert(c[k - 3] == "-delete"@);
            } else if 4 + n <= k {
                assert(post[k - 4 - n] == "-delete"@);
            }
        }
    }
    assert(t.subrange(3, t.len() as int) =~= c + (seq![term] + post));
    lemma_child_words_plain(c, seq![term] + post);
    let rs = find_child_verdicts(t);
    let r = find_child_verdict(t, 2);
    assert(r == match spec_unwrap_shell(c) {
        Some(inner) => spec_evaluate_command_at_depth(inner, 0),
        None => spec_evaluate_words(c),
    });
    assert forall|k: int| 0 <= k < t.len() && k != 2 implies #[trigger] rs[k] is None by {
        if 3 <= k < 3 + n {
            assert(t[k] == c[k - 3]);
        } else if 4 + n <= k {
            assert(t[k] == post[k - 4 - n]);
        }
        assert(!crate::policy::is_exec_flag(t[k]));
    }
    lemma_find_child_verdict_valid(t, 2);
    lemma_find_strictest_child(t);
    lemma_levels_distinct();
    assert(rs[2] == r);
    if is_deny(r) {
        assert(is_first_deny(rs, 2));
    } else if is_ask(r) {
        assert(no_deny(rs));
        assert(is_last_ask(rs, 2));
    } else {
        assert(no_deny(rs) && no_ask(rs));
    }
}

/// Where git's global-flag stripping goes from a position on depends only on the
/// words from that position on.
proof fn lemma_strip_git_suffix(
    s1: Seq<Seq<char>>,
    k1: int,
    s2: Seq<Seq<char>>,
    k2: int,
    past: bool,
)
    requires
        1 <= k1 <= s1.len(),
        1 <= k2 <= s2.len(),
        s1.subrange(k1, s1.len() as int) == s2.subrange(k2, s2.len() as int),
    ensures
        strip_git_from(s1, k1, past) == strip_git_from(s2, k2, past),
    decreases s1.len() - k1,
{
    let r1 = s1.subrange(k1, s1.len() as int);
    let r2 = s2.subrange(k2, s2.len() as int);
    assert(r1.len() == r2.len());
    if k1 < s1.len() {
        assert(r1[0] == s1[k1] && r2[0] == s2[k2]);
        assert(r1.drop_first() =~= s1.subrange(k1 + 1, s1.len() as int));
        assert(r2.drop_first() =~= s2.subrange(k2 + 1, s2.len() as int));
        lemma_strip_git_suffix(s1, k1 + 1, s2, k2 + 1, past);
        lemma_strip_git_suffix(s1, k1 + 1, s2, k2 + 1, true);
        lemma_strip_git_suffix(s1, k1 + 1, s2, k2 + 1, false);
        lemma_strip_git_suffix(s1, k1 + 1, s2, k2 + 1, !crate::flags::starts_with_dash(s1[k1]));
        if k1 + 2 <= s1.len() {
            assert(s1.subrange(k1 + 1, s1.len() as int).drop_first() =~= s1.subrange(
                k1 + 2,
                s1.len() as int,
            ));
            assert(s2.subrange(k2 + 1, s2.len() as int).drop_first() =~= s2.subrange(
                k2 + 2,
                s2.len() as int,
            ));
            lemma_strip_git_suffix(s1, k1 + 2, s2, k2 + 2, past);
        } else {
            assert(strip_git_from(s1, k1 + 2, past) =~= Seq::<Seq<char>>::empty());
            assert(strip_git_from(s2, k2 + 2, past) =~= Seq::<Seq<char>>::empty());
        }
    } else {
        assert(strip_git_from(s1, k1, past) =~= Seq::<Seq<char>>::empty());
        assert(strip_git_from(s2, k2, past) =~= Seq::<Seq<char>>::empty());
    }
}

/// Git's global flags before the subcommand are removed: `-C` and `-c` with
/// their argument, `--git-dir` and `--work-tree` with theirs or as one
/// `--flag=value` word; other flags are kept; `--` and the subcommand end the
/// removal, keeping every word from there on.
pub proof fn lemma_git_global_flags_stripped(
    g: Seq<char>,
    f: Seq<char>,
    v: Seq<char>,
    rest: Seq<Seq<char>>,
)
    ensures
        f == "-C"@ || f == "-c"@ ==> spec_strip_git_flags(seq![g, f, v] + rest)
            == spec_strip_git_flags(seq![g] + rest),
        (has_prefix(f, "--git-dir"@) || has_prefix(f, "--work-tree"@)) && !f.contains('=')
            ==> spec_strip_git_flags(seq![g, f, v] + rest) == spec_strip_git_flags(seq![g] + rest),
        (has_prefix(f, "--git-dir"@) || has_prefix(f, "--work-tree"@)) && f.contains('=')
            ==> spec_strip_git_flags(seq![g, f] + rest) == spec_strip_git_flags(seq![g] + rest),
        f == "--"@ || !(f.len() > 0 && f[0] == '-') ==> spec_strip_git_flags(seq![g, f] + rest)
            == seq![g, f] + rest,
        f.len() > 0 && f[0] == '-' && !(f == "--"@ || f == "-C"@ || f == "-c"@ || has_prefix(
            f,
            "--git-dir"@,
        ) || has_prefix(f, "--work-tree"@)) ==> spec_strip_git_flags(seq![g, f] + rest) == seq![
            g,
            f,
        ] + spec_strip_git_flags(seq![g] + rest).drop_first(),
{
    let t = seq![g] + rest;
    let t2 = seq![g, f] + rest;
    let t3 = seq![g, f, v] + rest;
    assert(t.subrange(1, t.len() as int) =~= rest);
    assert(t2.subrange(2, t2.len() as int) =~= rest);
    assert(t3.subrange(3, t3.len() as int) =~= rest);
    assert(t[0] == g && t2[0] == g && t3[0] == g && t2[1] == f && t3[1] == f);
    lemma_strip_git_suffix(t, 1, t2, 2, false);
    lemma_strip_git_suffix(t, 1, t3, 3, false);
    reveal_strlit("-C");
    reveal_strlit("-c");
    reveal_strlit("--");
    reveal_strlit("--git-dir");
    reveal_strlit("--work-tree");
    assert("--"@.len() == 2 && "--"@[1] == '-' && "-C"@.len() == 2 && "-C"@[1] == 'C' && "-c"@.len()
        == 2 && "-c"@[1] == 'c');
    assert("--git-dir"@.len() == 9 && "--work-tree"@.len() == 11);
    assert(spec_strip_git_flags(t) == seq![g] + strip_git_from(t, 1, false));
    assert(spec_strip_git_flags(t2) == seq![g] + strip_git_from(t2, 1, false));
    assert(spec_strip_git_flags(t3) == seq![g] + strip_git_from(t3, 1, false));
    if f == "-C"@ || f == "-c"@ {
        assert(f != "--"@);
        assert(strip_git_from(t3, 1, false) == strip_git_from(t3, 3, false));
    }
    if has_prefix(f, "--git-dir"@) || has_prefix(f, "--work-tree"@) {
        assert(f.len() >= 9);
        assert(f != "--"@ && f != "-C"@ && f != "-c"@);
        if f.contains('=') {
            assert(strip_git_from(t2, 1, false) == strip_git_from(t2, 2, false));
        } else {
            assert(strip_git_from(t3, 1, false) == strip_git_from(t3, 3, false));
        }
    }
    if f == "--"@ || !(f.len() > 0 && f[0] == '-') {
        if has_prefix(f, "--git-dir"@) {
            assert(f.subrange(0, 9)[0] == f[0]);
        }
        if has_prefix(f, "--work-tree"@) {
            assert(f.subrange(0, 11)[0] == f[0]);
        }
        lemma_strip_git_past(t2, 2);
        assert(f != "-C"@ && f != "-c"@);
        assert(strip_git_from(t2, 1, false) == seq![f] + strip_git_from(t2, 2, true));
        assert(seq![g, f] + rest =~= seq![g] + (seq![f] + t2.subrange(2, t2.len() as int)));
    }
    if f.len() > 0 && f[0] == '-' && !(f == "--"@ || f == "-C"@ || f == "-c"@ || has_prefix(
        f,
        "--git-dir"@,
    ) || has_prefix(f, "--work-tree"@)) {
        assert((seq![g] + strip_git_from(t, 1, false)).drop_first() =~= strip_git_from(t, 1, false));
        assert(seq![g] + (seq![f] + strip_git_from(t, 1, false)) =~= seq![g, f] + strip_git_from(
            t,
            1,
            false,
        ));
    }
}

/// Git clean asks for confirmation exactly when it is forced: when a word is
/// `--force` or a short-flag word before `--` holds `f`; otherwise it passes.
pub proof fn lemma_git_clean_rule(t: Seq<Seq<char>>)
    requires
        t.len() >= 2,
        t[0] == "git"@,
        t[1] == "clean"@,
    ensures
        spec_evaluate_git(t) == (if t.contains("--force"@) || spec_has_short_flag_char(t, 'f') {
            Some(("ask"@, "git clean -f — deletes untracked files permanently"@))
        } else {
            None
        }),
        t.contains("--force"@) ==> spec_evaluate_git(t) == Some(
            ("ask"@, "git clean -f — deletes untracked files permanently"@),
        ),
{
    lemma_git_subcommands();
}

/// The git subcommands with rules are distinct words that do not start with `-`.
pub proof fn lemma_git_subcommands()
    ensures
        "add"@.len() == 3 && "add"@[0] == 'a',
        "push"@.len() == 4 && "push"@[0] == 'p',
        "stash"@.len() == 5 && "stash"@[0] == 's',
        "reset"@.len() == 5 && "reset"@[0] == 'r',
        "clean"@.len() == 5 && "clean"@[0] == 'c',
        "checkout"@.len() == 8 && "checkout"@[0] == 'c',
        "restore"@.len() == 7 && "restore"@[0] == 'r',
        "branch"@.len() == 6 && "branch"@[0] == 'b',
{
    reveal_strlit("add");
    reveal_strlit("push");
    reveal_strlit("stash");
    reveal_strlit("reset");
    reveal_strlit("clean");
    reveal_strlit("checkout");
    reveal_strlit("restore");
    reveal_strlit("branch");
}

} // verus!
