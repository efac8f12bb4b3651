//! Evaluating whole commands: segments, shell wrappers, xargs and `find -exec`
//! children, and the rule that the strictest verdict wins.
use vstd::prelude::*;
use crate::MAX_SHELL_DEPTH;
use crate::text::{str_eq, starts_with_char};
use crate::parse::{
    split_segments, tokenize, spec_split_segments, spec_tokenize, total_len,
    lemma_split_segments_len, lemma_tokenize_words, lemma_split_sequence, quotes_closed, lemma_split_joined,
    is_operator_text,
    last_piece, lemma_tail_len_step, lemma_tail_len_total,
    lemma_tail_len_mono,
};
use crate::flags::{has_token, starts_with_dash};
use crate::normalize::{
    unwrap_shell, strip_git_flags, strip_docker_flags, spec_unwrap_shell, spec_strip_git_flags,
    spec_strip_docker_flags, lemma_unwrap_shell_shorter, lemma_strip_git_len,
    lemma_strip_git_idempotent, lemma_strip_docker_idempotent,
};
use crate::rules::{
    Verdict, Outcome, deny, is_deny, is_ask, or_else, verdict, evaluate_git, spec_evaluate_git,
    rm_rules, spec_rm_rules, docker_rules, spec_docker_rules, psql_words, psql_words_from,
    psql_verdict, spec_psql_verdict, lemma_levels_distinct,
};

verus! {

/// The verdict so far, `acc`, after one more verdict `r`: a denial stands; else
/// a new denial or request to ask replaces it; else it is kept.
pub open spec fn combine(acc: Outcome, r: Outcome) -> Outcome {
    if is_deny(acc) {
        acc
    } else if is_deny(r) || is_ask(r) {
        r
    } else {
        acc
    }
}

/// A word that ends the child command of `find -exec`.
pub open spec fn is_find_terminator(w: Seq<char>) -> bool {
    w == ";"@ || w == "\\;"@ || w == "+"@
}

/// `-exec` or `-execdir`.
pub open spec fn is_exec_flag(w: Seq<char>) -> bool {
    w == "-exec"@ || w == "-execdir"@
}

/// The child command of `find -exec`, read from the words after the flag: up to
/// the first terminator, without the `{}` placeholders.
pub open spec fn child_words(s: Seq<Seq<char>>) -> Seq<Seq<char>>
    decreases s.len(),
{
    if s.len() == 0 || is_find_terminator(s[0]) {
        seq![]
    } else if s[0] == "{}"@ {
        child_words(s.drop_first())
    } else {
        seq![s[0]] + child_words(s.drop_first())
    }
}

/// The xargs flags that take the next word as their argument.
pub open spec fn is_xargs_arg_flag(w: Seq<char>) -> bool {
    ||| w == "-I"@
    ||| w == "-n"@
    ||| w == "-d"@
    ||| w == "-P"@
    ||| w == "-L"@
    ||| w == "-s"@
    ||| w == "-a"@
    ||| w == "-E"@
}

/// The position of the first word equal to `w` from position `i` on.
pub open spec fn index_of_from(t: Seq<Seq<char>>, w: Seq<char>, i: int) -> Option<int>
    decreases t.len() - i,
{
    if i < 0 || i >= t.len() {
        None
    } else if t[i] == w {
        Some(i)
    } else {
        index_of_from(t, w, i + 1)
    }
}

/// Where the child command of xargs starts, reading xargs' own flags from
/// position `j` on; it may lie past the end when a flag lacks its argument.
pub open spec fn xargs_child_pos(t: Seq<Seq<char>>, j: int) -> int
    decreases t.len() + 1 - j,
{
    if j < 0 || j >= t.len() || !starts_with_dash(t[j]) {
        j
    } else if is_xargs_arg_flag(t[j]) {
        xargs_child_pos(t, j + 2)
    } else {
        xargs_child_pos(t, j + 1)
    }
}

/// The child command of the `xargs` at position `pos`.
pub open spec fn xargs_child(t: Seq<Seq<char>>, pos: int) -> Seq<Seq<char>> {
    let p = xargs_child_pos(t, pos + 1);
    if p <= t.len() {
        t.subrange(p, t.len() as int)
    } else {
        seq![]
    }
}

/// The verdict on a command line, with `depth` shell wrappers already unwrapped:
/// past the depth limit the command passes; else the strictest verdict of its
/// segments.
pub open spec fn spec_evaluate_command_at_depth(cmd: Seq<char>, depth: nat) -> Outcome
    decreases cmd.len(), 5int, 0int,
{
    if depth > MAX_SHELL_DEPTH {
        None
    } else {
        proof {
            lemma_split_segments_len(cmd);
        }
        segments_verdict(spec_split_segments(cmd), depth, None)
    }
}

/// The verdict `acc` combined, in order, with the verdict on each segment.
pub open spec fn segments_verdict(segs: Seq<Seq<char>>, depth: nat, acc: Outcome) -> Outcome
    decreases total_len(segs), 4int, segs.len(),
{
    if segs.len() == 0 {
        acc
    } else {
        segments_verdict(
            segs.drop_first(),
            depth,
            combine(acc, spec_process_segment_at_depth(segs[0], depth)),
        )
    }
}

/// The verdict on one segment: a shell wrapper is unwrapped and its command
/// judged one level deeper; else xargs' child command is judged when there is
/// one, and otherwise the words themselves.
pub open spec fn spec_process_segment_at_depth(seg: Seq<char>, depth: nat) -> Outcome
    decreases seg.len(), 3int, 0int,
{
    let tokens = spec_tokenize(seg);
    proof {
        lemma_tokenize_words(seg);
    }
    match spec_unwrap_shell(tokens) {
        Some(inner) => {
            proof {
                lemma_unwrap_shell_shorter(tokens);
            }
            spec_evaluate_command_at_depth(inner, depth + 1)
        },
        None => {
            if tokens.len() == 0 {
                None
            } else {
                let x = spec_evaluate_xargs(tokens);
                if x is Some {
                    x
                } else {
                    spec_evaluate_words(tokens)
                }
            }
        },
    }
}

/// The verdict on the words of a command: git's global flags stripped, then the
/// git rules, and when they have no verdict the other rules.
pub open spec fn spec_evaluate_words(t: Seq<Seq<char>>) -> Outcome
    decreases total_len(t), 2int, 0int,
{
    let c = if t.len() > 0 && t[0] == "git"@ {
        spec_strip_git_flags(t)
    } else {
        t
    };
    proof {
        lemma_strip_git_len(t);
    }
    or_else(spec_evaluate_git(c), spec_evaluate_general(c))
}

/// The verdict on an xargs pipeline stage: the child command after xargs' own
/// flags is judged; none without `xargs` or a child.
pub open spec fn spec_evaluate_xargs(t: Seq<Seq<char>>) -> Outcome
    decreases total_len(t), 2int, 0int,
{
    match index_of_from(t, "xargs"@, 0) {
        None => None,
        Some(pos) => {
            let child = xargs_child(t, pos);
            if child.len() == 0 {
                None
            } else {
                proof {
                    lemma_xargs_child_shorter(t, pos);
                }
                spec_evaluate_words(child)
            }
        },
    }
}

/// The rules other than git's: rm, find, psql, docker and podman.
pub open spec fn spec_evaluate_general(t: Seq<Seq<char>>) -> Outcome
    decreases total_len(t), 1int, 0int,
{
    if t.len() == 0 {
        None
    } else if t[0] == "rm"@ {
        spec_rm_rules(t)
    } else if t[0] == "find"@ {
        if t.contains("-delete"@) {
            deny("find -delete blocked — permanent deletion"@)
        } else {
            find_verdict(t, 0, None)
        }
    } else if t[0] == "psql"@ {
        spec_psql_verdict(psql_words_from(t, 1))
    } else if t[0] == "docker"@ || t[0] == "podman"@ {
        spec_docker_rules(spec_strip_docker_flags(t))
    } else {
        None
    }
}

/// The verdict on the child command of the word at position `i` when it is
/// `-exec` or `-execdir`; none for other words and for empty children. A child
/// that is a shell wrapper has its inner command judged from depth zero.
pub open spec fn find_child_verdict(t: Seq<Seq<char>>, i: int) -> Outcome
    decreases total_len(t), 0int, 0int,
{
    if 0 <= i < t.len() && is_exec_flag(t[i]) {
        let child = child_words(t.subrange(i + 1, t.len() as int));
        if child.len() == 0 {
            None
        } else {
            proof {
                lemma_find_child_shorter(t, i);
            }
            match spec_unwrap_shell(child) {
                Some(inner) => {
                    proof {
                        lemma_unwrap_shell_shorter(child);
                    }
                    spec_evaluate_command_at_depth(inner, 0)
                },
                None => spec_evaluate_words(child),
            }
        }
    } else {
        None
    }
}

/// The verdict `acc` combined, in order, with the verdict on the child command
/// of each word from position `i` on.
pub open spec fn find_verdict(t: Seq<Seq<char>>, i: int, acc: Outcome) -> Outcome
    decreases total_len(t), 0int, t.len() - i + 1,
{
    if i < 0 || i >= t.len() {
        acc
    } else {
        find_verdict(t, i + 1, combine(acc, find_child_verdict(t, i)))
    }
}

/// A word is no longer than all the words together.
pub proof fn lemma_word_within_total(t: Seq<Seq<char>>, k: int)
    requires
        0 <= k < t.len(),
    ensures
        t[k].len() <= total_len(t),
{
    lemma_tail_len_step(t, k);
    lemma_tail_len_total(t, k);
}

/// The child of `find -exec` is no longer than its words after the flag.
pub proof fn lemma_child_words_len(s: Seq<Seq<char>>)
    ensures
        total_len(child_words(s)) <= total_len(s),
    decreases s.len(),
{
    if s.len() > 0 {
        lemma_child_words_len(s.drop_first());
        if !is_find_terminator(s[0]) && s[0] != "{}"@ {
            assert((seq![s[0]] + child_words(s.drop_first())).drop_first() =~= child_words(
                s.drop_first(),
            ));
        }
    } else {
        assert(total_len(Seq::<Seq<char>>::empty()) == 0);
    }
}

/// The child of the `-exec` at position `i` is shorter than all the words.
pub proof fn lemma_find_child_shorter(t: Seq<Seq<char>>, i: int)
    requires
        0 <= i < t.len(),
        is_exec_flag(t[i]),
    ensures
        total_len(child_words(t.subrange(i + 1, t.len() as int))) < total_len(t),
{
    reveal_strlit("-exec");
    reveal_strlit("-execdir");
    assert("-exec"@.len() == 5);
    assert("-execdir"@.len() == 8);
    lemma_child_words_len(t.subrange(i + 1, t.len() as int));
    lemma_tail_len_step(t, i);
    lemma_tail_len_total(t, i);
    if i + 1 == t.len() {
        assert(t.subrange(i + 1, t.len() as int) =~= Seq::<Seq<char>>::empty());
    }
}

/// The search for a word finds it, within the words.
pub proof fn lemma_index_of_from(t: Seq<Seq<char>>, w: Seq<char>, i: int)
    requires
        0 <= i,
    ensures
        index_of_from(t, w, i) matches Some(p) ==> i <= p < t.len() && t[p] == w,
        index_of_from(t, w, i) is None ==> forall|k: int| i <= k < t.len() ==> t[k] != w,
    decreases t.len() - i,
{
    if i < t.len() && t[i] != w {
        lemma_index_of_from(t, w, i + 1);
    }
}

/// The child of xargs starts at or after the given position.
pub proof fn lemma_xargs_child_pos(t: Seq<Seq<char>>, j: int)
    requires
        0 <= j,
    ensures
        xargs_child_pos(t, j) >= j,
        xargs_child_pos(t, j) <= t.len() + 1 || xargs_child_pos(t, j) == j,
    decreases t.len() + 1 - j,
{
    if j < t.len() && starts_with_dash(t[j]) {
        lemma_xargs_child_pos(t, j + 1);
        lemma_xargs_child_pos(t, j + 2);
    }
}

/// The child of xargs is shorter than all the words.
pub proof fn lemma_xargs_child_shorter(t: Seq<Seq<char>>, pos: int)
    requires
        index_of_from(t, "xargs"@, 0) == Some(pos),
        xargs_child(t, pos).len() > 0,
    ensures
        total_len(xargs_child(t, pos)) < total_len(t),
{
    lemma_index_of_from(t, "xargs"@, 0);
    reveal_strlit("xargs");
    assert("xargs"@.len() == 5);
    lemma_xargs_child_pos(t, pos + 1);
    let p = xargs_child_pos(t, pos + 1);
    lemma_tail_len_step(t, pos);
    lemma_tail_len_total(t, pos);
    lemma_tail_len_mono(t, pos + 1, p);
    if p == t.len() {
        assert(t.subrange(p, t.len() as int) =~= Seq::<Seq<char>>::empty());
    }
}

/// A denial reached while combining segment verdicts stands to the end.
pub proof fn lemma_segments_deny_stands(segs: Seq<Seq<char>>, depth: nat, acc: Outcome)
    requires
        is_deny(acc),
    ensures
        segments_verdict(segs, depth, acc) == acc,
    decreases segs.len(),
{
    if segs.len() > 0 {
        lemma_segments_deny_stands(segs.drop_first(), depth, acc);
    }
}

/// A denial reached while combining `find -exec` verdicts stands to the end.
pub proof fn lemma_find_deny_stands(t: Seq<Seq<char>>, i: int, acc: Outcome)
    requires
        is_deny(acc),
    ensures
        find_verdict(t, i, acc) == acc,
    decreases t.len() - i,
{
    if 0 <= i < t.len() {
        lemma_find_deny_stands(t, i + 1, acc);
    }
}

/// The verdicts `rs` combined, in order, onto `acc`.
pub open spec fn fold_verdicts(acc: Outcome, rs: Seq<Outcome>) -> Outcome
    decreases rs.len(),
{
    if rs.len() == 0 {
        acc
    } else {
        fold_verdicts(combine(acc, rs[0]), rs.drop_first())
    }
}

/// `rs[k]` is the first denial in `rs`.
pub open spec fn is_first_deny(rs: Seq<Outcome>, k: int) -> bool {
    0 <= k < rs.len() && is_deny(rs[k]) && forall|j: int| 0 <= j < k ==> !is_deny(#[trigger] rs[j])
}

/// `rs[k]` is the last request to confirm in `rs`.
pub open spec fn is_last_ask(rs: Seq<Outcome>, k: int) -> bool {
    0 <= k < rs.len() && is_ask(rs[k]) && forall|j: int| k < j < rs.len() ==> !is_ask(#[trigger] rs[j])
}

/// No verdict in `rs` is a denial.
pub open spec fn no_deny(rs: Seq<Outcome>) -> bool {
    forall|j: int| 0 <= j < rs.len() ==> !is_deny(#[trigger] rs[j])
}

/// No verdict in `rs` asks for confirmation.
pub open spec fn no_ask(rs: Seq<Outcome>) -> bool {
    forall|j: int| 0 <= j < rs.len() ==> !is_ask(#[trigger] rs[j])
}

/// How strict a verdict is: 2 for a denial, 1 for a request to confirm, 0 for
/// none.
pub open spec fn severity(o: Outcome) -> int {
    if is_deny(o) {
        2
    } else if is_ask(o) {
        1
    } else {
        0
    }
}

/// The larger of two integers.
pub open spec fn max_int(x: int, y: int) -> int {
    if x >= y {
        x
    } else {
        y
    }
}

/// The greatest severity among the verdicts `rs` (0 for none).
pub open spec fn max_severity(rs: Seq<Outcome>) -> int
    decreases rs.len(),
{
    if rs.len() == 0 {
        0
    } else {
        max_int(severity(rs[0]), max_severity(rs.drop_first()))
    }
}

/// A denial reached while combining verdicts stands to the end.
pub proof fn lemma_fold_deny_stands(acc: Outcome, rs: Seq<Outcome>)
    requires
        is_deny(acc),
    ensures
        fold_verdicts(acc, rs) == acc,
    decreases rs.len(),
{
    if rs.len() > 0 {
        lemma_fold_deny_stands(acc, rs.drop_first());
    }
}

/// Combining verdicts onto a verdict that is not a denial gives the first
/// denial when there is one; else the last request to confirm when there is
/// one; else what it started from.
pub proof fn lemma_fold_strictest(acc: Outcome, rs: Seq<Outcome>)
    requires
        !is_deny(acc),
    ensures
        forall|k: int| is_first_deny(rs, k) ==> fold_verdicts(acc, rs) == rs[k],
        forall|k: int| no_deny(rs) && is_last_ask(rs, k) ==> fold_verdicts(acc, rs) == rs[k],
        no_deny(rs) && no_ask(rs) ==> fold_verdicts(acc, rs) == acc,
    decreases rs.len(),
{
    lemma_levels_distinct();
    if rs.len() > 0 {
        let next = combine(acc, rs[0]);
        let rest = rs.drop_first();
        assert forall|j: int| 0 <= j < rest.len() implies #[trigger] rest[j] == rs[j + 1] by {}
        if is_deny(rs[0]) {
            lemma_fold_deny_stands(next, rest);
            assert forall|k: int| is_first_deny(rs, k) implies fold_verdicts(acc, rs) == rs[k] by {
                if k > 0 {
                    assert(!is_deny(rs[0]));
                }
            }
        } else {
            lemma_fold_strictest(next, rest);
            assert forall|k: int| is_first_deny(rs, k) implies fold_verdicts(acc, rs) == rs[k] by {
                assert(k > 0);
                assert forall|j: int| 0 <= j < k - 1 implies !is_deny(#[trigger] rest[j]) by {
                    assert(!is_deny(rs[j + 1]));
                }
                assert(is_first_deny(rest, k - 1));
            }
            if no_deny(rs) {
                assert(no_deny(rest)) by {
                    assert forall|j: int| 0 <= j < rest.len() implies !is_deny(#[trigger] rest[j]) by {
                        assert(!is_deny(rs[j + 1]));
                    }
                }
                assert forall|k: int| is_last_ask(rs, k) implies fold_verdicts(acc, rs) == rs[k] by {
                    if k == 0 {
                        assert(no_ask(rest)) by {
                            assert forall|j: int| 0 <= j < rest.len() implies !is_ask(#[trigger] rest[j]) by {
                                assert(!is_ask(rs[j + 1]));
                            }
                        }
                        assert(next == rs[0]);
                    } else {
                        assert forall|j: int| k - 1 < j < rest.len() implies !is_ask(#[trigger] rest[j]) by {
                            assert(!is_ask(rs[j + 1]));
                        }
                        assert(is_last_ask(rest, k - 1));
                    }
                }
                if no_ask(rs) {
                    assert(!is_ask(rs[0]));
                    assert(no_ask(rest)) by {
                        assert forall|j: int| 0 <= j < rest.len() implies !is_ask(#[trigger] rest[j]) by {
                            assert(!is_ask(rs[j + 1]));
                        }
                    }
                }
            }
        }
    }
}

/// The severity of combined verdicts is the greatest severity among them.
pub proof fn lemma_fold_severity(acc: Outcome, rs: Seq<Outcome>)
    ensures
        severity(fold_verdicts(acc, rs)) == max_int(severity(acc), max_severity(rs)),
    decreases rs.len(),
{
    lemma_levels_distinct();
    if rs.len() > 0 {
        lemma_fold_severity(combine(acc, rs[0]), rs.drop_first());
    }
}

/// The greatest severity of a concatenation is the greater of the two.
pub proof fn lemma_max_severity_append(xs: Seq<Outcome>, ys: Seq<Outcome>)
    ensures
        max_severity(xs + ys) == max_int(max_severity(xs), max_severity(ys)),
    decreases xs.len(),
{
    if xs.len() == 0 {
        assert(xs + ys =~= ys);
    } else {
        assert((xs + ys)[0] == xs[0]);
        assert((xs + ys).drop_first() =~= xs.drop_first() + ys);
        lemma_max_severity_append(xs.drop_first(), ys);
    }
}

/// The verdict on each segment, in order.
pub open spec fn segment_verdicts(segs: Seq<Seq<char>>, depth: nat) -> Seq<Outcome> {
    Seq::new(segs.len(), |k: int| spec_process_segment_at_depth(segs[k], depth))
}

/// Combining segment verdicts is folding the list of those verdicts.
pub proof fn lemma_segments_verdict_fold(segs: Seq<Seq<char>>, depth: nat, acc: Outcome)
    ensures
        segments_verdict(segs, depth, acc) == fold_verdicts(acc, segment_verdicts(segs, depth)),
    decreases segs.len(),
{
    if segs.len() > 0 {
        let rs = segment_verdicts(segs, depth);
        assert(rs.drop_first() =~= segment_verdicts(segs.drop_first(), depth));
        lemma_segments_verdict_fold(
            segs.drop_first(),
            depth,
            combine(acc, spec_process_segment_at_depth(segs[0], depth)),
        );
    }
}

/// The verdict on the child command at each position of a `find` command.
pub open spec fn find_child_verdicts(t: Seq<Seq<char>>) -> Seq<Outcome> {
    Seq::new(t.len(), |i: int| find_child_verdict(t, i))
}

/// Combining `find -exec` verdicts is folding the list of those verdicts.
pub proof fn lemma_find_verdict_fold(t: Seq<Seq<char>>, i: int, acc: Outcome)
    requires
        0 <= i <= t.len(),
    ensures
        find_verdict(t, i, acc) == fold_verdicts(
            acc,
            find_child_verdicts(t).subrange(i, t.len() as int),
        ),
    decreases t.len() - i,
{
    let rs = find_child_verdicts(t).subrange(i, t.len() as int);
    if i < t.len() {
        assert(rs[0] == find_child_verdict(t, i));
        assert(rs.drop_first() =~= find_child_verdicts(t).subrange(i + 1, t.len() as int));
        lemma_find_verdict_fold(t, i + 1, combine(acc, find_child_verdict(t, i)));
    } else {
        assert(rs =~= Seq::<Outcome>::empty());
    }
}

/// The strictest verdict wins, and which one: a command gets the verdict of its
/// first denied segment when one is denied; else that of its last segment that
/// asks when one asks; else none. So it is denied exactly when a segment is.
pub proof fn lemma_strictest_verdict_wins(cmd: Seq<char>, depth: nat)
    requires
        depth <= MAX_SHELL_DEPTH,
    ensures
        ({
            let rs = segment_verdicts(spec_split_segments(cmd), depth);
            let v = spec_evaluate_command_at_depth(cmd, depth);
            &&& forall|k: int| is_first_deny(rs, k) ==> v == rs[k]
            &&& forall|k: int| no_deny(rs) && is_last_ask(rs, k) ==> v == rs[k]
            &&& no_deny(rs) && no_ask(rs) ==> v is None
            &&& is_deny(v) <==> !no_deny(rs)
        }),
{
    let segs = spec_split_segments(cmd);
    let rs = segment_verdicts(segs, depth);
    lemma_segments_verdict_fold(segs, depth, None);
    lemma_fold_strictest(None, rs);
    lemma_fold_severity(None, rs);
    lemma_strictest_severity(rs);
}

/// The greatest severity among verdicts is 2 exactly when one is a denial.
proof fn lemma_strictest_severity(rs: Seq<Outcome>)
    ensures
        max_severity(rs) == 2 <==> !no_deny(rs),
        max_severity(rs) <= 2,
    decreases rs.len(),
{
    lemma_levels_distinct();
    if rs.len() > 0 {
        let rest = rs.drop_first();
        lemma_strictest_severity(rest);
        assert forall|j: int| 0 <= j < rest.len() implies #[trigger] rest[j] == rs[j + 1] by {}
        if !no_deny(rest) {
            let j = choose|j: int| 0 <= j < rest.len() && is_deny(#[trigger] rest[j]);
            assert(is_deny(rs[j + 1]));
        }
        if !no_deny(rs) && !is_deny(rs[0]) {
            let j = choose|j: int| 0 <= j < rs.len() && is_deny(#[trigger] rs[j]);
            assert(is_deny(rest[j - 1]));
        }
    }
}

/// A `find` command without `-delete` gets the verdict of the first of its
/// `-exec`/`-execdir` children that is denied; else that of the last child that
/// asks; else none.
pub proof fn lemma_find_strictest_child(t: Seq<Seq<char>>)
    requires
        t.len() > 0,
        t[0] == "find"@,
        !t.contains("-delete"@),
    ensures
        ({
            let rs = find_child_verdicts(t);
            let v = spec_evaluate_general(t);
            &&& forall|k: int| is_first_deny(rs, k) ==> v == rs[k]
            &&& forall|k: int| no_deny(rs) && is_last_ask(rs, k) ==> v == rs[k]
            &&& no_deny(rs) && no_ask(rs) ==> v is None
        }),
{
    reveal_strlit("rm");
    reveal_strlit("find");
    assert("rm"@.len() == 2 && "find"@.len() == 4);
    let rs = find_child_verdicts(t);
    lemma_find_verdict_fold(t, 0, None);
    assert(rs.subrange(0, t.len() as int) =~= rs);
    lemma_fold_strictest(None, rs);
}

/// A blank segment gets no verdict.
proof fn lemma_blank_segment(seg: Seq<char>, depth: nat)
    requires
        seg.len() == 0,
    ensures
        spec_process_segment_at_depth(seg, depth) is None,
{
    assert(spec_tokenize(seg) =~= Seq::<Seq<char>>::empty());
}

/// With a first command that leaves no quote open, `first;second` is exactly as
/// strict as the stricter of its two parts, where none < ask < deny.
pub proof fn lemma_sequence_stricter_of_two(a: Seq<char>, b: Seq<char>, depth: nat)
    requires
        quotes_closed(a),
    ensures
        severity(spec_evaluate_command_at_depth(a + seq![';'] + b, depth)) == max_int(
            severity(spec_evaluate_command_at_depth(a, depth)),
            severity(spec_evaluate_command_at_depth(b, depth)),
        ),
{
    lemma_levels_distinct();
    if depth <= MAX_SHELL_DEPTH {
        let sa = spec_split_segments(a);
        let sb = spec_split_segments(b);
        let e = if last_piece(a).len() > 0 {
            Seq::<Seq<char>>::empty()
        } else {
            seq![last_piece(a)]
        };
        lemma_split_sequence(a, b);
        let all = sa + e + sb;
        assert(segment_verdicts(all, depth) =~= segment_verdicts(sa, depth) + segment_verdicts(e, depth)
            + segment_verdicts(sb, depth));
        lemma_segments_verdict_fold(all, depth, None);
        lemma_segments_verdict_fold(sa, depth, None);
        lemma_segments_verdict_fold(sb, depth, None);
        lemma_fold_severity(None, segment_verdicts(all, depth));
        lemma_fold_severity(None, segment_verdicts(sa, depth));
        lemma_fold_severity(None, segment_verdicts(sb, depth));
        lemma_max_severity_append(
            segment_verdicts(sa, depth) + segment_verdicts(e, depth),
            segment_verdicts(sb, depth),
        );
        lemma_max_severity_append(segment_verdicts(sa, depth), segment_verdicts(e, depth));
        if e.len() > 0 {
            lemma_blank_segment(last_piece(a), depth);
            let re = segment_verdicts(e, depth);
            assert(re[0] == spec_process_segment_at_depth(last_piece(a), depth));
            assert(re.drop_first() =~= Seq::<Outcome>::empty());
            assert(max_severity(re.drop_first()) == 0);
            assert(severity(re[0]) == 0);
            assert(max_severity(re) == 0);
        } else {
            assert(segment_verdicts(e, depth) =~= Seq::<Outcome>::empty());
        }
    }
}

/// Joining two commands with any of `;`, `|`, `&`, `&&`, `||`, where the first
/// leaves no quote open and neither side touches the operator with another `&`
/// or `|`, gives a line exactly as strict as the stricter part, where
/// none < ask < deny.
pub proof fn lemma_joined_stricter_of_two(a: Seq<char>, op: Seq<char>, b: Seq<char>, depth: nat)
    requires
        quotes_closed(a),
        is_operator_text(op),
        a.len() == 0 || (a.last() != '&' && a.last() != '|'),
        b.len() == 0 || (b[0] != '&' && b[0] != '|'),
    ensures
        severity(spec_evaluate_command_at_depth(a + op + b, depth)) == max_int(
            severity(spec_evaluate_command_at_depth(a, depth)),
            severity(spec_evaluate_command_at_depth(b, depth)),
        ),
{
    lemma_levels_distinct();
    if depth <= MAX_SHELL_DEPTH {
        let sa = spec_split_segments(a);
        let sb = spec_split_segments(b);
        let e = if last_piece(a).len() > 0 {
            Seq::<Seq<char>>::empty()
        } else {
            seq![last_piece(a)]
        };
        lemma_split_joined(a, op, b);
        let all = sa + e + sb;
        assert(segment_verdicts(all, depth) =~= segment_verdicts(sa, depth) + segment_verdicts(e, depth)
            + segment_verdicts(sb, depth));
        lemma_segments_verdict_fold(all, depth, None);
        lemma_segments_verdict_fold(sa, depth, None);
        lemma_segments_verdict_fold(sb, depth, None);
        lemma_fold_severity(None, segment_verdicts(all, depth));
        lemma_fold_severity(None, segment_verdicts(sa, depth));
        lemma_fold_severity(None, segment_verdicts(sb, depth));
        lemma_max_severity_append(
            segment_verdicts(sa, depth) + segment_verdicts(e, depth),
            segment_verdicts(sb, depth),
        );
        lemma_max_severity_append(segment_verdicts(sa, depth), segment_verdicts(e, depth));
        if e.len() > 0 {
            lemma_blank_segment(last_piece(a), depth);
            let re = segment_verdicts(e, depth);
            assert(re[0] == spec_process_segment_at_depth(last_piece(a), depth));
            assert(re.drop_first() =~= Seq::<Outcome>::empty());
            assert(max_severity(re.drop_first()) == 0);
            assert(severity(re[0]) == 0);
            assert(max_severity(re) == 0);
        } else {
            assert(segment_verdicts(e, depth) =~= Seq::<Outcome>::empty());
        }
    }
}

/// A shell wrapper is transparent: the segment `<shell> -c <command>` gets the
/// verdict on `<command>` as a whole command line, one level deeper.
pub proof fn lemma_shell_wrapper_transparent(seg: Seq<char>, depth: nat)
    requires
        spec_unwrap_shell(spec_tokenize(seg)) is Some,
    ensures
        spec_process_segment_at_depth(seg, depth) == spec_evaluate_command_at_depth(
            spec_unwrap_shell(spec_tokenize(seg))->0,
            depth + 1,
        ),
{
}

/// Beyond the depth limit every command passes through.
pub proof fn lemma_depth_limit(cmd: Seq<char>, depth: nat)
    requires
        depth > MAX_SHELL_DEPTH,
    ensures
        spec_evaluate_command_at_depth(cmd, depth) is None,
{
}

/// Git's global flags do not change the verdict on a git command: judging it
/// with its global flags stripped gives the same verdict.
pub proof fn lemma_git_global_flags_invisible(t: Seq<Seq<char>>)
    requires
        t.len() > 0,
        t[0] == "git"@,
    ensures
        spec_evaluate_words(spec_strip_git_flags(t)) == spec_evaluate_words(t),
{
    let r = spec_strip_git_flags(t);
    assert(r[0] == t[0]);
    lemma_strip_git_idempotent(t);
}

/// Docker's and podman's global options leave the verdict unchanged: a command
/// is judged alike with or without them.
pub proof fn lemma_docker_global_flags_invisible(t: Seq<Seq<char>>)
    requires
        t.len() > 0,
        t[0] == "docker"@ || t[0] == "podman"@,
    ensures
        spec_evaluate_general(spec_strip_docker_flags(t)) == spec_evaluate_general(t),
{
    let r = spec_strip_docker_flags(t);
    assert(r[0] == t[0]);
    lemma_strip_docker_idempotent(t);
    reveal_strlit("rm");
    reveal_strlit("find");
    reveal_strlit("psql");
    reveal_strlit("docker");
    reveal_strlit("podman");
    assert("rm"@.len() == 2 && "find"@.len() == 4 && "psql"@.len() == 4);
    assert("docker"@.len() == 6 && "podman"@.len() == 6);
}

/// A verdict is a denial, a request to confirm, or none.
pub open spec fn valid_outcome(o: Outcome) -> bool {
    o is None || is_deny(o) || is_ask(o)
}

/// Each rule gives a denial, a request to confirm, or none.
pub proof fn lemma_rules_valid(t: Seq<Seq<char>>)
    ensures
        valid_outcome(spec_evaluate_git(t)),
        valid_outcome(spec_rm_rules(t)),
        valid_outcome(spec_docker_rules(t)),
        valid_outcome(spec_psql_verdict(t)),
{
}

/// Every verdict on a command line is `deny`, `ask`, or none.
pub proof fn lemma_command_verdict_valid(cmd: Seq<char>, depth: nat)
    ensures
        valid_outcome(spec_evaluate_command_at_depth(cmd, depth)),
    decreases cmd.len(), 5int, 0int,
{
    if depth <= MAX_SHELL_DEPTH {
        lemma_split_segments_len(cmd);
        lemma_segments_verdict_valid(spec_split_segments(cmd), depth, None);
    }
}

/// Combining valid verdicts over segments gives a valid verdict.
pub proof fn lemma_segments_verdict_valid(segs: Seq<Seq<char>>, depth: nat, acc: Outcome)
    requires
        valid_outcome(acc),
    ensures
        valid_outcome(segments_verdict(segs, depth, acc)),
    decreases total_len(segs), 4int, segs.len(),
{
    if segs.len() > 0 {
        lemma_segment_verdict_valid(segs[0], depth);
        lemma_segments_verdict_valid(
            segs.drop_first(),
            depth,
            combine(acc, spec_process_segment_at_depth(segs[0], depth)),
        );
    }
}

/// Every verdict on a segment is `deny`, `ask`, or none.
pub proof fn lemma_segment_verdict_valid(seg: Seq<char>, depth: nat)
    ensures
        valid_outcome(spec_process_segment_at_depth(seg, depth)),
    decreases seg.len(), 3int, 0int,
{
    let tokens = spec_tokenize(seg);
    lemma_tokenize_words(seg);
    match spec_unwrap_shell(tokens) {
        Some(inner) => {
            lemma_unwrap_shell_shorter(tokens);
            lemma_command_verdict_valid(inner, depth + 1);
        },
        None => {
            if tokens.len() > 0 {
                lemma_xargs_verdict_valid(tokens);
                lemma_words_verdict_valid(tokens);
            }
        },
    }
}

/// Every verdict on the words of a command is `deny`, `ask`, or none.
pub proof fn lemma_words_verdict_valid(t: Seq<Seq<char>>)
    ensures
        valid_outcome(spec_evaluate_words(t)),
    decreases total_len(t), 2int, 0int,
{
    let c = if t.len() > 0 && t[0] == "git"@ {
        spec_strip_git_flags(t)
    } else {
        t
    };
    lemma_strip_git_len(t);
    lemma_rules_valid(c);
    lemma_general_verdict_valid(c);
}

/// Every verdict on an xargs stage is `deny`, `ask`, or none.
pub proof fn lemma_xargs_verdict_valid(t: Seq<Seq<char>>)
    ensures
        valid_outcome(spec_evaluate_xargs(t)),
    decreases total_len(t), 2int, 0int,
{
    match index_of_from(t, "xargs"@, 0) {
        None => {},
        Some(pos) => {
            if xargs_child(t, pos).len() > 0 {
                lemma_xargs_child_shorter(t, pos);
                lemma_words_verdict_valid(xargs_child(t, pos));
            }
        },
    }
}

/// Every verdict of the rules other than git's is `deny`, `ask`, or none.
pub proof fn lemma_general_verdict_valid(t: Seq<Seq<char>>)
    ensures
        valid_outcome(spec_evaluate_general(t)),
    decreases total_len(t), 1int, 0int,
{
    lemma_rules_valid(t);
    lemma_rules_valid(psql_words_from(t, 1));
    lemma_rules_valid(spec_strip_docker_flags(t));
    if t.len() > 0 && t[0] == "find"@ {
        lemma_find_verdict_valid(t, 0, None);
    }
}

/// Every verdict on a `find -exec` child is `deny`, `ask`, or none.
pub proof fn lemma_find_child_verdict_valid(t: Seq<Seq<char>>, i: int)
    ensures
        valid_outcome(find_child_verdict(t, i)),
    decreases total_len(t), 0int, 0int,
{
    if 0 <= i < t.len() && is_exec_flag(t[i]) {
        let child = child_words(t.subrange(i + 1, t.len() as int));
        if child.len() > 0 {
            lemma_find_child_shorter(t, i);
            match spec_unwrap_shell(child) {
                Some(inner) => {
                    lemma_unwrap_shell_shorter(child);
                    lemma_command_verdict_valid(inner, 0);
                },
                None => {
                    lemma_words_verdict_valid(child);
                },
            }
        }
    }
}

/// Combining valid verdicts over `find -exec` children gives a valid verdict.
pub proof fn lemma_find_verdict_valid(t: Seq<Seq<char>>, i: int, acc: Outcome)
    requires
        valid_outcome(acc),
    ensures
        valid_outcome(find_verdict(t, i, acc)),
    decreases total_len(t), 0int, t.len() - i + 1,
{
    if 0 <= i < t.len() {
        lemma_find_child_verdict_valid(t, i);
        lemma_find_verdict_valid(t, i + 1, combine(acc, find_child_verdict(t, i)));
    }
}

/// The words `tokens[from..]`.
pub fn words_from(tokens: &[String], from: usize) -> (r: Vec<String>)
    requires
        from <= tokens@.len(),
    ensures
        r.deep_view() == tokens.deep_view().subrange(from as int, tokens@.len() as int),
{
    let ghost t = tokens.deep_view();
    let n = tokens.len();
    let mut r: Vec<String> = Vec::new();
    let mut k = from;
    assert(r.deep_view() =~= t.subrange(from as int, from as int));
    while k < n
        invariant
            n == tokens@.len(),
            t == tokens.deep_view(),
            from <= k <= n,
            r.deep_view() == t.subrange(from as int, k as int),
        decreases n - k,
    {
        let ghost old_r = r.deep_view();
        r.push(tokens[k].clone());
        assert(r.deep_view() =~= old_r.push(t[k as int]));
        assert(t.subrange(from as int, k + 1) =~= t.subrange(from as int, k as int).push(t[k as int]));
        k += 1;
    }
    r
}

/// The child command of a `-exec` whose words start at `from`.
pub fn find_child(tokens: &[String], from: usize) -> (r: Vec<String>)
    requires
        from <= tokens@.len(),
    ensures
        r.deep_view() == child_words(tokens.deep_view().subrange(from as int, tokens@.len() as int)),
{
    let ghost t = tokens.deep_view();
    let n = tokens.len();
    let mut r: Vec<String> = Vec::new();
    let mut k = from;
    assert(r.deep_view() + child_words(t.subrange(from as int, n as int)) =~= child_words(
        t.subrange(from as int, n as int),
    ));
    while k < n
        invariant
            n == tokens@.len(),
            t == tokens.deep_view(),
            from <= k <= n,
            r.deep_view() + child_words(t.subrange(k as int, n as int)) == child_words(
                t.subrange(from as int, n as int),
            ),
        decreases n - k,
    {
        let ghost old_r = r.deep_view();
        let ghost s = t.subrange(k as int, n as int);
        assert(s[0] == t[k as int]);
        assert(s.drop_first() =~= t.subrange(k + 1, n as int));
        let w = tokens[k].as_str();
        if str_eq(w, ";") || str_eq(w, "\\;") || str_eq(w, "+") {
            assert(old_r + child_words(s) =~= old_r);
            return r;
        }
        if !str_eq(w, "{}") {
            r.push(tokens[k].clone());
            assert(r.deep_view() =~= old_r.push(t[k as int]));
            assert(old_r + (seq![t[k as int]] + child_words(t.subrange(k + 1, n as int)))
                =~= r.deep_view() + child_words(t.subrange(k + 1, n as int)));
        }
        k += 1;
    }
    assert(t.subrange(k as int, n as int) =~= Seq::<Seq<char>>::empty());
    assert(r.deep_view() + Seq::<Seq<char>>::empty() =~= r.deep_view());
    r
}

/// Evaluate a full command string: split it into segments, evaluate each, and
/// return the strictest verdict (deny > ask > pass-through).
pub fn evaluate_command(command: &str) -> (r: Verdict)
    ensures
        r.deep_view() == spec_evaluate_command_at_depth(command@, 0),
    decreases command@.len(), 6int, 0int,
{
    evaluate_command_at_depth(command, 0)
}

/// Evaluate a command string found inside `depth` shell wrappers. Beyond
/// `MAX_SHELL_DEPTH` the command passes through, which bounds the nesting that
/// pathological input can force.
pub fn evaluate_command_at_depth(command: &str, depth: usize) -> (r: Verdict)
    ensures
        r.deep_view() == spec_evaluate_command_at_depth(command@, depth as nat),
    decreases command@.len(), 5int, 0int,
{
    if depth > MAX_SHELL_DEPTH {
        return None;
    }
    let segments = split_segments(command);
    let ghost segs = segments.deep_view();
    proof {
        lemma_split_segments_len(command@);
        lemma_levels_distinct();
    }
    let n = segments.len();
    let mut worst: Verdict = None;
    let mut k: usize = 0;
    assert(segs.subrange(0, n as int) =~= segs);
    while k < n
        invariant
            n == segments@.len(),
            segs == segments.deep_view(),
            segs == spec_split_segments(command@),
            total_len(segs) <= command@.len(),
            depth <= MAX_SHELL_DEPTH,
            k <= n,
            !is_deny(worst.deep_view()),
            segments_verdict(segs.subrange(k as int, n as int), depth as nat, worst.deep_view())
                == spec_evaluate_command_at_depth(command@, depth as nat),
        decreases n - k,
    {
        let ghost rest = segs.subrange(k as int, n as int);
        assert(rest[0] == segs[k as int]);
        assert(rest.drop_first() =~= segs.subrange(k + 1, n as int));
        proof {
            lemma_word_within_total(segs, k as int);
        }
        let r = process_segment_at_depth(segments[k].as_str(), depth);
        let ghost acc = combine(worst.deep_view(), r.deep_view());
        match r {
            Some((v, reason)) => {
                if str_eq(v, "deny") {
                    proof {
                        lemma_segments_deny_stands(segs.subrange(k + 1, n as int), depth as nat, acc);
                    }
                    return Some(("deny", reason));
                } else if str_eq(v, "ask") {
                    worst = Some(("ask", reason));
                }
            },
            None => {},
        }
        assert(worst.deep_view() == acc);
        k += 1;
    }
    assert(segs.subrange(k as int, n as int) =~= Seq::<Seq<char>>::empty());
    worst
}

/// Process a single command segment: normalize its words and evaluate them.
/// Unwrapping a shell wrapper goes one level deeper, which needs a depth below
/// the largest `usize`.
pub fn process_segment_at_depth(segment: &str, depth: usize) -> (r: Verdict)
    requires
        depth < usize::MAX || spec_unwrap_shell(spec_tokenize(segment@)) is None,
    ensures
        r.deep_view() == spec_process_segment_at_depth(segment@, depth as nat),
    decreases segment@.len(), 3int, 0int,
{
    let tokens = tokenize(segment);
    proof {
        lemma_tokenize_words(segment@);
    }
    match unwrap_shell(tokens.as_slice()) {
        Some(inner) => {
            proof {
                lemma_unwrap_shell_shorter(tokens.deep_view());
            }
            return evaluate_command_at_depth(inner.as_str(), depth + 1);
        },
        None => {},
    }
    if tokens.len() == 0 {
        return None;
    }
    let x = evaluate_xargs(tokens.as_slice());
    if x.is_some() {
        return x;
    }
    evaluate_words(tokens.as_slice())
}

/// Evaluate the words of a command: strip git's global flags from a git
/// command, then apply the git rules and, when they pass, the other rules.
pub fn evaluate_words(tokens: &[String]) -> (r: Verdict)
    ensures
        r.deep_view() == spec_evaluate_words(tokens.deep_view()),
    decreases total_len(tokens.deep_view()), 2int, 0int,
{
    proof {
        lemma_strip_git_len(tokens.deep_view());
    }
    if tokens.len() > 0 && str_eq(tokens[0].as_str(), "git") {
        let stripped = strip_git_flags(tokens);
        let g = evaluate_git(stripped.as_slice());
        if g.is_some() {
            return g;
        }
        evaluate_general(stripped.as_slice())
    } else {
        let g = evaluate_git(tokens);
        if g.is_some() {
            return g;
        }
        evaluate_general(tokens)
    }
}

/// Evaluate xargs: extract the child command and evaluate it. Skips xargs' own
/// flags (and the arguments of those that take one), then passes the whole
/// child command, its flags included, to the rules.
pub fn evaluate_xargs(tokens: &[String]) -> (r: Verdict)
    ensures
        r.deep_view() == spec_evaluate_xargs(tokens.deep_view()),
    decreases total_len(tokens.deep_view()), 2int, 0int,
{
    let ghost t = tokens.deep_view();
    let n = tokens.len();
    let mut pos: usize = 0;
    while pos < n && !str_eq(tokens[pos].as_str(), "xargs")
        invariant
            n == tokens@.len(),
            t == tokens.deep_view(),
            pos <= n,
            index_of_from(t, "xargs"@, pos as int) == index_of_from(t, "xargs"@, 0),
        decreases n - pos,
    {
        pos += 1;
    }
    if pos >= n {
        return None;
    }
    assert(index_of_from(t, "xargs"@, 0) == Some(pos as int));
    let mut j: usize = pos + 1;
    while j < n && starts_with_char(tokens[j].as_str(), '-')
        invariant
            n == tokens@.len(),
            t == tokens.deep_view(),
            pos < j <= n,
            index_of_from(t, "xargs"@, 0) == Some(pos as int),
            xargs_child_pos(t, j as int) == xargs_child_pos(t, pos + 1),
        decreases n - j,
    {
        let w = tokens[j].as_str();
        assert(t[j as int] == w@);
        if str_eq(w, "-I") || str_eq(w, "-n") || str_eq(w, "-d") || str_eq(w, "-P") || str_eq(
            w,
            "-L",
        ) || str_eq(w, "-s") || str_eq(w, "-a") || str_eq(w, "-E") {
            if j + 1 >= n {
                assert(xargs_child_pos(t, j + 2) == j + 2);
                assert(xargs_child_pos(t, j as int) == j + 2);
                assert(xargs_child_pos(t, pos + 1) == j + 2);
                assert(xargs_child(t, pos as int) =~= Seq::<Seq<char>>::empty());
                assert(spec_evaluate_xargs(t) is None);
                return None;
            }
            j += 2;
        } else {
            j += 1;
        }
    }
    assert(xargs_child_pos(t, j as int) == j);
    let child = words_from(tokens, j);
    if child.len() == 0 {
        return None;
    }
    proof {
        lemma_xargs_child_shorter(t, pos as int);
    }
    evaluate_words(child.as_slice())
}

/// Evaluate the words against the rules other than git's (rm, find, psql,
/// docker/podman). psql detection is best effort: it looks for SQL keywords in
/// the command-line words only.
pub fn evaluate_general(tokens: &[String]) -> (r: Verdict)
    ensures
        r.deep_view() == spec_evaluate_general(tokens.deep_view()),
    decreases total_len(tokens.deep_view()), 1int, 0int,
{
    let ghost t = tokens.deep_view();
    let n = tokens.len();
    if n == 0 {
        return None;
    }
    let cmd = tokens[0].as_str();
    if str_eq(cmd, "rm") {
        return rm_rules(tokens);
    }
    if str_eq(cmd, "find") {
        if has_token(tokens, "-delete") {
            return verdict("deny", "find -delete blocked — permanent deletion");
        }
        proof {
            lemma_levels_distinct();
        }
        // Check all -exec/-execdir clauses for destructive child commands
        let mut worst: Verdict = None;
        let mut i: usize = 0;
        while i < n
            invariant
                n == tokens@.len(),
                t == tokens.deep_view(),
                t[0] == "find"@,
                !t.contains("-delete"@),
                i <= n,
                !is_deny(worst.deep_view()),
                find_verdict(t, i as int, worst.deep_view()) == spec_evaluate_general(t),
            decreases n - i,
        {
            let w = tokens[i].as_str();
            assert(t[i as int] == w@);
            if !(str_eq(w, "-exec") || str_eq(w, "-execdir")) {
                assert(find_child_verdict(t, i as int) == None::<(Seq<char>, Seq<char>)>);
                i += 1;
                continue;
            }
            let child = find_child(tokens, i + 1);
            if child.len() == 0 {
                assert(find_child_verdict(t, i as int) == None::<(Seq<char>, Seq<char>)>);
                i += 1;
                continue;
            }
            proof {
                lemma_find_child_shorter(t, i as int);
            }
            let r = match unwrap_shell(child.as_slice()) {
                Some(inner) => {
                    proof {
                        lemma_unwrap_shell_shorter(child.deep_view());
                    }
                    evaluate_command(inner.as_str())
                },
                None => evaluate_words(child.as_slice()),
            };
            assert(r.deep_view() == find_child_verdict(t, i as int));
            let ghost acc = combine(worst.deep_view(), r.deep_view());
            match r {
                Some((v, reason)) => {
                    if str_eq(v, "deny") {
                        proof {
                            lemma_find_deny_stands(t, i + 1, acc);
                        }
                        return Some(("deny", reason));
                    } else if str_eq(v, "ask") {
                        worst = Some(("ask", reason));
                    }
                },
                None => {},
            }
            assert(worst.deep_view() == acc);
            i += 1;
        }
        return worst;
    }
    if str_eq(cmd, "psql") {
        let words = psql_words(tokens);
        return psql_verdict(words.as_slice());
    }
    if str_eq(cmd, "docker") || str_eq(cmd, "podman") {
        // Strip global flags so `docker -H host system prune` is still caught
        let stripped = strip_docker_flags(tokens);
        return docker_rules(stripped.as_slice());
    }
    None
}

} // verus!
