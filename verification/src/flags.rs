//! Questions about the words of a command: does it hold a word, a short flag.
use vstd::prelude::*;
use crate::text::{str_eq, starts_with_char, contains_char, chars_of};

verus! {

/// `t` starts with `--`.
pub open spec fn starts_with_dashes(t: Seq<char>) -> bool {
    t.len() >= 2 && t[0] == '-' && t[1] == '-'
}

/// `t` starts with `-`.
pub open spec fn starts_with_dash(t: Seq<char>) -> bool {
    t.len() > 0 && t[0] == '-'
}

/// `t` is a short-flag word (`-` but not `--` in front) that holds `ch`.
pub open spec fn is_short_flag_with(t: Seq<char>, ch: char) -> bool {
    starts_with_dash(t) && !starts_with_dashes(t) && t.contains(ch)
}

/// Some word before the first `--` is a short-flag word holding `ch`.
pub open spec fn spec_has_short_flag_char(tokens: Seq<Seq<char>>, ch: char) -> bool {
    exists|i: int|
        0 <= i < tokens.len() && (forall|j: int| 0 <= j <= i ==> tokens[j] != "--"@)
            && #[trigger] is_short_flag_with(tokens[i], ch)
}

/// Some word is `--force`, or a short-flag word before `--` holds `f`.
pub open spec fn spec_has_force_flag(tokens: Seq<Seq<char>>) -> bool {
    tokens.contains("--force"@) || spec_has_short_flag_char(tokens, 'f')
}

/// Words after the end-of-options sentinel `--` are never read as short flags:
/// appending `--` and any words leaves the answer as it was.
pub proof fn lemma_short_flags_stop_at_sentinel(a: Seq<Seq<char>>, b: Seq<Seq<char>>, ch: char)
    ensures
        spec_has_short_flag_char(a + seq!["--"@] + b, ch) == spec_has_short_flag_char(a, ch),
{
    let t = a + seq!["--"@] + b;
    assert(t[a.len() as int] == "--"@);
    if spec_has_short_flag_char(t, ch) {
        let i = choose|i: int|
            0 <= i < t.len() && (forall|j: int| 0 <= j <= i ==> t[j] != "--"@)
                && #[trigger] is_short_flag_with(t[i], ch);
        assert(i < a.len());
        assert(t[i] == a[i]);
        assert forall|j: int| 0 <= j <= i implies a[j] != "--"@ by {
            assert(t[j] == a[j]);
        }
        assert(is_short_flag_with(a[i], ch));
    }
    if spec_has_short_flag_char(a, ch) {
        let i = choose|i: int|
            0 <= i < a.len() && (forall|j: int| 0 <= j <= i ==> a[j] != "--"@)
                && #[trigger] is_short_flag_with(a[i], ch);
        assert(t[i] == a[i]);
        assert forall|j: int| 0 <= j <= i implies t[j] != "--"@ by {
            assert(t[j] == a[j]);
        }
        assert(is_short_flag_with(t[i], ch));
    }
}

/// Whether `s` starts with `--`.
pub fn starts_with_double_dash(s: &str) -> (r: bool)
    ensures
        r == starts_with_dashes(s@),
{
    let v = chars_of(s);
    v.len() >= 2 && v[0] == '-' && v[1] == '-'
}

/// Check if any token matches a value exactly.
pub fn has_token(tokens: &[String], value: &str) -> (r: bool)
    ensures
        r == tokens.deep_view().contains(value@),
{
    let n = tokens.len();
    let mut i: usize = 0;
    while i < n
        invariant
            n == tokens@.len(),
            i <= n,
            forall|j: int| 0 <= j < i ==> tokens.deep_view()[j] != value@,
        decreases n - i,
    {
        if str_eq(tokens[i].as_str(), value) {
            assert(tokens.deep_view()[i as int] == value@);
            return true;
        }
        i += 1;
    }
    false
}

/// Check if any short-flag token (starts with `-` but not `--`) contains the given
/// character. Catches combined flags like `-rf`, `-vf`, `-Av`. Stops at the `--`
/// end-of-options sentinel so that positional arguments like filenames starting
/// with `-` are not mistaken for flags.
pub fn has_short_flag_char(tokens: &[String], ch: char) -> (r: bool)
    ensures
        r == spec_has_short_flag_char(tokens.deep_view(), ch),
{
    let ghost t = tokens.deep_view();
    let n = tokens.len();
    let mut i: usize = 0;
    while i < n
        invariant
            n == tokens@.len(),
            t == tokens.deep_view(),
            i <= n,
            forall|j: int| 0 <= j < i ==> t[j] != "--"@,
            forall|j: int| 0 <= j < i ==> !is_short_flag_with(#[trigger] t[j], ch),
        decreases n - i,
    {
        let w = tokens[i].as_str();
        if str_eq(w, "--") {
            assert forall|k: int|
                0 <= k < t.len() && (forall|j: int| 0 <= j <= k ==> t[j] != "--"@) implies !#[trigger] is_short_flag_with(t[k], ch) by {
                if k >= i {
                    assert(t[i as int] == "--"@);
                }
            }
            return false;
        }
        if starts_with_char(w, '-') && !starts_with_double_dash(w) && contains_char(w, ch) {
            assert(is_short_flag_with(t[i as int], ch));
            return true;
        }
        i += 1;
    }
    false
}

/// Check if any token matches a force flag (`-f`, `-vf`, `--force`, etc.).
pub fn has_force_flag(tokens: &[String]) -> (r: bool)
    ensures
        r == spec_has_force_flag(tokens.deep_view()),
{
    has_token(tokens, "--force") || has_short_flag_char(tokens, 'f')
}

} // verus!
