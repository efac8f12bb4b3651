//! Splitting a command line into segments and a segment into words.
use vstd::prelude::*;
use crate::text::{is_ws, trim, chars_of, string_of_range, trim_bounds, is_whitespace, push_char, lemma_trim_len, lemma_trim_idempotent};

verus! {

/// Total number of characters in a sequence of words.
pub open spec fn total_len(t: Seq<Seq<char>>) -> nat
    decreases t.len(),
{
    if t.len() == 0 {
        0
    } else {
        t[0].len() + total_len(t.drop_first())
    }
}

/// The total length of the words from position `i` on (none past the end).
pub open spec fn tail_len(t: Seq<Seq<char>>, i: int) -> nat {
    if 0 <= i < t.len() {
        total_len(t.subrange(i, t.len() as int))
    } else if i < 0 {
        total_len(t)
    } else {
        0
    }
}

/// Appending a word adds its length.
pub proof fn lemma_total_len_push(t: Seq<Seq<char>>, x: Seq<char>)
    ensures
        total_len(t.push(x)) == total_len(t) + x.len(),
    decreases t.len(),
{
    if t.len() > 0 {
        assert(t.push(x)[0] == t[0]);
        assert(t.push(x).drop_first() =~= t.drop_first().push(x));
        lemma_total_len_push(t.drop_first(), x);
    } else {
        assert(t.push(x)[0] == x);
        assert(t.push(x).drop_first() =~= Seq::<Seq<char>>::empty());
        assert(total_len(Seq::<Seq<char>>::empty()) == 0);
    }
}

/// Peeling the word at `i` off the tail.
pub proof fn lemma_tail_len_step(t: Seq<Seq<char>>, i: int)
    requires
        0 <= i < t.len(),
    ensures
        tail_len(t, i) == t[i].len() + tail_len(t, i + 1),
{
    let s = t.subrange(i, t.len() as int);
    assert(s[0] == t[i]);
    assert(s.drop_first() =~= t.subrange(i + 1, t.len() as int));
    if i + 1 == t.len() {
        assert(t.subrange(i + 1, t.len() as int) =~= Seq::<Seq<char>>::empty());
        assert(total_len(Seq::<Seq<char>>::empty()) == 0);
    }
}

/// The tail from `0` is the whole, and every tail is at most the whole.
pub proof fn lemma_tail_len_total(t: Seq<Seq<char>>, i: int)
    requires
        0 <= i,
    ensures
        tail_len(t, 0) == total_len(t),
        tail_len(t, i) <= total_len(t),
    decreases i,
{
    assert(t.subrange(0, t.len() as int) =~= t);
    if i > 0 {
        lemma_tail_len_total(t, i - 1);
        if i - 1 < t.len() {
            lemma_tail_len_step(t, i - 1);
        }
    }
}

/// Tails shrink as they start further on.
pub proof fn lemma_tail_len_mono(t: Seq<Seq<char>>, i: int, k: int)
    requires
        0 <= i <= k,
    ensures
        tail_len(t, k) <= tail_len(t, i),
    decreases k - i,
{
    if i < k {
        lemma_tail_len_mono(t, i + 1, k);
        if i < t.len() {
            lemma_tail_len_step(t, i);
        }
    }
}

/// A character that ends a segment when it stands outside quotes.
pub open spec fn is_operator_char(c: char) -> bool {
    c == ';' || c == '|' || c == '&'
}

/// `rest` starts with one of the two-character operators `&&` and `||`.
pub open spec fn starts_double_operator(rest: Seq<char>) -> bool {
    rest.len() >= 2 && ((rest[0] == '&' && rest[1] == '&') || (rest[0] == '|' && rest[1] == '|'))
}

/// The segments found in `rest`, given the quoting state `sq` (inside single
/// quotes) and `dq` (inside double quotes), the text `cur` of the segment being
/// read and the segments `segs` already completed. A segment ends at `&&`, `||`,
/// `;`, `|` or `&` outside quotes and is trimmed of whitespace; quotes are kept
/// in the segment's text. Only the last segment is dropped when it is blank.
pub open spec fn split_rest(
    rest: Seq<char>,
    sq: bool,
    dq: bool,
    cur: Seq<char>,
    segs: Seq<Seq<char>>,
) -> Seq<Seq<char>>
    decreases rest.len(),
{
    if rest.len() == 0 {
        if trim(cur).len() > 0 {
            segs.push(trim(cur))
        } else {
            segs
        }
    } else {
        let c = rest[0];
        let tail = rest.drop_first();
        if c == '\'' && !dq {
            split_rest(tail, !sq, dq, cur.push(c), segs)
        } else if c == '"' && !sq {
            split_rest(tail, sq, !dq, cur.push(c), segs)
        } else if sq || dq {
            split_rest(tail, sq, dq, cur.push(c), segs)
        } else if starts_double_operator(rest) {
            split_rest(rest.skip(2), sq, dq, seq![], segs.push(trim(cur)))
        } else if is_operator_char(c) {
            split_rest(tail, sq, dq, seq![], segs.push(trim(cur)))
        } else {
            split_rest(tail, sq, dq, cur.push(c), segs)
        }
    }
}

/// The segments of a command line.
pub open spec fn spec_split_segments(cmd: Seq<char>) -> Seq<Seq<char>> {
    split_rest(cmd, false, false, seq![], seq![])
}

/// The words found in `rest`, given the quoting state, the word `cur` being read
/// and the words `toks` already completed. Whitespace outside quotes separates
/// words; quote characters that open or close a quoted span are dropped.
pub open spec fn tokenize_rest(
    rest: Seq<char>,
    sq: bool,
    dq: bool,
    cur: Seq<char>,
    toks: Seq<Seq<char>>,
) -> Seq<Seq<char>>
    decreases rest.len(),
{
    if rest.len() == 0 {
        if cur.len() > 0 {
            toks.push(cur)
        } else {
            toks
        }
    } else {
        let c = rest[0];
        let tail = rest.drop_first();
        if c == '\'' && !dq {
            tokenize_rest(tail, !sq, dq, cur, toks)
        } else if c == '"' && !sq {
            tokenize_rest(tail, sq, !dq, cur, toks)
        } else if is_ws(c) && !sq && !dq {
            if cur.len() > 0 {
                tokenize_rest(tail, sq, dq, seq![], toks.push(cur))
            } else {
                tokenize_rest(tail, sq, dq, cur, toks)
            }
        } else {
            tokenize_rest(tail, sq, dq, cur.push(c), toks)
        }
    }
}

/// The words of a command segment.
pub open spec fn spec_tokenize(segment: Seq<char>) -> Seq<Seq<char>> {
    tokenize_rest(segment, false, false, seq![], seq![])
}

/// The words of `rest` separated by whitespace, as `str::split_whitespace` gives
/// them, given the word `cur` being read and the words `toks` already completed.
pub open spec fn split_ws_rest(rest: Seq<char>, cur: Seq<char>, toks: Seq<Seq<char>>) -> Seq<
    Seq<char>,
>
    decreases rest.len(),
{
    if rest.len() == 0 {
        if cur.len() > 0 {
            toks.push(cur)
        } else {
            toks
        }
    } else if is_ws(rest[0]) {
        if cur.len() > 0 {
            split_ws_rest(rest.drop_first(), seq![], toks.push(cur))
        } else {
            split_ws_rest(rest.drop_first(), cur, toks)
        }
    } else {
        split_ws_rest(rest.drop_first(), cur.push(rest[0]), toks)
    }
}

/// The non-empty runs of non-whitespace characters of `s`, in order.
pub open spec fn spec_split_whitespace(s: Seq<char>) -> Seq<Seq<char>> {
    split_ws_rest(s, seq![], seq![])
}

/// Every word of `t` is trimmed of whitespace.
pub open spec fn all_trimmed(t: Seq<Seq<char>>) -> bool {
    forall|k: int| 0 <= k < t.len() ==> trim(#[trigger] t[k]) == t[k]
}

/// Every word of `t` is non-empty.
pub open spec fn all_nonempty(t: Seq<Seq<char>>) -> bool {
    forall|k: int| 0 <= k < t.len() ==> #[trigger] t[k].len() > 0
}

/// No character of `s` is `;`, `|` or `&`.
pub open spec fn operator_free(s: Seq<char>) -> bool {
    forall|k: int| 0 <= k < s.len() ==> !is_operator_char(#[trigger] s[k])
}

/// No character of `s` is a quote.
pub open spec fn quote_free(s: Seq<char>) -> bool {
    forall|k: int| 0 <= k < s.len() ==> #[trigger] s[k] != '\'' && s[k] != '"'
}

/// The segments keep their total length within the input, and each is trimmed.
proof fn lemma_split_rest(
    rest: Seq<char>,
    sq: bool,
    dq: bool,
    cur: Seq<char>,
    segs: Seq<Seq<char>>,
)
    requires
        all_trimmed(segs),
    ensures
        total_len(split_rest(rest, sq, dq, cur, segs)) <= total_len(segs) + cur.len() + rest.len(),
        all_trimmed(split_rest(rest, sq, dq, cur, segs)),
    decreases rest.len(),
{
    lemma_trim_len(cur);
    lemma_trim_idempotent(cur);
    lemma_total_len_push(segs, trim(cur));
    assert(all_trimmed(segs.push(trim(cur)))) by {
        assert forall|k: int| 0 <= k < segs.push(trim(cur)).len() implies trim(
            #[trigger] segs.push(trim(cur))[k],
        ) == segs.push(trim(cur))[k] by {
            if k < segs.len() {
                assert(segs.push(trim(cur))[k] == segs[k]);
            }
        }
    }
    if rest.len() > 0 {
        let c = rest[0];
        let tail = rest.drop_first();
        if c == '\'' && !dq {
            lemma_split_rest(tail, !sq, dq, cur.push(c), segs);
        } else if c == '"' && !sq {
            lemma_split_rest(tail, sq, !dq, cur.push(c), segs);
        } else if sq || dq {
            lemma_split_rest(tail, sq, dq, cur.push(c), segs);
        } else if starts_double_operator(rest) {
            lemma_split_rest(rest.skip(2), sq, dq, seq![], segs.push(trim(cur)));
        } else if is_operator_char(c) {
            lemma_split_rest(tail, sq, dq, seq![], segs.push(trim(cur)));
        } else {
            lemma_split_rest(tail, sq, dq, cur.push(c), segs);
        }
    }
}

/// The segments of a command are no longer, in total, than the command.
pub proof fn lemma_split_segments_len(cmd: Seq<char>)
    ensures
        total_len(spec_split_segments(cmd)) <= cmd.len(),
{
    assert(total_len(Seq::<Seq<char>>::empty()) == 0);
    lemma_split_rest(cmd, false, false, seq![], seq![]);
}

/// Every segment of a command is trimmed of whitespace: no segment starts or
/// ends with whitespace.
pub proof fn lemma_segments_trimmed(cmd: Seq<char>)
    ensures
        all_trimmed(spec_split_segments(cmd)),
{
    lemma_split_rest(cmd, false, false, seq![], seq![]);
}

proof fn lemma_split_rest_operator_free(
    rest: Seq<char>,
    sq: bool,
    dq: bool,
    cur: Seq<char>,
    segs: Seq<Seq<char>>,
)
    requires
        operator_free(rest),
    ensures
        split_rest(rest, sq, dq, cur, segs) == (if trim(cur + rest).len() > 0 {
            segs.push(trim(cur + rest))
        } else {
            segs
        }),
    decreases rest.len(),
{
    if rest.len() == 0 {
        assert(cur + rest =~= cur);
    } else {
        let c = rest[0];
        assert(!is_operator_char(rest[0]));
        assert(cur.push(c) + rest.drop_first() =~= cur + rest);
        assert(operator_free(rest.drop_first())) by {
            assert forall|k: int| 0 <= k < rest.drop_first().len() implies !is_operator_char(
                #[trigger] rest.drop_first()[k],
            ) by {
                assert(rest.drop_first()[k] == rest[k + 1]);
            }
        }
        if c == '\'' && !dq {
            lemma_split_rest_operator_free(rest.drop_first(), !sq, dq, cur.push(c), segs);
        } else if c == '"' && !sq {
            lemma_split_rest_operator_free(rest.drop_first(), sq, !dq, cur.push(c), segs);
        } else {
            lemma_split_rest_operator_free(rest.drop_first(), sq, dq, cur.push(c), segs);
        }
    }
}

/// A command with none of the operator characters `;`, `|`, `&` is one segment,
/// the command trimmed (none when it is blank).
pub proof fn lemma_operator_free_single_segment(cmd: Seq<char>)
    requires
        operator_free(cmd),
    ensures
        spec_split_segments(cmd) == (if trim(cmd).len() > 0 {
            seq![trim(cmd)]
        } else {
            Seq::<Seq<char>>::empty()
        }),
{
    lemma_split_rest_operator_free(cmd, false, false, seq![], seq![]);
    assert(Seq::<char>::empty() + cmd =~= cmd);
    assert(Seq::<Seq<char>>::empty().push(trim(cmd)) =~= seq![trim(cmd)]);
}

/// The reading state after all of `rest`, from the given state: the quoting,
/// the text of the segment being read, and the segments completed. A final
/// `&` or `|` counts as a one-character operator.
pub open spec fn split_state(
    rest: Seq<char>,
    sq: bool,
    dq: bool,
    cur: Seq<char>,
    segs: Seq<Seq<char>>,
) -> (bool, bool, Seq<char>, Seq<Seq<char>>)
    decreases rest.len(),
{
    if rest.len() == 0 {
        (sq, dq, cur, segs)
    } else {
        let c = rest[0];
        let tail = rest.drop_first();
        if c == '\'' && !dq {
            split_state(tail, !sq, dq, cur.push(c), segs)
        } else if c == '"' && !sq {
            split_state(tail, sq, !dq, cur.push(c), segs)
        } else if sq || dq {
            split_state(tail, sq, dq, cur.push(c), segs)
        } else if starts_double_operator(rest) {
            split_state(rest.skip(2), sq, dq, seq![], segs.push(trim(cur)))
        } else if is_operator_char(c) {
            split_state(tail, sq, dq, seq![], segs.push(trim(cur)))
        } else {
            split_state(tail, sq, dq, cur.push(c), segs)
        }
    }
}

/// Reading `a` and then `r` is reading `r` from the state `a` leaves, when the
/// last character of `a` and the first of `r` cannot form `&&` or `||`.
pub proof fn lemma_split_rest_append(
    a: Seq<char>,
    r: Seq<char>,
    sq: bool,
    dq: bool,
    cur: Seq<char>,
    segs: Seq<Seq<char>>,
)
    requires
        r.len() == 0 || (r[0] != '&' && r[0] != '|') || a.len() == 0 || (a.last() != '&'
            && a.last() != '|'),
    ensures
        ({
            let st = split_state(a, sq, dq, cur, segs);
            split_rest(a + r, sq, dq, cur, segs) == split_rest(r, st.0, st.1, st.2, st.3)
        }),
    decreases a.len(),
{
    if a.len() == 0 {
        assert(a + r =~= r);
    } else {
        let c = a[0];
        let ar = a + r;
        assert(ar[0] == c);
        assert(ar.drop_first() =~= a.drop_first() + r);
        if a.len() >= 2 {
            assert(ar[1] == a[1]);
            assert(ar.skip(2) =~= a.skip(2) + r);
        } else if r.len() > 0 {
            assert(ar[1] == r[0]);
            assert(a.last() == a[0]);
        }
        if a.len() >= 2 {
            assert(a.drop_first().last() == a.last());
            assert(a.skip(2).len() == 0 || a.skip(2).last() == a.last());
        }
        assert(starts_double_operator(ar) == starts_double_operator(a));
        if c == '\'' && !dq {
            lemma_split_rest_append(a.drop_first(), r, !sq, dq, cur.push(c), segs);
        } else if c == '"' && !sq {
            lemma_split_rest_append(a.drop_first(), r, sq, !dq, cur.push(c), segs);
        } else if sq || dq {
            lemma_split_rest_append(a.drop_first(), r, sq, dq, cur.push(c), segs);
        } else if starts_double_operator(a) {
            lemma_split_rest_append(a.skip(2), r, sq, dq, seq![], segs.push(trim(cur)));
        } else if is_operator_char(c) {
            lemma_split_rest_append(a.drop_first(), r, sq, dq, seq![], segs.push(trim(cur)));
        } else {
            lemma_split_rest_append(a.drop_first(), r, sq, dq, cur.push(c), segs);
        }
    }
}

/// The segments completed before reading only come first.
pub proof fn lemma_split_rest_prefix(
    rest: Seq<char>,
    sq: bool,
    dq: bool,
    cur: Seq<char>,
    segs: Seq<Seq<char>>,
)
    ensures
        split_rest(rest, sq, dq, cur, segs) == segs + split_rest(rest, sq, dq, cur, seq![]),
    decreases rest.len(),
{
    let e = Seq::<Seq<char>>::empty();
    assert(segs.push(trim(cur)) =~= segs + e.push(trim(cur)));
    assert(segs =~= segs + e);
    if rest.len() > 0 {
        let c = rest[0];
        let tail = rest.drop_first();
        if c == '\'' && !dq {
            lemma_split_rest_prefix(tail, !sq, dq, cur.push(c), segs);
            lemma_split_rest_prefix(tail, !sq, dq, cur.push(c), e);
        } else if c == '"' && !sq {
            lemma_split_rest_prefix(tail, sq, !dq, cur.push(c), segs);
            lemma_split_rest_prefix(tail, sq, !dq, cur.push(c), e);
        } else if sq || dq {
            lemma_split_rest_prefix(tail, sq, dq, cur.push(c), segs);
            lemma_split_rest_prefix(tail, sq, dq, cur.push(c), e);
        } else if starts_double_operator(rest) {
            lemma_split_rest_prefix(rest.skip(2), sq, dq, seq![], segs.push(trim(cur)));
            lemma_split_rest_prefix(rest.skip(2), sq, dq, seq![], e.push(trim(cur)));
            assert(segs + (e.push(trim(cur)) + split_rest(rest.skip(2), sq, dq, seq![], e))
                =~= segs.push(trim(cur)) + split_rest(rest.skip(2), sq, dq, seq![], e));
        } else if is_operator_char(c) {
            lemma_split_rest_prefix(tail, sq, dq, seq![], segs.push(trim(cur)));
            lemma_split_rest_prefix(tail, sq, dq, seq![], e.push(trim(cur)));
            assert(segs + (e.push(trim(cur)) + split_rest(tail, sq, dq, seq![], e))
                =~= segs.push(trim(cur)) + split_rest(tail, sq, dq, seq![], e));
        } else {
            lemma_split_rest_prefix(tail, sq, dq, cur.push(c), segs);
            lemma_split_rest_prefix(tail, sq, dq, cur.push(c), e);
        }
    }
}

/// Reading `a` with `split_segments`' quoting rules ends outside quotes.
pub open spec fn quotes_closed(a: Seq<char>) -> bool {
    let st = split_state(a, false, false, seq![], seq![]);
    !st.0 && !st.1
}

/// The text `a` leaves unfinished when read alone.
pub open spec fn last_piece(a: Seq<char>) -> Seq<char> {
    trim(split_state(a, false, false, seq![], seq![]).2)
}

/// Joining `a` and `b` with `;`, where `a` leaves no quote open, gives the
/// segments of `a`, then a blank segment when `a` ends blank, then the
/// segments of `b`.
pub proof fn lemma_split_sequence(a: Seq<char>, b: Seq<char>)
    requires
        quotes_closed(a),
    ensures
        spec_split_segments(a + seq![';'] + b) == spec_split_segments(a) + (if last_piece(a).len()
            > 0 {
            Seq::<Seq<char>>::empty()
        } else {
            seq![last_piece(a)]
        }) + spec_split_segments(b),
{
    let st = split_state(a, false, false, seq![], seq![]);
    let r = seq![';'] + b;
    assert(a + seq![';'] + b =~= a + r);
    assert(r[0] == ';');
    lemma_split_rest_append(a, r, false, false, seq![], seq![]);
    lemma_split_rest_append(a, Seq::<char>::empty(), false, false, seq![], seq![]);
    assert(a + Seq::<char>::empty() =~= a);
    assert(r.drop_first() =~= b);
    assert(!starts_double_operator(r));
    let pushed = st.3.push(trim(st.2));
    lemma_split_rest_prefix(b, false, false, seq![], pushed);
    if last_piece(a).len() > 0 {
        assert(pushed + Seq::<Seq<char>>::empty() =~= pushed);
    } else {
        assert(pushed =~= st.3 + seq![last_piece(a)]);
    }
}

/// The shell operators that separate segments, as text.
pub open spec fn is_operator_text(op: Seq<char>) -> bool {
    ||| op == seq![';']
    ||| op == seq!['|']
    ||| op == seq!['&']
    ||| op == seq!['&', '&']
    ||| op == seq!['|', '|']
}

/// Joining `a` and `b` with any of the operators `;`, `|`, `&`, `&&`, `||`,
/// where `a` leaves no quote open and neither side touches the operator with
/// another `&` or `|`, gives the segments of `a`, then a blank segment when `a`
/// ends blank, then the segments of `b`.
pub proof fn lemma_split_joined(a: Seq<char>, op: Seq<char>, b: Seq<char>)
    requires
        quotes_closed(a),
        is_operator_text(op),
        a.len() == 0 || (a.last() != '&' && a.last() != '|'),
        b.len() == 0 || (b[0] != '&' && b[0] != '|'),
    ensures
        spec_split_segments(a + op + b) == spec_split_segments(a) + (if last_piece(a).len() > 0 {
            Seq::<Seq<char>>::empty()
        } else {
            seq![last_piece(a)]
        }) + spec_split_segments(b),
{
    let st = split_state(a, false, false, seq![], seq![]);
    let r = op + b;
    assert(a + op + b =~= a + r);
    assert(r[0] == op[0]);
    lemma_split_rest_append(a, r, false, false, seq![], seq![]);
    lemma_split_rest_append(a, Seq::<char>::empty(), false, false, seq![], seq![]);
    assert(a + Seq::<char>::empty() =~= a);
    if op.len() == 1 {
        assert(r.drop_first() =~= b);
        if b.len() > 0 {
            assert(r[1] == b[0]);
        }
        assert(!starts_double_operator(r));
    } else {
        assert(r[1] == op[1]);
        assert(starts_double_operator(r));
        assert(r.skip(2) =~= b);
    }
    let pushed = st.3.push(trim(st.2));
    lemma_split_rest_prefix(b, false, false, seq![], pushed);
    if last_piece(a).len() > 0 {
        assert(pushed + Seq::<Seq<char>>::empty() =~= pushed);
    } else {
        assert(pushed =~= st.3 + seq![last_piece(a)]);
    }
}

/// The words keep their total length within the input, and none is empty.
proof fn lemma_tokenize_rest(
    rest: Seq<char>,
    sq: bool,
    dq: bool,
    cur: Seq<char>,
    toks: Seq<Seq<char>>,
)
    requires
        all_nonempty(toks),
    ensures
        total_len(tokenize_rest(rest, sq, dq, cur, toks)) <= total_len(toks) + cur.len() + rest.len(),
        all_nonempty(tokenize_rest(rest, sq, dq, cur, toks)),
    decreases rest.len(),
{
    lemma_total_len_push(toks, cur);
    if cur.len() > 0 {
        assert(all_nonempty(toks.push(cur))) by {
            assert forall|k: int| 0 <= k < toks.push(cur).len() implies #[trigger] toks.push(
                cur,
            )[k].len() > 0 by {
                if k < toks.len() {
                    assert(toks.push(cur)[k] == toks[k]);
                }
            }
        }
    }
    if rest.len() > 0 {
        let c = rest[0];
        let tail = rest.drop_first();
        if c == '\'' && !dq {
            lemma_tokenize_rest(tail, !sq, dq, cur, toks);
        } else if c == '"' && !sq {
            lemma_tokenize_rest(tail, sq, !dq, cur, toks);
        } else if is_ws(c) && !sq && !dq {
            if cur.len() > 0 {
                lemma_tokenize_rest(tail, sq, dq, seq![], toks.push(cur));
            } else {
                lemma_tokenize_rest(tail, sq, dq, cur, toks);
            }
        } else {
            lemma_tokenize_rest(tail, sq, dq, cur.push(c), toks);
        }
    }
}

/// The words of a segment are no longer, in total, than the segment, and no
/// word is empty.
pub proof fn lemma_tokenize_words(segment: Seq<char>)
    ensures
        total_len(spec_tokenize(segment)) <= segment.len(),
        all_nonempty(spec_tokenize(segment)),
{
    assert(total_len(Seq::<Seq<char>>::empty()) == 0);
    lemma_tokenize_rest(segment, false, false, seq![], seq![]);
}

proof fn lemma_tokenize_rest_quote_free(rest: Seq<char>, cur: Seq<char>, toks: Seq<Seq<char>>)
    requires
        quote_free(rest),
    ensures
        tokenize_rest(rest, false, false, cur, toks) == split_ws_rest(rest, cur, toks),
    decreases rest.len(),
{
    if rest.len() > 0 {
        assert(rest[0] != '\'' && rest[0] != '"');
        assert(quote_free(rest.drop_first())) by {
            assert forall|k: int| 0 <= k < rest.drop_first().len() implies #[trigger] rest.drop_first()[k]
                != '\'' && rest.drop_first()[k] != '"' by {
                assert(rest.drop_first()[k] == rest[k + 1]);
            }
        }
        if is_ws(rest[0]) {
            if cur.len() > 0 {
                lemma_tokenize_rest_quote_free(rest.drop_first(), seq![], toks.push(cur));
            } else {
                lemma_tokenize_rest_quote_free(rest.drop_first(), cur, toks);
            }
        } else {
            lemma_tokenize_rest_quote_free(rest.drop_first(), cur.push(rest[0]), toks);
        }
    }
}

/// Without quotes, the words of a segment are its whitespace-separated words.
pub proof fn lemma_quote_free_tokenize(segment: Seq<char>)
    requires
        quote_free(segment),
    ensures
        spec_tokenize(segment) == spec_split_whitespace(segment),
{
    lemma_tokenize_rest_quote_free(segment, seq![], seq![]);
}

/// Split a command string into segments at shell operators (`&&`, `||`, `;`,
/// `|`, `&`). Each segment is evaluated independently.
pub fn split_segments(cmd: &str) -> (segs: Vec<String>)
    ensures
        segs.deep_view() == spec_split_segments(cmd@),
{
    let v = chars_of(cmd);
    let len = v.len();
    let mut segs: Vec<String> = Vec::new();
    let mut start: usize = 0;
    let mut i: usize = 0;
    let mut in_single_quote = false;
    let mut in_double_quote = false;
    assert(v@.skip(0) =~= v@);
    assert(v@.subrange(0, 0) =~= Seq::<char>::empty());
    assert(segs.deep_view() =~= Seq::<Seq<char>>::empty());
    while i < len
        invariant
            len == v@.len(),
            start <= i <= len,
            split_rest(
                v@.skip(i as int),
                in_single_quote,
                in_double_quote,
                v@.subrange(start as int, i as int),
                segs.deep_view(),
            ) == spec_split_segments(cmd@),
            v@ == cmd@,
        decreases len - i,
    {
        let ghost rest = v@.skip(i as int);
        let ghost old_segs = segs.deep_view();
        assert(rest[0] == v@[i as int]);
        assert(rest.drop_first() =~= v@.skip(i + 1));
        assert(v@.subrange(start as int, i + 1) =~= v@.subrange(start as int, i as int).push(
            v@[i as int],
        ));
        let c = v[i];
        if c == '\'' && !in_double_quote {
            in_single_quote = !in_single_quote;
            i += 1;
            continue;
        }
        if c == '"' && !in_single_quote {
            in_double_quote = !in_double_quote;
            i += 1;
            continue;
        }
        if in_single_quote || in_double_quote {
            i += 1;
            continue;
        }
        if i + 1 < len && ((c == '&' && v[i + 1] == '&') || (c == '|' && v[i + 1] == '|')) {
            let (a, b) = trim_bounds(&v, start, i);
            let s = string_of_range(&v, a, b);
            segs.push(s);
            assert(segs.deep_view() =~= old_segs.push(trim(v@.subrange(start as int, i as int))));
            assert(rest.skip(2) =~= v@.skip(i + 2));
            assert(rest[1] == v@[i + 1]);
            i += 2;
            start = i;
            assert(v@.subrange(start as int, i as int) =~= Seq::<char>::empty());
            continue;
        }
        if c == ';' || c == '|' || c == '&' {
            assert(!starts_double_operator(rest)) by {
                if rest.len() >= 2 {
                    assert(rest[1] == v@[i + 1]);
                }
            }
            let (a, b) = trim_bounds(&v, start, i);
            let s = string_of_range(&v, a, b);
            segs.push(s);
            assert(segs.deep_view() =~= old_segs.push(trim(v@.subrange(start as int, i as int))));
            i += 1;
            start = i;
            assert(v@.subrange(start as int, i as int) =~= Seq::<char>::empty());
            continue;
        }
        assert(!starts_double_operator(rest)) by {
            if rest.len() >= 2 {
                assert(rest[1] == v@[i + 1]);
            }
        }
        i += 1;
    }
    let ghost old_segs = segs.deep_view();
    assert(v@.skip(i as int) =~= Seq::<char>::empty());
    let (a, b) = trim_bounds(&v, start, len);
    if a < b {
        let s = string_of_range(&v, a, b);
        segs.push(s);
        assert(segs.deep_view() =~= old_segs.push(trim(v@.subrange(start as int, len as int))));
    }
    segs
}

/// Tokenize a single command segment into words, handling basic quoting.
pub fn tokenize(segment: &str) -> (tokens: Vec<String>)
    ensures
        tokens.deep_view() == spec_tokenize(segment@),
{
    let v = chars_of(segment);
    let len = v.len();
    let mut tokens: Vec<String> = Vec::new();
    let mut current = String::new();
    let mut i: usize = 0;
    let mut in_single_quote = false;
    let mut in_double_quote = false;
    assert(v@.skip(0) =~= v@);
    assert(tokens.deep_view() =~= Seq::<Seq<char>>::empty());
    while i < len
        invariant
            len == v@.len(),
            i <= len,
            tokenize_rest(
                v@.skip(i as int),
                in_single_quote,
                in_double_quote,
                current@,
                tokens.deep_view(),
            ) == spec_tokenize(segment@),
            v@ == segment@,
        decreases len - i,
    {
        let ghost rest = v@.skip(i as int);
        let ghost old_tokens = tokens.deep_view();
        assert(rest[0] == v@[i as int]);
        assert(rest.drop_first() =~= v@.skip(i + 1));
        let c = v[i];
        if c == '\'' && !in_double_quote {
            in_single_quote = !in_single_quote;
            i += 1;
            continue;
        }
        if c == '"' && !in_single_quote {
            in_double_quote = !in_double_quote;
            i += 1;
            continue;
        }
        if is_whitespace(c) && !in_single_quote && !in_double_quote {
            if !current.as_str().is_empty() {
                let done = current;
                current = String::new();
                tokens.push(done);
                assert(tokens.deep_view() =~= old_tokens.push(done@));
            }
            i += 1;
            continue;
        }
        push_char(&mut current, c);
        i += 1;
    }
    assert(v@.skip(i as int) =~= Seq::<char>::empty());
    let ghost old_tokens = tokens.deep_view();
    if !current.as_str().is_empty() {
        let ghost cv = current@;
        tokens.push(current);
        assert(tokens.deep_view() =~= old_tokens.push(cv));
    }
    tokens
}

/// The non-empty whitespace-separated words of `s` (`str::split_whitespace`).
pub fn split_whitespace(s: &str) -> (words: Vec<String>)
    ensures
        words.deep_view() == spec_split_whitespace(s@),
{
    let v = chars_of(s);
    let len = v.len();
    let mut words: Vec<String> = Vec::new();
    let mut current = String::new();
    let mut i: usize = 0;
    assert(v@.skip(0) =~= v@);
    assert(words.deep_view() =~= Seq::<Seq<char>>::empty());
    while i < len
        invariant
            len == v@.len(),
            i <= len,
            split_ws_rest(v@.skip(i as int), current@, words.deep_view()) == spec_split_whitespace(
                s@,
            ),
            v@ == s@,
        decreases len - i,
    {
        let ghost rest = v@.skip(i as int);
        let ghost old_words = words.deep_view();
        assert(rest[0] == v@[i as int]);
        assert(rest.drop_first() =~= v@.skip(i + 1));
        let c = v[i];
        if is_whitespace(c) {
            if !current.as_str().is_empty() {
                let done = current;
                current = String::new();
                words.push(done);
                assert(words.deep_view() =~= old_words.push(done@));
            }
        } else {
            push_char(&mut current, c);
        }
        i += 1;
    }
    assert(v@.skip(i as int) =~= Seq::<char>::empty());
    let ghost old_words = words.deep_view();
    if !current.as_str().is_empty() {
        let ghost cv = current@;
        words.push(current);
        assert(words.deep_view() =~= old_words.push(cv));
    }
    words
}

} // verus!
