//! Framing of commit files: a commit file is newline-delimited JSON, one
//! action per line. This module splits the bytes of a commit file into the
//! lines that hold actions.
use crate::text::{blank, chars_of, contains_sub, has_substring, is_blank, opt_view};
use vstd::prelude::*;
use vstd::utf8::{decode_utf8, valid_utf8};

verus! {

/// Index of the first `\n` in `b` at or after `start`, or `b.len()`.
pub open spec fn line_end(b: Seq<u8>, start: int) -> int
    decreases b.len() - start,
{
    if start >= b.len() {
        b.len() as int
    } else if b[start] == 10u8 {
        start
    } else {
        line_end(b, start + 1)
    }
}

/// `line_end` lies between `start` and the end, at a `\n` when before the
/// end, and no `\n` comes between `start` and it.
pub proof fn lemma_line_end(b: Seq<u8>, start: int)
    requires
        0 <= start <= b.len(),
    ensures
        start <= line_end(b, start) <= b.len(),
        line_end(b, start) < b.len() ==> b[line_end(b, start)] == 10u8,
        forall|k: int| start <= k < line_end(b, start) ==> b[k] != 10u8,
    decreases b.len() - start,
{
    if start < b.len() && b[start] != 10u8 {
        lemma_line_end(b, start + 1);
    }
}

/// The line that starts at `start`: up to the next `\n`, without it, and
/// without a `\r` just before it.
pub open spec fn line_at(b: Seq<u8>, start: int) -> Seq<u8> {
    let e = line_end(b, start);
    let l = b.subrange(start, e);
    if e < b.len() && l.len() > 0 && l.last() == 13u8 {
        l.drop_last()
    } else {
        l
    }
}

/// The lines of `b` from `start` on, as `BufRead::lines` yields them.
pub open spec fn lines_from(b: Seq<u8>, start: int) -> Seq<Seq<u8>>
    decreases b.len() + 1 - start,
{
    if start < 0 || start >= b.len() {
        seq![]
    } else {
        proof {
            lemma_line_end(b, start);
        }
        seq![line_at(b, start)] + lines_from(b, line_end(b, start) + 1)
    }
}

/// The lines of `b`.
pub open spec fn log_lines(b: Seq<u8>) -> Seq<Seq<u8>> {
    lines_from(b, 0)
}

/// The lines that hold an action, in order, each with its index among all
/// lines: a valid UTF-8 line that is not blank comes with its text; a line
/// that is not valid UTF-8 comes with `None`, to be skipped with a warning.
/// Blank lines are left out.
pub open spec fn action_lines(lines: Seq<Seq<u8>>) -> Seq<(int, Option<Seq<char>>)>
    decreases lines.len(),
{
    if lines.len() == 0 {
        seq![]
    } else {
        let r = action_lines(lines.drop_last());
        if !valid_utf8(lines.last()) {
            r.push((lines.len() - 1, None))
        } else if is_blank(decode_utf8(lines.last())) {
            r
        } else {
            r.push((lines.len() - 1, Some(decode_utf8(lines.last()))))
        }
    }
}

/// `std::str::from_utf8`, with the text copied into a `String`. The contract
/// claims that it succeeds exactly on valid UTF-8 and then returns the decoded
/// characters.
#[verifier::external_body]
fn utf8_decode(bytes: &[u8]) -> (r: Option<String>)
    ensures
        r is Some <==> valid_utf8(bytes@),
        r matches Some(s) ==> s@ == decode_utf8(bytes@),
{
    std::str::from_utf8(bytes).ok().map(|s| s.to_owned())
}

/// Numbered lines as index and optional text.
pub open spec fn numbered_view(v: Seq<(usize, Option<String>)>) -> Seq<(int, Option<Seq<char>>)> {
    v.map_values(|p: (usize, Option<String>)| (p.0 as int, opt_view(p.1)))
}

/// Parses newline-delimited JSON commit files into their action lines.
pub struct CommitParser;

impl CommitParser {
    /// The lines of a commit file that hold an action, in order, each with
    /// its index among all lines (counted from 0) and its text. Blank lines
    /// (white space only) are left out; a line that is not valid UTF-8 comes
    /// without text, so that it can be skipped with a warning.
    pub fn split_lines(data: &[u8]) -> (r: Vec<(usize, Option<String>)>)
        ensures
            action_lines(log_lines(data@)) == numbered_view(r@),
    {
        let n = data.len();
        let mut out: Vec<(usize, Option<String>)> = Vec::new();
        let mut start: usize = 0;
        let mut idx: usize = 0;
        let ghost mut seen: Seq<Seq<u8>> = Seq::empty();
        proof {
            assert(seen + lines_from(data@, 0) =~= log_lines(data@));
        }
        while start < n
            invariant
                n == data@.len(),
                start <= n,
                seen + lines_from(data@, start as int) == log_lines(data@),
                idx == seen.len(),
                idx <= start,
                action_lines(seen) == numbered_view(out@),
            decreases n - start,
        {
            let mut e = start;
            proof {
                lemma_line_end(data@, start as int);
            }
            while e < n && data[e] != 10u8
                invariant
                    start <= e <= n,
                    n == data@.len(),
                    line_end(data@, e as int) == line_end(data@, start as int),
                decreases n - e,
            {
                e += 1;
            }
            let mut stop = e;
            if e < n && stop > start && data[stop - 1] == 13u8 {
                stop -= 1;
            }
            let mut line: Vec<u8> = Vec::new();
            let mut k = start;
            while k < stop
                invariant
                    start <= k <= stop,
                    stop <= n,
                    n == data@.len(),
                    line@ == data@.subrange(start as int, k as int),
                decreases stop - k,
            {
                line.push(data[k]);
                k += 1;
            }
            let ghost l = line_at(data@, start as int);
            assert(line@ =~= l);
            proof {
                assert(lines_from(data@, start as int) =~= seq![l] + lines_from(data@, e + 1));
                assert(seen + lines_from(data@, start as int) =~= seen.push(l) + lines_from(data@, e + 1));
                assert(seen.push(l).drop_last() =~= seen);
            }
            match utf8_decode(line.as_slice()) {
                None => {
                    let ghost before = numbered_view(out@);
                    out.push((idx, None));
                    assert(numbered_view(out@) =~= before.push((idx as int, None)));
                },
                Some(text) => {
                    let cs = chars_of(text.as_str());
                    if !blank(&cs) {
                        let ghost before = numbered_view(out@);
                        out.push((idx, Some(text)));
                        assert(numbered_view(out@) =~= before.push((idx as int, Some(decode_utf8(l)))));
                    }
                },
            }
            proof {
                seen = seen.push(l);
            }
            idx += 1;
            if e < n {
                start = e + 1;
            } else {
                assert(lines_from(data@, e + 1) =~= lines_from(data@, n as int));
                start = n;
            }
        }
        proof {
            assert(lines_from(data@, start as int) =~= Seq::<Seq<u8>>::empty());
            assert(seen + Seq::<Seq<u8>>::empty() =~= seen);
        }
        out
    }
}

/// Whether the message of an error met while decoding an action line says
/// that the line holds an action of a kind this library does not know. Such
/// lines are skipped without a warning: Delta tables may carry extension
/// actions.
pub fn is_unknown_action(message: &str) -> (r: bool)
    ensures
        r == has_substring(message@, "unknown variant"@),
{
    contains_sub(&chars_of(message), &chars_of("unknown variant"))
}

/// No action line's text is blank.
pub proof fn lemma_action_lines_not_blank(lines: Seq<Seq<u8>>)
    ensures
        forall|i: int|
            0 <= i < action_lines(lines).len() ==> ((#[trigger] action_lines(lines)[i]).1 matches Some(t) ==> !is_blank(t)),
    decreases lines.len(),
{
    if lines.len() > 0 {
        lemma_action_lines_not_blank(lines.drop_last());
    }
}

/// The action lines with their indices moved up by `n`.
pub open spec fn shifted(s: Seq<(int, Option<Seq<char>>)>, n: int) -> Seq<(int, Option<Seq<char>>)> {
    s.map_values(|p: (int, Option<Seq<char>>)| (p.0 + n, p.1))
}

proof fn lemma_line_end_shift(a: Seq<u8>, b: Seq<u8>, k: int)
    requires
        0 <= k <= b.len(),
    ensures
        line_end(a + b, a.len() + k) == a.len() + line_end(b, k),
    decreases b.len() - k,
{
    if k < b.len() && b[k] != 10u8 {
        assert((a + b)[a.len() + k] == b[k]);
        lemma_line_end_shift(a, b, k + 1);
    } else if k < b.len() {
        assert((a + b)[a.len() + k] == b[k]);
    }
}

proof fn lemma_lines_shift(a: Seq<u8>, b: Seq<u8>, k: int)
    requires
        0 <= k,
    ensures
        lines_from(a + b, a.len() + k) == lines_from(b, k),
    decreases b.len() + 1 - k,
{
    if k < b.len() {
        lemma_line_end(b, k);
        lemma_line_end_shift(a, b, k);
        let e = line_end(b, k);
        assert((a + b).subrange(a.len() + k, a.len() + e) =~= b.subrange(k, e));
        if e < b.len() {
            assert((a + b)[a.len() + e] == b[e]);
        }
        assert(line_at(a + b, a.len() + k) == line_at(b, k));
        lemma_lines_shift(a, b, e + 1);
    }
}

proof fn lemma_line_end_prefix(a: Seq<u8>, b: Seq<u8>, s: int)
    requires
        0 <= s < a.len(),
        a.last() == 10u8,
    ensures
        line_end(a + b, s) == line_end(a, s),
    decreases a.len() - s,
{
    assert((a + b)[s] == a[s]);
    if a[s] != 10u8 {
        lemma_line_end_prefix(a, b, s + 1);
    }
}

proof fn lemma_lines_prefix(a: Seq<u8>, b: Seq<u8>, s: int)
    requires
        0 <= s <= a.len(),
        a.len() > 0,
        a.last() == 10u8,
    ensures
        lines_from(a + b, s) == lines_from(a, s) + log_lines(b),
    decreases a.len() - s,
{
    if s == a.len() {
        lemma_lines_shift(a, b, 0);
        assert(lines_from(a, s) =~= Seq::<Seq<u8>>::empty());
        assert(Seq::<Seq<u8>>::empty() + log_lines(b) =~= log_lines(b));
    } else {
        lemma_line_end(a, s);
        lemma_line_end_prefix(a, b, s);
        let e = line_end(a, s);
        assert(e < a.len()) by {
            if e == a.len() {
                assert(a[a.len() - 1] == 10u8);
            }
        }
        assert((a + b).subrange(s, e) =~= a.subrange(s, e));
        assert((a + b)[e] == a[e]);
        assert(line_at(a + b, s) == line_at(a, s));
        lemma_lines_prefix(a, b, e + 1);
        assert(lines_from(a + b, s) =~= seq![line_at(a, s)] + lines_from(a + b, e + 1));
        assert(lines_from(a, s) =~= seq![line_at(a, s)] + lines_from(a, e + 1));
        assert(seq![line_at(a, s)] + (lines_from(a, e + 1) + log_lines(b)) =~= (seq![line_at(a, s)]
            + lines_from(a, e + 1)) + log_lines(b));
    }
}

proof fn lemma_action_lines_append(l1: Seq<Seq<u8>>, l2: Seq<Seq<u8>>)
    ensures
        action_lines(l1 + l2) == action_lines(l1) + shifted(action_lines(l2), l1.len() as int),
    decreases l2.len(),
{
    if l2.len() == 0 {
        assert(l1 + l2 =~= l1);
        assert(shifted(action_lines(l2), l1.len() as int) =~= Seq::<(int, Option<Seq<char>>)>::empty());
        assert(action_lines(l1) + Seq::<(int, Option<Seq<char>>)>::empty() =~= action_lines(l1));
    } else {
        lemma_action_lines_append(l1, l2.drop_last());
        assert((l1 + l2).drop_last() =~= l1 + l2.drop_last());
        assert((l1 + l2).last() == l2.last());
        let r1 = action_lines(l1);
        let r2 = action_lines(l2.drop_last());
        let n = l1.len() as int;
        assert(shifted(r2.push((l2.len() - 1, None)), n) =~= shifted(r2, n).push((l1.len() + l2.len() - 1, None)));
        assert(shifted(r2.push((l2.len() - 1, Some(decode_utf8(l2.last())))), n) =~= shifted(r2, n).push(
            (l1.len() + l2.len() - 1, Some(decode_utf8(l2.last()))),
        ));
        assert((r1 + shifted(r2, n)).push((l1.len() + l2.len() - 1, None)) =~= r1 + shifted(r2, n).push(
            (l1.len() + l2.len() - 1, None),
        ));
        assert((r1 + shifted(r2, n)).push((l1.len() + l2.len() - 1, Some(decode_utf8(l2.last())))) =~= r1
            + shifted(r2, n).push((l1.len() + l2.len() - 1, Some(decode_utf8(l2.last())))));
    }
}

/// A commit file made of two parts, the first ending with a line break,
/// holds the action lines of the first part followed by those of the
/// second, whose indices move up by the number of lines of the first.
pub proof fn lemma_split_concat(a: Seq<u8>, b: Seq<u8>)
    requires
        a.len() > 0,
        a.last() == 10u8,
    ensures
        action_lines(log_lines(a + b)) == action_lines(log_lines(a)) + shifted(
            action_lines(log_lines(b)),
            log_lines(a).len() as int,
        ),
{
    lemma_lines_prefix(a, b, 0);
    lemma_action_lines_append(log_lines(a), log_lines(b));
}

/// The texts of action lines, without their indices: `None` for a line
/// that is not valid UTF-8.
pub open spec fn line_texts(s: Seq<(int, Option<Seq<char>>)>) -> Seq<Option<Seq<char>>> {
    s.map_values(|p: (int, Option<Seq<char>>)| p.1)
}

proof fn lemma_line_end_newline(a: Seq<u8>, s: int)
    requires
        0 <= s < a.len(),
    ensures
        line_end(a + seq![10u8], s) == line_end(a, s),
    decreases a.len() - s,
{
    let c = a + seq![10u8];
    assert(c.len() == a.len() + 1);
    assert(c[s] == a[s]);
    if a[s] != 10u8 {
        if s + 1 < a.len() {
            lemma_line_end_newline(a, s + 1);
        } else {
            assert(c[s + 1] == 10u8);
            assert(line_end(c, s + 1) == s + 1);
            assert(line_end(a, s + 1) == a.len());
        }
        assert(line_end(c, s) == line_end(c, s + 1));
        assert(line_end(a, s) == line_end(a, s + 1));
    }
}

proof fn lemma_lines_newline(a: Seq<u8>, s: int)
    requires
        0 <= s < a.len(),
        a.last() != 10u8,
        a.last() != 13u8,
    ensures
        lines_from(a + seq![10u8], s) == lines_from(a, s),
    decreases a.len() - s,
{
    let c = a + seq![10u8];
    lemma_line_end(a, s);
    lemma_line_end_newline(a, s);
    let e = line_end(a, s);
    assert(c.subrange(s, e) =~= a.subrange(s, e));
    if e < a.len() {
        assert(c[e] == a[e]);
        assert(e + 1 < a.len());
        lemma_lines_newline(a, e + 1);
    } else {
        assert(c.subrange(s, e).last() == a.last());
        assert(lines_from(c, e + 1) =~= Seq::<Seq<u8>>::empty());
    }
    assert(line_at(c, s) == line_at(a, s));
    assert(lines_from(c, s) == seq![line_at(c, s)] + lines_from(c, e + 1));
    assert(lines_from(a, s) == seq![line_at(a, s)] + lines_from(a, e + 1));
}

proof fn lemma_action_lines_blank_last(l: Seq<Seq<u8>>)
    ensures
        action_lines(l.push(Seq::<u8>::empty())) == action_lines(l),
{
    let m = l.push(Seq::<u8>::empty());
    assert(m.drop_last() =~= l);
    assert(valid_utf8(m.last()));
    assert(decode_utf8(m.last()) =~= Seq::<char>::empty());
}

/// Two commit files joined by a line break hold the lines of the first
/// followed by those of the second: the same texts, and the same lines
/// marked as not valid UTF-8, in the same order.
pub proof fn lemma_join_lines(a: Seq<u8>, b: Seq<u8>)
    requires
        !(a.len() > 0 && a.last() == 13u8),
    ensures
        line_texts(action_lines(log_lines(a + seq![10u8] + b))) == line_texts(action_lines(log_lines(a)))
            + line_texts(action_lines(log_lines(b))),
{
    let c = a + seq![10u8];
    lemma_split_concat(c, b);
    let n = log_lines(c).len() as int;
    let sb = action_lines(log_lines(b));
    assert(line_texts(shifted(sb, n)) =~= line_texts(sb));
    assert(line_texts(action_lines(log_lines(c)) + shifted(sb, n)) =~= line_texts(action_lines(log_lines(c)))
        + line_texts(shifted(sb, n)));
    if a.len() == 0 {
        lemma_line_end(c, 0);
        assert(line_at(c, 0) =~= Seq::<u8>::empty());
        assert(lines_from(c, 1) =~= Seq::<Seq<u8>>::empty());
        assert(log_lines(c) =~= Seq::<Seq<u8>>::empty().push(Seq::<u8>::empty()));
        assert(log_lines(a) =~= Seq::<Seq<u8>>::empty());
        lemma_action_lines_blank_last(Seq::<Seq<u8>>::empty());
    } else if a.last() == 10u8 {
        lemma_lines_prefix(a, seq![10u8], 0);
        lemma_line_end(seq![10u8], 0);
        assert(line_at(seq![10u8], 0) =~= Seq::<u8>::empty());
        assert(lines_from(seq![10u8], 1) =~= Seq::<Seq<u8>>::empty());
        assert(log_lines(seq![10u8]) =~= Seq::<Seq<u8>>::empty().push(Seq::<u8>::empty()));
        assert(log_lines(c) =~= log_lines(a).push(Seq::<u8>::empty()));
        lemma_action_lines_blank_last(log_lines(a));
    } else {
        lemma_lines_newline(a, 0);
    }
}

} // verus!
