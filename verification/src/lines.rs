//! The line normalizer: the text is cut at line feeds, every line is trimmed,
//! empty lines are dropped, and what is left is joined by single line feeds.

use crate::text::{
    append_range, from_chars, is_trimmed, lemma_trim, lemma_trim_of_trimmed, to_chars, trim,
    trim_bounds,
};
use vstd::prelude::*;

verus! {

/// The length of the first line of `s`: the number of characters before its
/// first line feed, or all of them where it has none.
pub open spec fn line_len(s: Seq<char>) -> int
    decreases s.len(),
{
    if s.len() == 0 || s[0] == '\n' {
        0
    } else {
        1 + line_len(s.skip(1))
    }
}

/// The lines of `s`, each trimmed, without those that are empty after
/// trimming, in their order.
pub open spec fn kept_lines(s: Seq<char>) -> Seq<Seq<char>>
    decreases s.len(),
{
    if s.len() == 0 {
        Seq::empty()
    } else {
        let n = line_len(s);
        let head = trim(s.take(n));
        let rest = if 0 <= n < s.len() {
            kept_lines(s.skip(n + 1))
        } else {
            Seq::empty()
        };
        if head.len() == 0 {
            rest
        } else {
            seq![head] + rest
        }
    }
}

/// The lines joined by single line feeds.
pub open spec fn join_lines(lines: Seq<Seq<char>>) -> Seq<char>
    decreases lines.len(),
{
    if lines.len() == 0 {
        Seq::empty()
    } else if lines.len() == 1 {
        lines[0]
    } else {
        lines[0] + seq!['\n'] + join_lines(lines.skip(1))
    }
}

/// The normalized text: the kept lines of `s`, joined.
pub open spec fn normalized(s: Seq<char>) -> Seq<char> {
    join_lines(kept_lines(s))
}

/// Whether `line` is a line as the normalizer puts it out: not empty, without
/// a line feed, and neither starting nor ending with white space.
pub open spec fn is_clean_line(line: Seq<char>) -> bool {
    &&& line.len() > 0
    &&& is_trimmed(line)
    &&& forall|j: int| 0 <= j < line.len() ==> line[j] != '\n'
}

/// Whether every line of `lines` is clean.
pub open spec fn all_clean(lines: Seq<Seq<char>>) -> bool {
    forall|i: int| 0 <= i < lines.len() ==> is_clean_line(#[trigger] lines[i])
}

/// The first line of `s` ends at `k` where no line feed stands before `k` and
/// `k` is the end of `s` or the place of a line feed.
pub proof fn lemma_line_len(s: Seq<char>, k: int)
    requires
        0 <= k <= s.len(),
        forall|j: int| 0 <= j < k ==> s[j] != '\n',
        k == s.len() || s[k] == '\n',
    ensures
        line_len(s) == k,
    decreases s.len(),
{
    if k > 0 {
        lemma_line_len(s.skip(1), k - 1);
    }
}

/// The first line of `s` lies within `s`, holds no line feed, and ends at the
/// end of `s` or at a line feed.
pub proof fn lemma_line_len_bounds(s: Seq<char>)
    ensures
        0 <= line_len(s) <= s.len(),
        forall|j: int| 0 <= j < line_len(s) ==> s[j] != '\n',
        line_len(s) == s.len() || s[line_len(s)] == '\n',
    decreases s.len(),
{
    if s.len() == 0 || s[0] == '\n' {
    } else {
        let t = s.skip(1);
        lemma_line_len_bounds(t);
        assert forall|j: int| 0 <= j < line_len(s) implies s[j] != '\n' by {
            if j > 0 {
                assert(s[j] == t[j - 1]);
            }
        }
    }
}

/// Joining one more line at the end.
pub proof fn lemma_join_push(lines: Seq<Seq<char>>, line: Seq<char>)
    ensures
        join_lines(lines.push(line)) == if lines.len() == 0 {
            line
        } else {
            join_lines(lines) + seq!['\n'] + line
        },
    decreases lines.len(),
{
    let all = lines.push(line);
    if lines.len() == 0 {
    } else {
        assert(all.skip(1) =~= lines.skip(1).push(line));
        lemma_join_push(lines.skip(1), line);
        if lines.len() == 1 {
            assert(lines.skip(1).len() == 0);
            assert(join_lines(all) =~= join_lines(lines) + seq!['\n'] + line);
        } else {
            assert(join_lines(all) =~= join_lines(lines) + seq!['\n'] + line);
        }
    }
}

/// Every line that the normalizer keeps is clean: no line of the output is
/// empty or made of white space only, and none carries white space at either
/// end.
pub proof fn lemma_kept_lines_clean(s: Seq<char>)
    ensures
        all_clean(kept_lines(s)),
    decreases s.len(),
{
    if s.len() > 0 {
        lemma_line_len_bounds(s);
        let n = line_len(s);
        let line = s.take(n);
        let head = trim(line);
        lemma_trim(line);
        let (a, b) = choose|a: int, b: int|
            0 <= a <= b <= line.len() && head == #[trigger] line.subrange(a, b);
        assert forall|j: int| 0 <= j < head.len() implies head[j] != '\n' by {
            assert(head[j] == line[a + j]);
        }
        let rest = if n < s.len() {
            kept_lines(s.skip(n + 1))
        } else {
            Seq::empty()
        };
        if n < s.len() {
            lemma_kept_lines_clean(s.skip(n + 1));
        }
        assert(all_clean(rest));
        if head.len() > 0 {
            let all = seq![head] + rest;
            assert forall|i: int| 0 <= i < all.len() implies is_clean_line(#[trigger] all[i]) by {
                if i > 0 {
                    assert(all[i] == rest[i - 1]);
                }
            }
        }
    }
}

/// Cutting a text that was joined from clean lines gives those lines back.
pub proof fn lemma_kept_of_joined(lines: Seq<Seq<char>>)
    requires
        all_clean(lines),
    ensures
        kept_lines(join_lines(lines)) == lines,
    decreases lines.len(),
{
    if lines.len() == 0 {
    } else {
        let head = lines[0];
        let s = join_lines(lines);
        assert(is_clean_line(head));
        lemma_trim_of_trimmed(head);
        if lines.len() == 1 {
            lemma_line_len(s, s.len() as int);
            assert(s.take(s.len() as int) =~= s);
            assert(kept_lines(s) =~= lines);
        } else {
            let tail = lines.skip(1);
            assert forall|i: int| 0 <= i < tail.len() implies is_clean_line(
                #[trigger] tail[i],
            ) by {
                assert(tail[i] == lines[i + 1]);
            }
            lemma_kept_of_joined(tail);
            let n = head.len() as int;
            assert(s == head + seq!['\n'] + join_lines(tail));
            assert forall|j: int| 0 <= j < n implies s[j] != '\n' by {
                assert(s[j] == head[j]);
            }
            assert(s[n] == '\n');
            lemma_line_len(s, n);
            assert(s.take(n) =~= head);
            assert(s.skip(n + 1) =~= join_lines(tail));
            assert(kept_lines(s) =~= seq![head] + tail);
            assert(seq![head] + tail =~= lines);
        }
    }
}

/// Normalizing is idempotent: a normalized text is normalized to itself.
pub proof fn lemma_normalized_idempotent(s: Seq<char>)
    ensures
        normalized(normalized(s)) == normalized(s),
{
    lemma_kept_lines_clean(s);
    lemma_kept_of_joined(kept_lines(s));
}

/// The normalized text of `v`.
pub fn normalize_chars(v: &Vec<char>) -> (out: Vec<char>)
    ensures
        out@ == normalized(v@),
{
    let n = v.len();
    let mut out: Vec<char> = Vec::new();
    let ghost mut done: Seq<Seq<char>> = Seq::empty();
    let mut pos: usize = 0;
    assert(v@.skip(0) =~= v@);
    assert(done + kept_lines(v@) =~= kept_lines(v@));
    while pos < n
        invariant
            pos <= n == v.len(),
            kept_lines(v@) == done + kept_lines(v@.skip(pos as int)),
            out@ == join_lines(done),
            done.len() > 0 <==> out.len() > 0,
        decreases n - pos,
    {
        let ghost rest = v@.skip(pos as int);
        let mut end: usize = pos;
        while end < n && v[end] != '\n'
            invariant
                pos <= end <= n == v.len(),
                forall|j: int| pos <= j < end ==> v@[j] != '\n',
            decreases n - end,
        {
            end += 1;
        }
        proof {
            lemma_line_len(rest, end - pos);
            assert(rest.take(end - pos) =~= v@.subrange(pos as int, end as int));
        }
        let (lo, hi) = trim_bounds(v, pos, end);
        let ghost line = v@.subrange(lo as int, hi as int);
        let ghost before = done;
        if lo < hi {
            if out.len() > 0 {
                out.push('\n');
            }
            append_range(&mut out, v, lo, hi);
            proof {
                lemma_join_push(done, line);
                done = done.push(line);
                assert(out@ =~= join_lines(done));
            }
        }
        if end < n {
            proof {
                assert(rest.skip(end - pos + 1) =~= v@.skip(end + 1));
                assert(done + kept_lines(v@.skip(end + 1)) =~= before + kept_lines(rest));
            }
            pos = end + 1;
        } else {
            proof {
                assert(kept_lines(v@.skip(end as int)) =~= Seq::<Seq<char>>::empty());
                assert(done + kept_lines(v@.skip(end as int)) =~= before + kept_lines(rest));
            }
            pos = end;
        }
    }
    assert(done + kept_lines(v@.skip(n as int)) =~= done);
    out
}

/// Cuts `text` at its line feeds, trims every line, drops the lines that are
/// then empty and joins the others, in their order, by single line feeds.
pub fn normalize_lines(text: &str) -> (r: String)
    ensures
        r@ == normalized(text@),
        all_clean(kept_lines(text@)),
        normalized(r@) == r@,
{
    let v = to_chars(text);
    let out = normalize_chars(&v);
    proof {
        lemma_kept_lines_clean(text@);
        lemma_normalized_idempotent(text@);
    }
    from_chars(&out)
}

} // verus!
