//! Literal replacement and the decoding of the small fixed set of entities.

use crate::text::{append_range, from_chars, to_chars};
use vstd::prelude::*;

verus! {

/// Whether `s` begins with `pat`.
pub open spec fn starts_with(s: Seq<char>, pat: Seq<char>) -> bool {
    pat.len() <= s.len() && s.take(pat.len() as int) == pat
}

/// Whether `pat` occurs somewhere in `s`.
pub open spec fn occurs_in(s: Seq<char>, pat: Seq<char>) -> bool {
    exists|i: int| 0 <= i <= s.len() && starts_with(#[trigger] s.skip(i), pat)
}

/// `s` with every occurrence of the non-empty `pat` replaced by `to`, the
/// occurrences taken from the left and without overlap.
pub open spec fn replace_all(s: Seq<char>, pat: Seq<char>, to: Seq<char>) -> Seq<char>
    recommends
        pat.len() > 0,
    decreases s.len(),
{
    if pat.len() == 0 || s.len() == 0 {
        s
    } else if starts_with(s, pat) {
        to + replace_all(s.skip(pat.len() as int), pat, to)
    } else {
        seq![s[0]] + replace_all(s.skip(1), pat, to)
    }
}

/// `s` with every no-break space replaced by an ordinary space.
pub open spec fn without_nbsp(s: Seq<char>) -> Seq<char> {
    Seq::new(s.len(), |i: int| if s[i] == '\u{a0}' { ' ' } else { s[i] })
}

/// `s` with the four known entities decoded, one after the other, and then
/// every backslash followed by `n` turned into a line feed.
pub open spec fn decoded(s: Seq<char>) -> Seq<char> {
    let apos = replace_all(s, "&#x27;"@, "'"@);
    let quot = replace_all(apos, "&quot;"@, "\""@);
    let amp = replace_all(quot, "&amp;"@, "&"@);
    let slash = replace_all(amp, "&#x2F;"@, "/"@);
    replace_all(slash, "\\n"@, "\n"@)
}

/// A pattern that does not occur is not replaced.
pub proof fn lemma_replace_absent(s: Seq<char>, pat: Seq<char>, to: Seq<char>)
    requires
        !occurs_in(s, pat),
    ensures
        replace_all(s, pat, to) == s,
    decreases s.len(),
{
    if pat.len() == 0 || s.len() == 0 {
    } else {
        assert(s.skip(0) =~= s);
        assert(!starts_with(s.skip(0), pat));
        let t = s.skip(1);
        assert forall|i: int| 0 <= i <= t.len() implies !starts_with(#[trigger] t.skip(i), pat) by {
            assert(t.skip(i) =~= s.skip(i + 1));
        }
        lemma_replace_absent(t, pat, to);
        assert(seq![s[0]] + t =~= s);
    }
}

/// A text in which none of the five patterns occurs is decoded to itself:
/// anything but the four known entities and the escaped line feed is left as
/// it is.
pub proof fn lemma_decoded_unchanged(s: Seq<char>)
    requires
        !occurs_in(s, "&#x27;"@),
        !occurs_in(s, "&quot;"@),
        !occurs_in(s, "&amp;"@),
        !occurs_in(s, "&#x2F;"@),
        !occurs_in(s, "\\n"@),
    ensures
        decoded(s) == s,
{
    lemma_replace_absent(s, "&#x27;"@, "'"@);
    lemma_replace_absent(s, "&quot;"@, "\""@);
    lemma_replace_absent(s, "&amp;"@, "&"@);
    lemma_replace_absent(s, "&#x2F;"@, "/"@);
    lemma_replace_absent(s, "\\n"@, "\n"@);
}

/// The empty text is decoded to itself.
pub proof fn lemma_decoded_empty()
    ensures
        decoded(Seq::<char>::empty()) == Seq::<char>::empty(),
{
}

/// Whether `pat` stands in `v` at index `at`.
pub fn matches_at(v: &Vec<char>, at: usize, pat: &Vec<char>) -> (b: bool)
    requires
        at <= v.len(),
    ensures
        b == starts_with(v@.skip(at as int), pat@),
{
    if pat.len() > v.len() - at {
        return false;
    }
    let mut j: usize = 0;
    while j < pat.len()
        invariant
            at <= v.len(),
            pat.len() <= v.len() - at,
            j <= pat.len(),
            forall|k: int| 0 <= k < j ==> v@[at + k] == pat@[k],
        decreases pat.len() - j,
    {
        if v[at + j] != pat[j] {
            assert(v@.skip(at as int).take(pat.len() as int)[j as int] != pat@[j as int]);
            return false;
        }
        j += 1;
    }
    assert(v@.skip(at as int).take(pat.len() as int) =~= pat@);
    true
}

/// Replaces every occurrence of `pat` in `v` by `to`.
pub fn replace_chars(v: &Vec<char>, pat: &Vec<char>, to: &Vec<char>) -> (r: Vec<char>)
    requires
        pat.len() > 0,
    ensures
        r@ == replace_all(v@, pat@, to@),
{
    let mut r: Vec<char> = Vec::new();
    let mut i: usize = 0;
    assert(v@.skip(0) =~= v@);
    while i < v.len()
        invariant
            i <= v.len(),
            pat.len() > 0,
            r@ + replace_all(v@.skip(i as int), pat@, to@) == replace_all(v@, pat@, to@),
        decreases v.len() - i,
    {
        let ghost rest = v@.skip(i as int);
        let ghost before = r@;
        if matches_at(v, i, pat) {
            append_range(&mut r, to, 0, to.len());
            assert(to@.subrange(0, to.len() as int) =~= to@);
            assert(rest.skip(pat.len() as int) =~= v@.skip(i + pat.len()));
            i += pat.len();
            assert(r@ + replace_all(v@.skip(i as int), pat@, to@) =~= before + replace_all(
                rest,
                pat@,
                to@,
            ));
        } else {
            r.push(v[i]);
            assert(rest.skip(1) =~= v@.skip(i + 1));
            i += 1;
            assert(r@ + replace_all(v@.skip(i as int), pat@, to@) =~= before + replace_all(
                rest,
                pat@,
                to@,
            ));
        }
    }
    assert(r@ + Seq::<char>::empty() =~= r@);
    r
}

/// Replaces every no-break space in `v` by an ordinary space.
pub fn replace_nbsp(v: &Vec<char>) -> (r: Vec<char>)
    ensures
        r@ == without_nbsp(v@),
{
    let mut r: Vec<char> = Vec::new();
    let mut i: usize = 0;
    while i < v.len()
        invariant
            i <= v.len(),
            r@ == without_nbsp(v@.take(i as int)),
        decreases v.len() - i,
    {
        let c = v[i];
        if c == '\u{a0}' {
            r.push(' ');
        } else {
            r.push(c);
        }
        i += 1;
        assert(r@ =~= without_nbsp(v@.take(i as int)));
    }
    assert(v@.take(v.len() as int) =~= v@);
    r
}

/// Replaces every occurrence of the literal `pat` in `v` by the literal `to`.
fn replace_literal(v: &Vec<char>, pat: &str, to: &str) -> (r: Vec<char>)
    requires
        pat@.len() > 0,
    ensures
        r@ == replace_all(v@, pat@, to@),
{
    let p = to_chars(pat);
    let t = to_chars(to);
    replace_chars(v, &p, &t)
}

/// Decodes the entities in `v`.
pub fn decode_chars(v: &Vec<char>) -> (r: Vec<char>)
    ensures
        r@ == decoded(v@),
{
    proof {
        reveal_strlit("&#x27;");
        reveal_strlit("&quot;");
        reveal_strlit("&amp;");
        reveal_strlit("&#x2F;");
        reveal_strlit("\\n");
    }
    let apos = replace_literal(v, "&#x27;", "'");
    let quot = replace_literal(&apos, "&quot;", "\"");
    let amp = replace_literal(&quot, "&amp;", "&");
    let slash = replace_literal(&amp, "&#x2F;", "/");
    replace_literal(&slash, "\\n", "\n")
}

/// Decodes `&#x27;`, `&quot;`, `&amp;` and `&#x2F;` in `text`, in that order,
/// each on the result of the one before, and then turns every backslash
/// followed by `n` into a line feed. Anything else is left as it is.
pub fn decode_entities(text: &str) -> (r: String)
    ensures
        r@ == decoded(text@),
{
    let v = to_chars(text);
    let d = decode_chars(&v);
    from_chars(&d)
}

} // verus!
