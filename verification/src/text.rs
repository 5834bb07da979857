//! Searching, splitting and joining of character sequences. The documents
//! this library produces and parses are modelled as `Seq<char>`, and both
//! directions of the encoding rest on the functions and lemmas here.

use vstd::prelude::*;
use vstd::string::StrSliceExecFns;
use vstd::string::StringExecFns;

verus! {

/// Two texts, joined.
pub fn cat2(a: &str, b: &str) -> (r: String)
    ensures
        r@ == a@ + b@,
{
    let mut s = String::new();
    s.append(a);
    s.append(b);
    proof {
        assert(s@ =~= a@ + b@);
    }
    s
}

/// Three texts, joined.
pub fn cat3(a: &str, b: &str, c: &str) -> (r: String)
    ensures
        r@ == a@ + b@ + c@,
{
    let mut s = String::new();
    s.append(a);
    s.append(b);
    s.append(c);
    proof {
        assert(s@ =~= a@ + b@ + c@);
    }
    s
}

/// Five texts, joined.
pub fn cat5(a: &str, b: &str, c: &str, d: &str, e: &str) -> (r: String)
    ensures
        r@ == a@ + b@ + c@ + d@ + e@,
{
    let mut s = String::new();
    s.append(a);
    s.append(b);
    s.append(c);
    s.append(d);
    s.append(e);
    proof {
        assert(s@ =~= a@ + b@ + c@ + d@ + e@);
    }
    s
}

/// The pattern `pat` occurs in `s` starting at index `i`.
pub open spec fn match_at(s: Seq<char>, pat: Seq<char>, i: int) -> bool {
    &&& 0 <= i
    &&& i + pat.len() <= s.len()
    &&& s.subrange(i, i + pat.len() as int) == pat
}

/// `pat` occurs somewhere in `s`.
pub open spec fn contains_sub(s: Seq<char>, pat: Seq<char>) -> bool {
    exists|i: int| match_at(s, pat, i)
}

/// `s` begins with `pat`.
pub open spec fn has_prefix(s: Seq<char>, pat: Seq<char>) -> bool {
    pat.len() <= s.len() && s.subrange(0, pat.len() as int) == pat
}

/// The position of the first occurrence of `pat` in `s` at or after `from`.
pub open spec fn find_sub_from(s: Seq<char>, pat: Seq<char>, from: int) -> Option<int>
    decreases s.len() + 1 - from,
{
    if from < 0 || from + pat.len() > s.len() {
        None
    } else if match_at(s, pat, from) {
        Some(from)
    } else {
        find_sub_from(s, pat, from + 1)
    }
}

/// What `find_sub_from` returns: the first match at or after `from`, or
/// nothing when no match follows `from`.
pub proof fn lemma_find_sub_from_props(s: Seq<char>, pat: Seq<char>, from: int)
    requires
        0 <= from,
    ensures
        match find_sub_from(s, pat, from) {
            Some(i) => from <= i && match_at(s, pat, i) && (forall|j: int|
                from <= j < i ==> !match_at(s, pat, j)),
            None => forall|j: int| from <= j ==> !match_at(s, pat, j),
        },
    decreases s.len() + 1 - from,
{
    if from + pat.len() > s.len() {
        assert forall|j: int| from <= j implies !match_at(s, pat, j) by {}
    } else if match_at(s, pat, from) {
    } else {
        lemma_find_sub_from_props(s, pat, from + 1);
    }
}

/// A match at `k` with no match between `from` and `k` is what
/// `find_sub_from` finds.
pub proof fn lemma_find_sub_from_exact(s: Seq<char>, pat: Seq<char>, from: int, k: int)
    requires
        0 <= from <= k,
        match_at(s, pat, k),
        forall|j: int| from <= j < k ==> !match_at(s, pat, j),
    ensures
        find_sub_from(s, pat, from) == Some(k),
    decreases k - from,
{
    if from < k {
        lemma_find_sub_from_exact(s, pat, from + 1, k);
    }
}

/// A match inside `a` is still a match after `b` is appended.
pub proof fn lemma_match_extend(a: Seq<char>, b: Seq<char>, pat: Seq<char>, j: int)
    requires
        match_at(a, pat, j),
    ensures
        match_at(a + b, pat, j),
{
    assert((a + b).subrange(j, j + pat.len() as int) =~= a.subrange(j, j + pat.len() as int));
}

/// A match that lies within the first part of a concatenation is a match in
/// that part alone.
pub proof fn lemma_match_restrict(a: Seq<char>, b: Seq<char>, pat: Seq<char>, j: int)
    requires
        match_at(a + b, pat, j),
        j + pat.len() <= a.len(),
    ensures
        match_at(a, pat, j),
{
    assert((a + b).subrange(j, j + pat.len() as int) =~= a.subrange(j, j + pat.len() as int));
}

/// The pieces of `s` between consecutive occurrences of `sep`, searched from
/// the left; the whole of `s` when `sep` does not occur.
pub open spec fn split_on(s: Seq<char>, sep: Seq<char>) -> Seq<Seq<char>>
    decreases s.len(),
        via split_on_decreases
{
    if sep.len() == 0 {
        seq![s]
    } else {
        match find_sub_from(s, sep, 0) {
            None => seq![s],
            Some(i) => seq![s.subrange(0, i)] + split_on(
                s.subrange(i + sep.len(), s.len() as int),
                sep,
            ),
        }
    }
}

#[via_fn]
proof fn split_on_decreases(s: Seq<char>, sep: Seq<char>) {
    if sep.len() > 0 {
        lemma_find_sub_from_props(s, sep, 0);
    }
}

/// `pieces` laid end to end with `sep` between consecutive pieces.
pub open spec fn join_with(pieces: Seq<Seq<char>>, sep: Seq<char>) -> Seq<char>
    decreases pieces.len(),
{
    if pieces.len() == 0 {
        Seq::empty()
    } else if pieces.len() == 1 {
        pieces[0]
    } else {
        pieces[0] + sep + join_with(pieces.drop_first(), sep)
    }
}

/// `pieces` laid end to end.
pub open spec fn concat_all(pieces: Seq<Seq<char>>) -> Seq<char>
    decreases pieces.len(),
{
    if pieces.len() == 0 {
        Seq::empty()
    } else {
        pieces[0] + concat_all(pieces.drop_first())
    }
}

/// No occurrence of `sep` begins inside `p`, even one that runs on into a
/// copy of `sep` appended after `p`.
pub open spec fn piece_clean(p: Seq<char>, sep: Seq<char>) -> bool {
    forall|j: int| 0 <= j < p.len() ==> !match_at(p + sep, sep, j)
}

/// Splitting on `sep` undoes joining with `sep`, provided no piece holds an
/// occurrence of `sep` (nor the start of one that crosses into the
/// following separator).
pub proof fn lemma_split_on_join(pieces: Seq<Seq<char>>, sep: Seq<char>)
    requires
        sep.len() > 0,
        pieces.len() >= 1,
        forall|k: int| 0 <= k < pieces.len() ==> piece_clean(#[trigger] pieces[k], sep),
    ensures
        split_on(join_with(pieces, sep), sep) == pieces,
    decreases pieces.len(),
{
    let s = join_with(pieces, sep);
    let p0 = pieces[0];
    if pieces.len() == 1 {
        assert(s == p0);
        lemma_find_sub_from_props(s, sep, 0);
        if find_sub_from(s, sep, 0) is Some {
            let i = find_sub_from(s, sep, 0)->Some_0;
            lemma_match_extend(p0, sep, sep, i);
            assert(!match_at(p0 + sep, sep, i));
        }
        assert(split_on(s, sep) =~~= pieces);
    } else {
        let rest = join_with(pieces.drop_first(), sep);
        assert(s == p0 + sep + rest);
        let k = p0.len() as int;
        assert(match_at(s, sep, k)) by {
            assert(s.subrange(k, k + sep.len() as int) =~= sep);
        }
        assert forall|j: int| 0 <= j < k implies !match_at(s, sep, j) by {
            if match_at(s, sep, j) {
                assert(p0 + sep + rest =~= (p0 + sep) + rest);
                lemma_match_restrict(p0 + sep, rest, sep, j);
            }
        }
        lemma_find_sub_from_exact(s, sep, 0, k);
        assert(s.subrange(0, k) =~= p0);
        assert(s.subrange(k + sep.len(), s.len() as int) =~= rest);
        lemma_split_on_join(pieces.drop_first(), sep);
        assert(split_on(s, sep) =~~= pieces);
    }
}

/// Whether the characters of `s` starting at `i` are exactly `pat`.
pub fn matches_pattern_at(s: &Vec<char>, pat: &Vec<char>, i: usize) -> (r: bool)
    requires
        i + pat@.len() <= s@.len(),
    ensures
        r == match_at(s@, pat@, i as int),
{
    let slen = s.len();
    let mut j: usize = 0;
    while j < pat.len()
        invariant
            j <= pat@.len(),
            forall|t: int| 0 <= t < j ==> s@[i + t] == pat@[t],
        decreases pat@.len() - j,
    {
        if s[i + j] != pat[j] {
            assert(!match_at(s@, pat@, i as int)) by {
                if match_at(s@, pat@, i as int) {
                    assert(s@.subrange(i as int, i + pat@.len() as int)[j as int] == s@[i + j]);
                }
            }
            return false;
        }
        j += 1;
    }
    assert(s@.subrange(i as int, i + pat@.len() as int) =~= pat@);
    true
}

/// Whether `a` and `b` hold the same characters.
pub fn vec_chars_eq(a: &Vec<char>, b: &Vec<char>) -> (r: bool)
    ensures
        r == (a@ == b@),
{
    if a.len() != b.len() {
        proof {
            assert(a@.len() != b@.len());
        }
        return false;
    }
    let r = matches_pattern_at(a, b, 0);
    proof {
        if r {
            assert(a@.subrange(0, b@.len() as int) =~= a@);
        } else {
            if a@ == b@ {
                assert(a@.subrange(0, b@.len() as int) =~= b@);
            }
        }
    }
    r
}

/// The position of the first occurrence of `pat` in `s` at or after `from`.
pub fn find_pattern_from(s: &Vec<char>, pat: &Vec<char>, from: usize) -> (r: Option<usize>)
    requires
        pat@.len() > 0,
    ensures
        match r {
            Some(i) => find_sub_from(s@, pat@, from as int) == Some(i as int),
            None => find_sub_from(s@, pat@, from as int) is None,
        },
{
    if pat.len() > s.len() || from > s.len() - pat.len() {
        return None;
    }
    let mut i: usize = from;
    while i <= s.len() - pat.len()
        invariant
            from <= i,
            pat@.len() > 0,
            pat@.len() <= s@.len(),
            i <= s@.len(),
            find_sub_from(s@, pat@, from as int) == find_sub_from(s@, pat@, i as int),
        decreases s@.len() - i,
    {
        if matches_pattern_at(s, pat, i) {
            return Some(i);
        }
        i += 1;
    }
    None
}

/// The characters of `s` from `a` (inclusive) to `b` (exclusive), as a new
/// vector.
pub fn subrange_of(s: &Vec<char>, a: usize, b: usize) -> (r: Vec<char>)
    requires
        a <= b && b <= s@.len(),
    ensures
        r@ == s@.subrange(a as int, b as int),
{
    let mut r: Vec<char> = Vec::new();
    let mut i: usize = a;
    while i < b
        invariant
            a <= i <= b <= s@.len(),
            r@ =~= s@.subrange(a as int, i as int),
        decreases b - i,
    {
        r.push(s[i]);
        assert(r@ =~= s@.subrange(a as int, i + 1));
        i += 1;
    }
    r
}

/// Relies on `alloc::string::String::push`: appends the given character to
/// the end of the string.
pub assume_specification[ String::push ](s: &mut String, ch: char)
    ensures
        final(s)@ == old(s)@.push(ch),
;

/// The characters of `s`, one string element per codepoint.
pub fn chars_of_str(s: &str) -> (r: Vec<char>)
    ensures
        r@ == s@,
{
    let n = s.unicode_len();
    let mut r: Vec<char> = Vec::new();
    let mut i: usize = 0;
    while i < n
        invariant
            i <= n,
            n == s@.len(),
            r@ =~= s@.subrange(0, i as int),
        decreases n - i,
    {
        r.push(s.get_char(i));
        assert(r@ =~= s@.subrange(0, i + 1));
        i += 1;
    }
    assert(r@ =~= s@);
    r
}

/// The string whose codepoints are exactly the characters of `v`.
pub fn string_of_chars(v: &Vec<char>) -> (r: String)
    ensures
        r@ == v@,
{
    let mut r = String::new();
    let mut i: usize = 0;
    while i < v.len()
        invariant
            i <= v@.len(),
            r@ =~= v@.subrange(0, i as int),
        decreases v@.len() - i,
    {
        r.push(v[i]);
        assert(r@ =~= v@.subrange(0, i + 1));
        i += 1;
    }
    assert(r@ =~= v@);
    r
}

} // verus!
