//! Splitting of a text body, viewed as a sequence of codepoints, into an
//! ordered run of bounded segments. A segment tentatively ends 512
//! codepoints after its start; a newline shortly before that point, or a
//! newline or other whitespace up to 750 codepoints after the start, moves
//! the boundary so that lines and tokens are kept whole where possible.

use vstd::prelude::*;
use crate::text::concat_all;
use crate::text::subrange_of;

verus! {

/// A codepoint with the Unicode `White_Space` property; what
/// `char::is_whitespace` accepts.
pub open spec fn is_space_char(c: char) -> bool {
    ||| c == ' '
    ||| c == '\t'
    ||| c == '\n'
    ||| c == '\u{0b}'
    ||| c == '\u{0c}'
    ||| c == '\r'
    ||| c == '\u{85}'
    ||| c == '\u{a0}'
    ||| c == '\u{1680}'
    ||| ('\u{2000}' <= c && c <= '\u{200a}')
    ||| c == '\u{2028}'
    ||| c == '\u{2029}'
    ||| c == '\u{202f}'
    ||| c == '\u{205f}'
    ||| c == '\u{3000}'
}

/// Whether `c` is whitespace, by the Unicode `White_Space` list.
pub fn is_space(c: char) -> (r: bool)
    ensures
        r == is_space_char(c),
{
    c == ' ' || c == '\t' || c == '\n' || c == '\u{0b}' || c == '\u{0c}' || c == '\r'
        || c == '\u{85}' || c == '\u{a0}' || c == '\u{1680}' || ('\u{2000}' <= c && c
        <= '\u{200a}') || c == '\u{2028}' || c == '\u{2029}' || c == '\u{202f}' || c == '\u{205f}'
        || c == '\u{3000}'
}

/// The first index in `[lo, hi)` holding a newline.
pub open spec fn first_nl(s: Seq<char>, lo: int, hi: int) -> Option<int>
    decreases hi - lo,
{
    if lo >= hi {
        None
    } else if s[lo] == '\n' {
        Some(lo)
    } else {
        first_nl(s, lo + 1, hi)
    }
}

/// The first index in `[lo, hi)` holding whitespace.
pub open spec fn first_ws(s: Seq<char>, lo: int, hi: int) -> Option<int>
    decreases hi - lo,
{
    if lo >= hi {
        None
    } else if is_space_char(s[lo]) {
        Some(lo)
    } else {
        first_ws(s, lo + 1, hi)
    }
}

/// What `first_nl` returns: the first newline of the window, or nothing
/// when the window holds none.
pub proof fn lemma_first_nl_props(s: Seq<char>, lo: int, hi: int)
    ensures
        match first_nl(s, lo, hi) {
            Some(i) => lo <= i < hi && s[i] == '\n' && (forall|j: int|
                lo <= j < i ==> s[j] != '\n'),
            None => forall|j: int| lo <= j < hi ==> s[j] != '\n',
        },
    decreases hi - lo,
{
    if lo < hi && s[lo] != '\n' {
        lemma_first_nl_props(s, lo + 1, hi);
    }
}

/// What `first_ws` returns: the first whitespace of the window, or nothing
/// when the window holds none.
pub proof fn lemma_first_ws_props(s: Seq<char>, lo: int, hi: int)
    ensures
        match first_ws(s, lo, hi) {
            Some(i) => lo <= i < hi && is_space_char(s[i]) && (forall|j: int|
                lo <= j < i ==> !is_space_char(s[j])),
            None => forall|j: int| lo <= j < hi ==> !is_space_char(s[j]),
        },
    decreases hi - lo,
{
    if lo < hi && !is_space_char(s[lo]) {
        lemma_first_ws_props(s, lo + 1, hi);
    }
}

/// Where the segment that starts at `cur` ends: 512 codepoints on (clamped
/// to the length when the rest is no longer than that), moved past a
/// newline found in `[cur+500, cur+512]`, else past a newline found in
/// `[cur+512, cur+750)`, else onto whitespace found there, else left at the
/// hard cut.
pub open spec fn chunk_end(s: Seq<char>, cur: int) -> int {
    let n = s.len() as int;
    if cur + 512 >= n {
        n
    } else {
        let far = if cur + 750 <= n {
            cur + 750
        } else {
            n
        };
        match first_nl(s, cur + 500, cur + 513) {
            Some(i) => i + 1,
            None => match first_nl(s, cur + 512, far) {
                Some(i) => i + 1,
                None => match first_ws(s, cur + 512, far) {
                    Some(i) => i,
                    None => cur + 512,
                },
            },
        }
    }
}

/// A segment is never empty, never longer than 750 codepoints, and never
/// runs past the end of the text.
pub proof fn lemma_chunk_end_bounds(s: Seq<char>, cur: int)
    requires
        0 <= cur < s.len(),
    ensures
        cur < chunk_end(s, cur) <= s.len(),
        chunk_end(s, cur) - cur <= 750,
{
    let n = s.len() as int;
    if cur + 512 < n {
        let far = if cur + 750 <= n {
            cur + 750
        } else {
            n
        };
        lemma_first_nl_props(s, cur + 500, cur + 513);
        lemma_first_nl_props(s, cur + 512, far);
        lemma_first_ws_props(s, cur + 512, far);
    }
}

/// The segments of `s` from `cur` on, in order.
pub open spec fn spec_chunks_from(s: Seq<char>, cur: int) -> Seq<Seq<char>>
    decreases s.len() - cur,
        via spec_chunks_from_decreases
{
    if cur < 0 || cur >= s.len() {
        Seq::empty()
    } else {
        seq![s.subrange(cur, chunk_end(s, cur))] + spec_chunks_from(s, chunk_end(s, cur))
    }
}

#[via_fn]
proof fn spec_chunks_from_decreases(s: Seq<char>, cur: int) {
    if 0 <= cur < s.len() {
        lemma_chunk_end_bounds(s, cur);
    }
}

/// All segments of `s`, in order. Pure: the same text always yields the
/// same run of segments.
pub open spec fn spec_chunks(s: Seq<char>) -> Seq<Seq<char>> {
    spec_chunks_from(s, 0)
}

/// Concatenating the segments from `cur` on gives back the text from `cur`
/// on.
proof fn lemma_chunks_concat_from(s: Seq<char>, cur: int)
    requires
        0 <= cur <= s.len(),
    ensures
        concat_all(spec_chunks_from(s, cur)) == s.subrange(cur, s.len() as int),
    decreases s.len() - cur,
{
    if cur >= s.len() {
        assert(concat_all(spec_chunks_from(s, cur)) =~= s.subrange(cur, s.len() as int));
    } else {
        let e = chunk_end(s, cur);
        lemma_chunk_end_bounds(s, cur);
        lemma_chunks_concat_from(s, e);
        let cs = spec_chunks_from(s, cur);
        assert(cs.drop_first() =~~= spec_chunks_from(s, e));
        assert(concat_all(cs) =~= s.subrange(cur, s.len() as int));
    }
}

/// The total length of a run of segments.
pub open spec fn sum_lens(pieces: Seq<Seq<char>>) -> int
    decreases pieces.len(),
{
    if pieces.len() == 0 {
        0
    } else {
        pieces[0].len() + sum_lens(pieces.drop_first())
    }
}

/// Concatenation is as long as its parts together.
proof fn lemma_concat_len(pieces: Seq<Seq<char>>)
    ensures
        concat_all(pieces).len() == sum_lens(pieces),
    decreases pieces.len(),
{
    if pieces.len() > 0 {
        lemma_concat_len(pieces.drop_first());
    }
}

/// No character is lost or duplicated: the segments of `s` concatenate back
/// to exactly `s`, and their lengths sum to the length of `s`.
pub proof fn lemma_no_character_loss(s: Seq<char>)
    ensures
        concat_all(spec_chunks(s)) == s,
        sum_lens(spec_chunks(s)) == s.len(),
{
    lemma_chunks_concat_from(s, 0);
    assert(s.subrange(0, s.len() as int) =~= s);
    lemma_concat_len(spec_chunks(s));
}

/// Segment sizes are bounded: empty text has no segments, and every segment
/// of nonempty text holds between 1 and 750 codepoints.
pub proof fn lemma_chunk_size_bounds(s: Seq<char>)
    ensures
        s.len() == 0 ==> spec_chunks(s).len() == 0,
        forall|k: int|
            0 <= k < spec_chunks(s).len() ==> 1 <= (#[trigger] spec_chunks(s)[k]).len() <= 750,
{
    lemma_chunk_size_bounds_from(s, 0);
}

proof fn lemma_chunk_size_bounds_from(s: Seq<char>, cur: int)
    requires
        0 <= cur,
    ensures
        forall|k: int|
            0 <= k < spec_chunks_from(s, cur).len() ==> 1 <= (#[trigger] spec_chunks_from(
                s,
                cur,
            )[k]).len() <= 750,
    decreases s.len() - cur,
{
    if cur < s.len() {
        let e = chunk_end(s, cur);
        lemma_chunk_end_bounds(s, cur);
        lemma_chunk_size_bounds_from(s, e);
        let cs = spec_chunks_from(s, cur);
        assert forall|k: int| 0 <= k < cs.len() implies 1 <= (#[trigger] cs[k]).len() <= 750 by {
            if k > 0 {
                assert(cs[k] == spec_chunks_from(s, e)[k - 1]);
            }
        }
    }
}

/// Text no longer than the target size is one single chunk: the whole
/// text.
pub proof fn lemma_short_content_single_chunk(s: Seq<char>)
    requires
        1 <= s.len() <= 512,
    ensures
        spec_chunks(s) == seq![s],
{
    assert(chunk_end(s, 0) == s.len());
    assert(s.subrange(0, s.len() as int) =~= s);
    assert(spec_chunks_from(s, s.len() as int) =~~= Seq::<Seq<char>>::empty());
    assert(spec_chunks(s) =~~= seq![s]);
}

/// Boundary preference: when a newline stands in the window
/// `[cur+500, cur+512]` of a non-final segment, the segment ends exactly
/// one past the first such newline.
pub proof fn lemma_boundary_preference(s: Seq<char>, cur: int)
    requires
        0 <= cur,
        cur + 512 < s.len(),
        exists|i: int| cur + 500 <= i <= cur + 512 && s[i] == '\n',
    ensures
        cur + 500 <= chunk_end(s, cur) - 1 <= cur + 512,
        s[chunk_end(s, cur) - 1] == '\n',
        forall|j: int| cur + 500 <= j < chunk_end(s, cur) - 1 ==> s[j] != '\n',
{
    lemma_first_nl_props(s, cur + 500, cur + 513);
    if first_nl(s, cur + 500, cur + 513) is None {
        let i = choose|i: int| cur + 500 <= i <= cur + 512 && s[i] == '\n';
        assert(false);
    }
}

/// The first newline of `s` in `[lo, hi)`, by a left-to-right scan.
fn scan_nl(s: &Vec<char>, lo: usize, hi: usize) -> (r: Option<usize>)
    requires
        lo <= hi <= s@.len(),
    ensures
        match r {
            Some(i) => first_nl(s@, lo as int, hi as int) == Some(i as int),
            None => first_nl(s@, lo as int, hi as int) is None,
        },
{
    let mut i: usize = lo;
    while i < hi
        invariant
            lo <= i <= hi,
            first_nl(s@, lo as int, hi as int) == first_nl(s@, i as int, hi as int),
        decreases hi - i,
    {
        if s[i] == '\n' {
            return Some(i);
        }
        i += 1;
    }
    None
}

/// The first whitespace of `s` in `[lo, hi)`, by a left-to-right scan.
fn scan_ws(s: &Vec<char>, lo: usize, hi: usize) -> (r: Option<usize>)
    requires
        lo <= hi <= s@.len(),
    ensures
        match r {
            Some(i) => first_ws(s@, lo as int, hi as int) == Some(i as int),
            None => first_ws(s@, lo as int, hi as int) is None,
        },
{
    let mut i: usize = lo;
    while i < hi
        invariant
            lo <= i <= hi,
            first_ws(s@, lo as int, hi as int) == first_ws(s@, i as int, hi as int),
        decreases hi - i,
    {
        if is_space(s[i]) {
            return Some(i);
        }
        i += 1;
    }
    None
}

/// Where the segment that starts at `cur` ends.
fn find_chunk_end(s: &Vec<char>, cur: usize) -> (end: usize)
    requires
        cur < s@.len(),
    ensures
        end == chunk_end(s@, cur as int),
        cur < end <= s@.len(),
{
    proof {
        lemma_chunk_end_bounds(s@, cur as int);
    }
    let n = s.len();
    if n - cur <= 512 {
        return n;
    }
    let far = if n - cur <= 750 {
        n
    } else {
        cur + 750
    };
    match scan_nl(s, cur + 500, cur + 513) {
        Some(i) => i + 1,
        None => match scan_nl(s, cur + 512, far) {
            Some(i) => i + 1,
            None => match scan_ws(s, cur + 512, far) {
                Some(i) => i,
                None => cur + 512,
            },
        },
    }
}

/// The segments of `content`, in order: what `spec_chunks` names, computed.
pub fn chunk(content: &Vec<char>) -> (r: Vec<Vec<char>>)
    ensures
        r.deep_view() == spec_chunks(content@),
{
    let n = content.len();
    let mut r: Vec<Vec<char>> = Vec::new();
    let mut cur: usize = 0;
    while cur < n
        invariant
            cur <= n,
            r.deep_view() + spec_chunks_from(content@, cur as int) =~~= spec_chunks(content@),
        decreases n - cur,
    {
        let end = find_chunk_end(content, cur);
        let piece = subrange_of(content, cur, end);
        let ghost old_dv = r.deep_view();
        r.push(piece);
        assert(r.deep_view() =~~= old_dv.push(piece@));
        cur = end;
    }
    assert(r.deep_view() =~~= spec_chunks(content@));
    r
}

} // verus!
