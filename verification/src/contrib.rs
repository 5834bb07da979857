//! The contributor summary: of all contributors with more than one commit,
//! the five with the most commits, in descending order of commit count
//! (ties keep their input order), each written as name and count, joined
//! with a bar.

use vstd::prelude::*;
use crate::digits::dec_digits;
use crate::digits::format_u64;
use crate::text::cat2;
use crate::text::cat3;
use crate::text::join_with;
use crate::text::string_of_chars;

verus! {

/// The mathematical image of a contributor tally: name and commit count
/// pairs, in input order.
pub open spec fn pairs_view(s: Seq<(String, u64)>) -> Seq<(Seq<char>, u64)> {
    s.map_values(|p: (String, u64)| (p.0@, p.1))
}

/// The contributors with more than one commit, in input order.
pub open spec fn kept(s: Seq<(Seq<char>, u64)>) -> Seq<(Seq<char>, u64)>
    decreases s.len(),
{
    if s.len() == 0 {
        s
    } else {
        let rest = kept(s.drop_first());
        if s[0].1 > 1 {
            seq![s[0]] + rest
        } else {
            rest
        }
    }
}

/// Keeping one more contributor: the pair joins the kept run exactly when
/// its count exceeds one.
proof fn lemma_kept_push(pre: Seq<(Seq<char>, u64)>, x: (Seq<char>, u64))
    ensures
        kept(pre.push(x)) == if x.1 > 1 {
            kept(pre).push(x)
        } else {
            kept(pre)
        },
    decreases pre.len(),
{
    if pre.len() == 0 {
        assert(pre.push(x).drop_first() =~= Seq::<(Seq<char>, u64)>::empty());
        assert(kept(Seq::<(Seq<char>, u64)>::empty()) =~= Seq::<(Seq<char>, u64)>::empty());
        if x.1 > 1 {
            assert(kept(pre.push(x)) =~= kept(pre).push(x));
        } else {
            assert(kept(pre.push(x)) =~= kept(pre));
        }
    } else {
        assert(pre.push(x).drop_first() =~= pre.drop_first().push(x));
        lemma_kept_push(pre.drop_first(), x);
        if x.1 > 1 {
            assert(kept(pre.push(x)) =~= kept(pre).push(x));
        } else {
            assert(kept(pre.push(x)) =~= kept(pre));
        }
    }
}

/// `x` placed into a run sorted by descending count: before the first pair
/// with a smaller count, after every pair with an equal or larger one.
pub open spec fn insert_desc(x: (Seq<char>, u64), s: Seq<(Seq<char>, u64)>) -> Seq<
    (Seq<char>, u64),
>
    decreases s.len(),
{
    if s.len() == 0 {
        seq![x]
    } else if x.1 > s[0].1 {
        seq![x] + s
    } else {
        seq![s[0]] + insert_desc(x, s.drop_first())
    }
}

/// The run sorted by descending count, pairs of equal count keeping their
/// input order: each pair in turn placed into the sorted run of the pairs
/// before it.
pub open spec fn sort_desc(s: Seq<(Seq<char>, u64)>) -> Seq<(Seq<char>, u64)>
    decreases s.len(),
{
    if s.len() == 0 {
        s
    } else {
        insert_desc(s.last(), sort_desc(s.drop_last()))
    }
}

/// Where `insert_desc` places the new pair: at the first position whose
/// count is smaller.
proof fn lemma_insert_desc_at(x: (Seq<char>, u64), s: Seq<(Seq<char>, u64)>, i: int)
    requires
        0 <= i <= s.len(),
        forall|j: int| 0 <= j < i ==> !(x.1 > (#[trigger] s[j]).1),
        i < s.len() ==> x.1 > s[i].1,
    ensures
        insert_desc(x, s) == s.subrange(0, i) + seq![x] + s.subrange(i, s.len() as int),
    decreases s.len(),
{
    if s.len() == 0 {
        assert(insert_desc(x, s) =~= s.subrange(0, i) + seq![x] + s.subrange(i, s.len() as int));
    } else if x.1 > s[0].1 {
        assert(i == 0);
        assert(insert_desc(x, s) =~= s.subrange(0, i) + seq![x] + s.subrange(i, s.len() as int));
    } else {
        assert(i >= 1);
        assert forall|j: int| 0 <= j < i - 1 implies !(x.1 > (#[trigger] s.drop_first()[j]).1) by {
            assert(s.drop_first()[j] == s[j + 1]);
        }
        lemma_insert_desc_at(x, s.drop_first(), i - 1);
        assert(s.drop_first().subrange(0, i - 1) =~= s.subrange(1, i));
        assert(s.drop_first().subrange(i - 1, s.drop_first().len() as int) =~= s.subrange(
            i,
            s.len() as int,
        ));
        assert(insert_desc(x, s) =~= s.subrange(0, i) + seq![x] + s.subrange(i, s.len() as int));
    }
}

/// The text of one summary entry: the name, then the count in parentheses.
pub open spec fn entry_text(p: (Seq<char>, u64)) -> Seq<char> {
    p.0 + " ("@ + dec_digits(p.1 as int) + ")"@
}

/// The whole summary: the tally filtered to counts above one, sorted by
/// descending count with ties in input order, cut to the top five, each
/// entry written as name and count, joined with a bar.
pub open spec fn spec_format_contributors(entries: Seq<(Seq<char>, u64)>) -> Seq<char> {
    let sorted = sort_desc(kept(entries));
    let top = if sorted.len() > 5 {
        sorted.subrange(0, 5)
    } else {
        sorted
    };
    join_with(top.map_values(|p: (Seq<char>, u64)| entry_text(p)), " | "@)
}

/// `x` placed into a sorted vector: what `insert_desc` names, computed.
fn insert_sorted(v: &mut Vec<(String, u64)>, x: (String, u64))
    ensures
        pairs_view(final(v)@) == insert_desc((x.0@, x.1), pairs_view(old(v)@)),
{
    let ghost xv = (x.0@, x.1);
    let ghost sv = pairs_view(v@);
    let mut i: usize = 0;
    while i < v.len() && !(x.1 > v[i].1)
        invariant
            0 <= i <= v@.len(),
            sv == pairs_view(v@),
            sv.len() == v@.len(),
            forall|j: int| 0 <= j < i ==> !(x.1 > (#[trigger] sv[j]).1),
        decreases v@.len() - i,
    {
        proof {
            assert(sv[i as int].1 == v@[i as int].1);
        }
        i += 1;
    }
    proof {
        assert(i < v@.len() ==> xv.1 > sv[i as int].1);
        lemma_insert_desc_at(xv, sv, i as int);
    }
    v.insert(i, x);
    proof {
        assert(pairs_view(v@) =~= sv.subrange(0, i as int) + seq![xv] + sv.subrange(
            i as int,
            sv.len() as int,
        ));
    }
}

/// The contributor summary for a tally: what `spec_format_contributors`
/// names, computed. Same tally, same text, on every call.
pub fn format_contributors(contributors: &Vec<(String, u64)>) -> (r: String)
    ensures
        r@ == spec_format_contributors(pairs_view(contributors@)),
{
    let ghost cv = pairs_view(contributors@);
    // keep the contributors with more than one commit
    let mut kept_v: Vec<(String, u64)> = Vec::new();
    let mut i: usize = 0;
    proof {
        assert(cv.subrange(0, 0) =~= Seq::<(Seq<char>, u64)>::empty());
        assert(kept(cv.subrange(0, 0)) =~= pairs_view(kept_v@));
    }
    while i < contributors.len()
        invariant
            0 <= i <= contributors@.len(),
            cv == pairs_view(contributors@),
            cv.len() == contributors@.len(),
            pairs_view(kept_v@) == kept(cv.subrange(0, i as int)),
        decreases contributors@.len() - i,
    {
        let ghost before = pairs_view(kept_v@);
        if contributors[i].1 > 1 {
            let p = (contributors[i].0.clone(), contributors[i].1);
            kept_v.push(p);
            proof {
                assert(pairs_view(kept_v@) =~= before.push((p.0@, p.1)));
            }
        }
        proof {
            lemma_kept_push(cv.subrange(0, i as int), cv[i as int]);
            assert(cv.subrange(0, i as int).push(cv[i as int]) =~= cv.subrange(0, i + 1));
            assert(pairs_view(kept_v@) =~= kept(cv.subrange(0, i + 1)));
        }
        i += 1;
    }
    proof {
        assert(cv.subrange(0, cv.len() as int) =~= cv);
    }
    let ghost kv = pairs_view(kept_v@);
    // sort by descending count, ties in input order
    let mut sorted: Vec<(String, u64)> = Vec::new();
    let mut i: usize = 0;
    proof {
        assert(kv.subrange(0, 0) =~= Seq::<(Seq<char>, u64)>::empty());
        assert(sort_desc(kv.subrange(0, 0)) =~= pairs_view(sorted@));
    }
    while i < kept_v.len()
        invariant
            0 <= i <= kept_v@.len(),
            kv == pairs_view(kept_v@),
            kv.len() == kept_v@.len(),
            pairs_view(sorted@) == sort_desc(kv.subrange(0, i as int)),
        decreases kept_v@.len() - i,
    {
        let p = (kept_v[i].0.clone(), kept_v[i].1);
        insert_sorted(&mut sorted, p);
        proof {
            assert(cv.subrange(0, 0) =~= Seq::<(Seq<char>, u64)>::empty());
            assert(kv.subrange(0, i + 1).drop_last() =~= kv.subrange(0, i as int));
            assert(kv.subrange(0, i + 1).last() == kv[i as int]);
            assert((p.0@, p.1) == kv[i as int]);
        }
        i += 1;
    }
    proof {
        assert(kv.subrange(0, kv.len() as int) =~= kv);
    }
    let ghost sv = pairs_view(sorted@);
    // the top five entries, as text
    let limit = if sorted.len() > 5 {
        5
    } else {
        sorted.len()
    };
    let ghost top = if sv.len() > 5 {
        sv.subrange(0, 5)
    } else {
        sv
    };
    let ghost texts = top.map_values(|p: (Seq<char>, u64)| entry_text(p));
    proof {
        assert(texts.len() == limit);
    }
    let mut out = String::new();
    let mut j: usize = 0;
    proof {
        assert(out@ =~= join_with(texts.subrange(0, 0), " | "@));
    }
    while j < limit
        invariant
            0 <= j <= limit,
            limit <= sorted@.len(),
            sv == pairs_view(sorted@),
            sv.len() == sorted@.len(),
            texts.len() == limit,
            texts == top.map_values(|p: (Seq<char>, u64)| entry_text(p)),
            top == (if sv.len() > 5 {
                sv.subrange(0, 5)
            } else {
                sv
            }),
            out@ == join_with(texts.subrange(0, j as int), " | "@),
        decreases limit - j,
    {
        let digits = string_of_chars(&format_u64(sorted[j].1));
        let head = cat3(sorted[j].0.as_str(), " (", digits.as_str());
        let entry = cat2(head.as_str(), ")");
        proof {
            assert(top[j as int] == sv[j as int]);
            assert(entry@ == texts[j as int]);
        }
        if j > 0 {
            out.append(" | ");
        }
        out.append(entry.as_str());
        proof {
            crate::assemble::lemma_join_with_push(texts.subrange(0, j as int), texts[j as int], " | "@);
            assert(texts.subrange(0, j as int).push(texts[j as int]) =~~= texts.subrange(
                0,
                j + 1,
            ));
            assert(out@ =~= join_with(texts.subrange(0, j + 1), " | "@));
        }
        j += 1;
    }
    proof {
        assert(texts.subrange(0, texts.len() as int) =~~= texts);
    }
    out
}

/// The top-five contributor summary: the same formatting, under the name
/// the markdown pipeline uses.
pub fn md_contrib_five(contributors: &Vec<(String, u64)>) -> (r: String)
    ensures
        r@ == spec_format_contributors(pairs_view(contributors@)),
{
    format_contributors(contributors)
}

} // verus!
