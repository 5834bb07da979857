//! The round-trip law: parsing a document assembled from a metadata record
//! and a run of chunks recovers the record and the chunks exactly. The
//! format has no escaping, so the law holds for every record and chunk run
//! that does not imitate the format's own delimiters; `meta_wf` and
//! `chunk_ok` say precisely what that means.

use vstd::prelude::*;
use crate::metadata::MetadataView;
use crate::metadata::lines_text;
use crate::metadata::meta_wf;
use crate::metadata::nl_seq;
use crate::metadata::no_nl;
use crate::metadata::sentinel_seq;
use crate::metadata::spec_meta_block;
use crate::metadata::spec_meta_lines;
use crate::digits::dec_digits;
use crate::digits::lemma_dec_digits_val;
use crate::assemble::spec_assemble_chunked;
use crate::chunker::spec_chunks;
use crate::chunker::lemma_no_character_loss;
use crate::text::concat_all;
use crate::assemble::spec_fragment;
use crate::assemble::spec_fragments;
use crate::parse::collect_pieces;
use crate::parse::ends_with;
use crate::parse::fence_close_seq;
use crate::parse::fence_open_seq;
use crate::parse::next_line;
use crate::parse::parse_piece;
use crate::parse::rsep_seq;
use crate::parse::sep_seq;
use crate::parse::spec_parse;
use crate::parse::spec_parse_body;
use crate::parse::spec_parse_meta;
use crate::parse::take_kv;
use crate::text::contains_sub;
use crate::text::has_prefix;
use crate::text::join_with;
use crate::text::lemma_find_sub_from_exact;
use crate::text::lemma_split_on_join;
use crate::text::match_at;
use crate::text::piece_clean;
use crate::text::split_on;

verus! {

/// The first line of a rendered run of lines is the first line, and what
/// follows the break is the rest of the run.
proof fn lemma_take_line_text(lines: Seq<Seq<char>>)
    requires
        lines.len() >= 1,
        no_nl(lines[0]),
    ensures
        next_line(lines_text(lines)) == Some(
            (lines[0], lines_text(lines.drop_first())),
        ),
{
    reveal_strlit("\n");
    let s = lines_text(lines);
    let l0 = lines[0];
    let rest = lines_text(lines.drop_first());
    assert(s == l0 + nl_seq() + rest);
    assert(match_at(s, nl_seq(), l0.len() as int)) by {
        assert(s.subrange(l0.len() as int, l0.len() as int + 1) =~= nl_seq());
    }
    assert forall|j: int| 0 <= j < l0.len() implies !match_at(s, nl_seq(), j) by {
        if match_at(s, nl_seq(), j) {
            assert(s.subrange(j, j + 1)[0] == s[j]);
            assert(s[j] == l0[j]);
        }
    }
    lemma_find_sub_from_exact(s, nl_seq(), 0, l0.len() as int);
    assert(s.subrange(0, l0.len() as int) =~= l0);
    assert(s.subrange(l0.len() as int + 1, s.len() as int) =~= rest);
}

/// Joining texts without line breaks yields a text without line breaks.
proof fn lemma_no_nl_cat(a: Seq<char>, b: Seq<char>)
    requires
        no_nl(a),
        no_nl(b),
    ensures
        no_nl(a + b),
{
    assert forall|i: int| 0 <= i < (a + b).len() implies (a + b)[i] != '\n' by {
        if i < a.len() {
            assert((a + b)[i] == a[i]);
        } else {
            assert((a + b)[i] == b[i - a.len()]);
        }
    }
}

/// Taking the line `key + v` off a run recovers `v` and the rest of the
/// run.
proof fn lemma_take_kv_text(lines: Seq<Seq<char>>, key: Seq<char>, v: Seq<char>)
    requires
        lines.len() >= 1,
        lines[0] == key + v,
        no_nl(key),
        no_nl(v),
    ensures
        take_kv(lines_text(lines), key) == Some((v, lines_text(lines.drop_first()))),
{
    lemma_no_nl_cat(key, v);
    lemma_take_line_text(lines);
    let l0 = lines[0];
    assert(has_prefix(l0, key)) by {
        assert(l0.subrange(0, key.len() as int) =~= key);
    }
    assert(l0.subrange(key.len() as int, l0.len() as int) =~= v);
}

/// No line break in any of the fixed keywords of the schema.
proof fn lemma_keywords_no_nl()
    ensures
        no_nl("title: "@),
        no_nl("date: "@),
        no_nl("tags:"@),
        no_nl("- "@),
        no_nl("- [UUID:"@),
        no_nl("github: ["@),
        no_nl("contributors: "@),
        no_nl("latest_release: "@),
        no_nl("release_date: "@),
        no_nl("path: "@),
        no_nl("size: "@),
{
    reveal_strlit("title: ");
    reveal_strlit("date: ");
    reveal_strlit("tags:");
    reveal_strlit("- ");
    reveal_strlit("- [UUID:");
    reveal_strlit("github: [");
    reveal_strlit("contributors: ");
    reveal_strlit("latest_release: ");
    reveal_strlit("release_date: ");
    reveal_strlit("path: ");
    reveal_strlit("size: ");
}

/// Parsing the rendered front-matter block of a well-formed record recovers
/// the record: the metadata side of the round trip.
pub proof fn lemma_parse_meta_round_trip(m: MetadataView)
    requires
        meta_wf(m),
    ensures
        spec_parse_meta(spec_meta_block(m)) == Some(m),
{
    reveal_strlit("]");
    reveal_strlit("](");
    reveal_strlit(")");
    lemma_keywords_no_nl();
    let l = spec_meta_lines(m);

    // title
    lemma_take_kv_text(l, "title: "@, m.title);
    let l1 = l.drop_first();
    // date
    assert(l1[0] == "date: "@ + m.date);
    lemma_take_kv_text(l1, "date: "@, m.date);
    let l2 = l1.drop_first();
    // tags
    assert(l2[0] == "tags:"@);
    lemma_take_line_text(l2);
    let l3 = l2.drop_first();
    // language
    assert(l3[0] == "- "@ + m.language);
    lemma_take_kv_text(l3, "- "@, m.language);
    let l4 = l3.drop_first();
    // identifier
    let idv = m.file_id + "]"@;
    assert(l4[0] == "- [UUID:"@ + idv) by {
        assert("- [UUID:"@ + m.file_id + "]"@ =~= "- [UUID:"@ + (m.file_id + "]"@));
    }
    assert(no_nl(idv)) by {
        lemma_no_nl_cat(m.file_id, "]"@);
    }
    lemma_take_kv_text(l4, "- [UUID:"@, idv);
    assert(idv[idv.len() - 1] == ']');
    assert(idv.subrange(0, idv.len() - 1) =~= m.file_id);
    let l5 = l4.drop_first();
    // remote link
    let gh = m.github_name + "]("@ + m.github_url + ")"@;
    assert(l5[0] == "github: ["@ + gh) by {
        assert("github: ["@ + m.github_name + "]("@ + m.github_url + ")"@ =~= "github: ["@ + (
        m.github_name + "]("@ + m.github_url + ")"@));
    }
    assert(no_nl(gh)) by {
        lemma_no_nl_cat(m.github_name, "]("@);
        lemma_no_nl_cat(m.github_name + "]("@, m.github_url);
        lemma_no_nl_cat(m.github_name + "]("@ + m.github_url, ")"@);
    }
    lemma_take_kv_text(l5, "github: ["@, gh);
    let nlen = m.github_name.len() as int;
    assert(match_at(gh, "]("@, nlen)) by {
        assert(gh.subrange(nlen, nlen + 2) =~= "]("@);
    }
    assert forall|j: int| 0 <= j < nlen implies !match_at(gh, "]("@, j) by {
        if match_at(gh, "]("@, j) {
            assert(gh.subrange(j, j + 2)[0] == gh[j]);
            assert(gh.subrange(j, j + 2)[1] == gh[j + 1]);
            if j + 2 <= nlen {
                assert(match_at(m.github_name, "]("@, j)) by {
                    assert(m.github_name.subrange(j, j + 2) =~= gh.subrange(j, j + 2));
                }
                assert(false);
            } else {
                assert(gh[j + 1] == ']');
                assert(false);
            }
        }
    }
    lemma_find_sub_from_exact(gh, "]("@, 0, nlen);
    assert(gh.subrange(0, nlen) =~= m.github_name);
    let after = gh.subrange(nlen + 2, gh.len() as int);
    assert(after =~= m.github_url + ")"@);
    assert(after[after.len() - 1] == ')');
    assert(after.subrange(0, after.len() - 1) =~= m.github_url);
    let l6 = l5.drop_first();
    // contributors
    assert(l6[0] == "contributors: "@ + m.contributors);
    lemma_take_kv_text(l6, "contributors: "@, m.contributors);
    let l7 = l6.drop_first();
    // latest release
    assert(l7[0] == "latest_release: "@ + m.latest_release);
    lemma_take_kv_text(l7, "latest_release: "@, m.latest_release);
    let l8 = l7.drop_first();
    // release date
    assert(l8[0] == "release_date: "@ + m.release_date);
    lemma_take_kv_text(l8, "release_date: "@, m.release_date);
    let l9 = l8.drop_first();
    // path
    assert(l9[0] == "path: "@ + m.path);
    lemma_take_kv_text(l9, "path: "@, m.path);
    let l10 = l9.drop_first();
    // size
    lemma_dec_digits_val(m.size);
    assert(l10[0] == "size: "@ + dec_digits(m.size));
    assert(no_nl(dec_digits(m.size))) by {
        assert forall|i: int| 0 <= i < dec_digits(m.size).len() implies dec_digits(m.size)[i]
            != '\n' by {
            assert(crate::digits::is_digit_char(dec_digits(m.size)[i]));
        }
    }
    lemma_take_kv_text(l10, "size: "@, dec_digits(m.size));
    let l11 = l10.drop_first();
    assert(l11.len() == 0);
    assert(lines_text(l11).len() == 0);
}

/// Matching characters, one by one: a match pins every character under the
/// pattern.
proof fn lemma_match_char(s: Seq<char>, pat: Seq<char>, j: int, t: int)
    requires
        match_at(s, pat, j),
        0 <= t < pat.len(),
    ensures
        s[j + t] == pat[t],
{
    assert(s.subrange(j, j + pat.len() as int)[t] == s[j + t]);
}

/// A chunk the body encoding can carry faithfully: its identifier does not
/// break the line structure, and its content does not imitate the tag
/// pattern, the fence-opening pattern, or the fence-closing pattern.
pub open spec fn chunk_ok(id: Seq<char>, c: Seq<char>) -> bool {
    &&& no_nl(id)
    &&& !contains_sub(c, sep_seq())
    &&& !has_prefix(c, "[UUID:"@)
    &&& !contains_sub(c, rsep_seq())
    &&& (c.len() == 0 || c[c.len() - 1] != ']')
}

/// What stands between two tag separators in an assembled body: the
/// identifier, the fence around the content, and the content itself.
pub open spec fn body_piece(id: Seq<char>, c: Seq<char>) -> Seq<char> {
    id + "]\n```\n"@ + c + "\n```\n"@
}

/// The body pieces of a run of sections, in order.
pub open spec fn body_pieces(secs: Seq<(Seq<char>, Seq<char>)>) -> Seq<Seq<char>> {
    secs.map_values(|p: (Seq<char>, Seq<char>)| body_piece(p.0, p.1))
}

/// No character of the middle of the tag separator is a line break.
proof fn lemma_sep_char_not_nl(k: int)
    requires
        1 <= k < 7,
    ensures
        sep_seq()[k] != '\n',
{
    reveal_strlit("\n[UUID:");
    if k == 1 {
    } else if k == 2 {
    } else if k == 3 {
    } else if k == 4 {
    } else if k == 5 {
    } else {
        assert(k == 6);
    }
}

/// No occurrence of the tag separator begins inside a well-formed body
/// piece, even one that runs on into the separator that follows the piece.
proof fn lemma_body_piece_clean(id: Seq<char>, c: Seq<char>)
    requires
        chunk_ok(id, c),
    ensures
        piece_clean(body_piece(id, c), sep_seq()),
{
    reveal_strlit("\n[UUID:");
    reveal_strlit("[UUID:");
    reveal_strlit("]\n```\n");
    reveal_strlit("\n```\n");
    let p = body_piece(id, c);
    let sep = sep_seq();
    let s = p + sep;
    let n = id.len() as int;
    let cl = c.len() as int;
    // The character at every position of `s`.
    assert forall|t: int| 0 <= t < n implies s[t] == id[t] by {}
    assert forall|t: int| 0 <= t < 6 implies s[n + t] == "]\n```\n"@[t] by {}
    assert forall|t: int| 0 <= t < cl implies s[n + 6 + t] == c[t] by {}
    assert forall|t: int| 0 <= t < 5 implies s[n + 6 + cl + t] == "\n```\n"@[t] by {}
    assert forall|t: int| 0 <= t < 7 implies s[n + 11 + cl + t] == sep[t] by {}
    assert forall|j: int| 0 <= j < p.len() implies !match_at(s, sep, j) by {
        if match_at(s, sep, j) {
            lemma_match_char(s, sep, j, 0);
            lemma_match_char(s, sep, j, 1);
            if j < n {
                assert(s[j] == id[j]);
                assert(false);
            } else if j == n {
                assert(s[j] == ']');
                assert(false);
            } else if j == n + 1 {
                assert(s[j + 1] == '`');
                assert(false);
            } else if j <= n + 4 {
                assert(s[j] == '`');
                assert(false);
            } else if j == n + 5 {
                // the line break that opens the fence: the following text
                // would have to begin with the tag opener
                if cl >= 6 {
                    assert(has_prefix(c, "[UUID:"@)) by {
                        lemma_match_char(s, sep, j, 2);
                        lemma_match_char(s, sep, j, 3);
                        lemma_match_char(s, sep, j, 4);
                        lemma_match_char(s, sep, j, 5);
                        lemma_match_char(s, sep, j, 6);
                        assert(c.subrange(0, 6) =~= "[UUID:"@);
                    }
                    assert(false);
                } else {
                    lemma_match_char(s, sep, j, 1 + cl);
                    lemma_sep_char_not_nl(1 + cl);
                    assert(s[n + 6 + cl] == '\n');
                    assert(false);
                }
            } else if j < n + 6 + cl {
                let t = j - n - 6;
                if j + 7 <= n + 6 + cl {
                    assert(match_at(c, sep, t)) by {
                        assert forall|u: int| 0 <= u < 7 implies c.subrange(t, t + 7)[u] == sep[u]
                            by {
                            lemma_match_char(s, sep, j, u);
                        }
                        assert(c.subrange(t, t + 7) =~= sep);
                    }
                    assert(contains_sub(c, sep));
                    assert(false);
                } else {
                    let k = n + 6 + cl - j;
                    lemma_match_char(s, sep, j, k);
                    lemma_sep_char_not_nl(k);
                    assert(s[n + 6 + cl] == '\n');
                    assert(false);
                }
            } else if j == n + 6 + cl {
                assert(s[j + 1] == '`');
                assert(false);
            } else if j <= n + 6 + cl + 3 {
                assert(s[j] == '`');
                assert(false);
            } else {
                assert(j == n + 6 + cl + 4);
                assert(s[j + 1] == sep[0]);
                assert(s[j + 1] == '\n');
                assert(false);
            }
        }
    }
}

/// A well-formed body piece parses back to its identifier and content.
proof fn lemma_parse_body_piece(id: Seq<char>, c: Seq<char>)
    requires
        chunk_ok(id, c),
    ensures
        parse_piece(body_piece(id, c)) == Some((id, c)),
{
    reveal_strlit("]\n");
    reveal_strlit("```\n");
    reveal_strlit("\n```\n");
    reveal_strlit("]\n```\n");
    let p = body_piece(id, c);
    let rsep = rsep_seq();
    let rest = fence_open_seq() + c + fence_close_seq();
    let pieces = seq![id, rest];
    assert(join_with(pieces, rsep) == id + rsep + rest) by {
        assert(pieces.drop_first() =~~= seq![rest]);
        assert(join_with(seq![rest], rsep) == rest);
    }
    assert(p =~= id + rsep + rest);
    // the identifier holds no start of the delimiter
    assert(piece_clean(id, rsep)) by {
        assert forall|j: int| 0 <= j < id.len() implies !match_at(id + rsep, rsep, j) by {
            if match_at(id + rsep, rsep, j) {
                lemma_match_char(id + rsep, rsep, j, 1);
                if j + 1 < id.len() {
                    assert((id + rsep)[j + 1] == id[j + 1]);
                    assert(false);
                } else {
                    assert((id + rsep)[j + 1] == ']');
                    assert(false);
                }
            }
        }
    }
    // the fenced content holds no delimiter either
    assert(piece_clean(rest, rsep)) by {
        let s = rest + rsep;
        let cl = c.len() as int;
        assert forall|t: int| 0 <= t < 4 implies s[t] == "```\n"@[t] by {}
        assert forall|t: int| 0 <= t < cl implies s[4 + t] == c[t] by {}
        assert forall|t: int| 0 <= t < 5 implies s[4 + cl + t] == "\n```\n"@[t] by {}
        assert forall|j: int| 0 <= j < rest.len() implies !match_at(s, rsep, j) by {
            if match_at(s, rsep, j) {
                lemma_match_char(s, rsep, j, 0);
                lemma_match_char(s, rsep, j, 1);
                if j < 4 {
                    assert(s[j] != ']');
                    assert(false);
                } else if j < 4 + cl {
                    let t = j - 4;
                    if t + 2 <= cl {
                        assert(match_at(c, rsep, t)) by {
                            assert(c.subrange(t, t + 2)[0] == c[t]);
                            assert(c.subrange(t, t + 2)[1] == c[t + 1]);
                            assert(c.subrange(t, t + 2) =~= rsep);
                        }
                        assert(contains_sub(c, rsep));
                        assert(false);
                    } else {
                        assert(s[j] == c[cl - 1]);
                        assert(false);
                    }
                } else {
                    assert(s[j] != ']');
                    assert(false);
                }
            }
        }
    }
    lemma_split_on_join(pieces, rsep);
    assert(split_on(p, rsep) == pieces);
    assert(has_prefix(rest, fence_open_seq())) by {
        assert(rest.subrange(0, 4) =~= fence_open_seq());
    }
    assert(ends_with(rest, fence_close_seq())) by {
        assert(rest.subrange(rest.len() - 5, rest.len() as int) =~= fence_close_seq());
    }
    assert(rest.subrange(4, rest.len() - 5) =~= c);
}

/// The assembled body after the header's blank line, re-expressed as the
/// separator-led run of body pieces that the parser splits on.
proof fn lemma_tail_join(secs: Seq<(Seq<char>, Seq<char>)>)
    requires
        secs.len() >= 1,
    ensures
        nl_seq() + join_with(spec_fragments(secs), nl_seq()) == join_with(
            seq![Seq::<char>::empty()] + body_pieces(secs),
            sep_seq(),
        ),
    decreases secs.len(),
{
    reveal_strlit("\n");
    reveal_strlit("[UUID:");
    reveal_strlit("\n[UUID:");
    let frags = spec_fragments(secs);
    let pieces = body_pieces(secs);
    let frag0 = spec_fragment(secs[0].0, secs[0].1);
    let p0 = body_piece(secs[0].0, secs[0].1);
    assert(frags[0] == frag0);
    assert(pieces[0] == p0);
    assert(nl_seq() + "[UUID:"@ =~= sep_seq());
    assert(nl_seq() + frag0 =~= sep_seq() + p0);
    if secs.len() == 1 {
        let ep = seq![Seq::<char>::empty()] + pieces;
        assert(ep.drop_first() =~~= seq![p0]);
        assert(join_with(seq![p0], sep_seq()) == p0);
        assert(join_with(ep, sep_seq()) == Seq::<char>::empty() + sep_seq() + p0);
        assert(join_with(frags, nl_seq()) == frag0);
        assert(nl_seq() + frag0 =~= Seq::<char>::empty() + sep_seq() + p0);
    } else {
        let secs2 = secs.drop_first();
        lemma_tail_join(secs2);
        let frags2 = spec_fragments(secs2);
        let pieces2 = body_pieces(secs2);
        assert(frags.drop_first() =~~= frags2);
        assert(pieces.drop_first() =~~= pieces2);
        let jf2 = join_with(frags2, nl_seq());
        let jp2 = join_with(pieces2, sep_seq());
        // what the recursion gives, with the empty first piece folded away
        let ep2 = seq![Seq::<char>::empty()] + pieces2;
        assert(ep2.drop_first() =~~= pieces2);
        assert(join_with(ep2, sep_seq()) == Seq::<char>::empty() + sep_seq() + jp2) by {
            assert(ep2.len() >= 2);
        }
        assert(nl_seq() + jf2 =~= sep_seq() + jp2);
        // both sides, regrouped around the first fragment
        assert(join_with(frags, nl_seq()) == frag0 + nl_seq() + jf2);
        let ep = seq![Seq::<char>::empty()] + pieces;
        assert(ep.drop_first() =~~= pieces);
        assert(join_with(ep, sep_seq()) == Seq::<char>::empty() + sep_seq() + join_with(
            pieces,
            sep_seq(),
        ));
        assert(join_with(pieces, sep_seq()) == p0 + sep_seq() + jp2);
        assert(nl_seq() + (frag0 + nl_seq() + jf2) =~= (nl_seq() + frag0) + (nl_seq() + jf2));
        assert((nl_seq() + frag0) + (nl_seq() + jf2) == (sep_seq() + p0) + (sep_seq() + jp2));
        assert(Seq::<char>::empty() + sep_seq() + (p0 + sep_seq() + jp2) =~= (sep_seq() + p0) + (
        sep_seq() + jp2));
    }
}

/// The empty lead piece of a split body parses to nothing.
proof fn lemma_parse_piece_empty()
    ensures
        parse_piece(Seq::<char>::empty()) is None,
{
    reveal_strlit("]\n");
    assert(split_on(Seq::<char>::empty(), rsep_seq()).len() == 1);
}

/// Collecting the parses of well-formed body pieces recovers the sections.
proof fn lemma_collect_body_pieces(secs: Seq<(Seq<char>, Seq<char>)>)
    requires
        forall|k: int| 0 <= k < secs.len() ==> chunk_ok(#[trigger] secs[k].0, secs[k].1),
    ensures
        collect_pieces(body_pieces(secs)) == secs,
    decreases secs.len(),
{
    if secs.len() == 0 {
        assert(collect_pieces(body_pieces(secs)) =~= secs);
    } else {
        lemma_parse_body_piece(secs[0].0, secs[0].1);
        assert(body_pieces(secs).drop_first() =~~= body_pieces(secs.drop_first()));
        lemma_collect_body_pieces(secs.drop_first());
        assert(collect_pieces(body_pieces(secs)) =~= secs);
    }
}

/// Parsing the assembled body recovers the sections: the body side of the
/// round trip.
proof fn lemma_parse_body_round_trip(secs: Seq<(Seq<char>, Seq<char>)>)
    requires
        forall|k: int| 0 <= k < secs.len() ==> chunk_ok(#[trigger] secs[k].0, secs[k].1),
    ensures
        spec_parse_body(nl_seq() + join_with(spec_fragments(secs), nl_seq())) == secs,
{
    reveal_strlit("\n");
    reveal_strlit("\n[UUID:");
    reveal_strlit("]\n");
    let tail = nl_seq() + join_with(spec_fragments(secs), nl_seq());
    if secs.len() == 0 {
        assert(spec_fragments(secs).len() == 0);
        assert(tail =~= nl_seq());
        assert(split_on(tail, sep_seq()) == seq![tail]);
        assert(split_on(tail, rsep_seq()).len() == 1);
        assert(parse_piece(tail) is None);
        assert(seq![tail].drop_first() =~~= Seq::<Seq<char>>::empty());
        assert(collect_pieces(Seq::<Seq<char>>::empty()) =~= Seq::<(Seq<char>, Seq<char>)>::empty());
        assert(spec_parse_body(tail) =~= secs);
    } else {
        lemma_tail_join(secs);
        let ep = seq![Seq::<char>::empty()] + body_pieces(secs);
        assert forall|k: int| 0 <= k < ep.len() implies piece_clean(#[trigger] ep[k], sep_seq()) by {
            if k == 0 {
                assert(ep[k].len() == 0);
            } else {
                assert(ep[k] == body_piece(secs[k - 1].0, secs[k - 1].1));
                lemma_body_piece_clean(secs[k - 1].0, secs[k - 1].1);
            }
        }
        lemma_split_on_join(ep, sep_seq());
        assert(split_on(tail, sep_seq()) == ep);
        lemma_parse_piece_empty();
        assert(ep.drop_first() =~~= body_pieces(secs));
        lemma_collect_body_pieces(secs);
        assert(collect_pieces(ep) =~= secs);
    }
}

/// Every rendered front-matter block ends on a line break.
proof fn lemma_lines_text_last(lines: Seq<Seq<char>>)
    requires
        lines.len() >= 1,
    ensures
        lines_text(lines).len() >= 1,
        lines_text(lines)[lines_text(lines).len() - 1] == '\n',
    decreases lines.len(),
{
    reveal_strlit("\n");
    if lines.len() == 1 {
        assert(lines_text(lines.drop_first()).len() == 0);
        assert(lines_text(lines) =~= lines[0] + nl_seq());
    } else {
        lemma_lines_text_last(lines.drop_first());
    }
}

/// The round-trip law: parsing a document assembled from a well-formed
/// record and well-formed chunks recovers exactly that record and, in
/// order, exactly those identifier and content pairs.
pub proof fn lemma_round_trip(m: MetadataView, secs: Seq<(Seq<char>, Seq<char>)>)
    requires
        meta_wf(m),
        forall|k: int| 0 <= k < secs.len() ==> chunk_ok(#[trigger] secs[k].0, secs[k].1),
    ensures
        spec_parse(spec_assemble_chunked(m, secs)) == Some((m, secs)),
{
    reveal_strlit("---\n");
    let doc = spec_assemble_chunked(m, secs);
    let block = spec_meta_block(m);
    let tail = nl_seq() + join_with(spec_fragments(secs), nl_seq());
    let sent = sentinel_seq();
    assert(doc =~= sent + block + sent + tail);
    assert(match_at(doc, sent, 0)) by {
        assert(doc.subrange(0, 4) =~= sent);
    }
    lemma_find_sub_from_exact(doc, sent, 0, 0);
    let k = 4 + block.len() as int;
    assert(match_at(doc, sent, k)) by {
        assert(doc.subrange(k, k + 4) =~= sent);
    }
    lemma_lines_text_last(spec_meta_lines(m));
    assert forall|j: int| 4 <= j < k implies !match_at(doc, sent, j) by {
        if match_at(doc, sent, j) {
            if j + 4 <= k {
                assert(match_at(block, sent, j - 4)) by {
                    assert(block.subrange(j - 4, j) =~= doc.subrange(j, j + 4));
                }
                assert(contains_sub(block, sent));
                assert(false);
            } else {
                lemma_match_char(doc, sent, j, k - 1 - j);
                assert(doc[k - 1] == block[block.len() - 1]);
                assert(false);
            }
        }
    }
    lemma_find_sub_from_exact(doc, sent, 4, k);
    assert(doc.subrange(4, k) =~= block);
    assert(doc.subrange(k + 4, doc.len() as int) =~= tail);
    lemma_parse_meta_round_trip(m);
    lemma_parse_body_round_trip(secs);
}

/// Identifiers and chunk texts, paired in order.
pub open spec fn pair_sections(ids: Seq<Seq<char>>, chunks: Seq<Seq<char>>) -> Seq<
    (Seq<char>, Seq<char>),
> {
    Seq::new(chunks.len(), |k: int| (ids[k], chunks[k]))
}

/// The whole pipeline round trip: chunk a text, tag each chunk, assemble
/// the document, parse it back — the record, the identifiers and the chunks
/// come back exactly, and the chunk contents concatenate to the original
/// text.
pub proof fn lemma_pipeline_round_trip(m: MetadataView, content: Seq<char>, ids: Seq<Seq<char>>)
    requires
        meta_wf(m),
        ids.len() == spec_chunks(content).len(),
        forall|k: int|
            0 <= k < ids.len() ==> chunk_ok(#[trigger] ids[k], spec_chunks(content)[k]),
    ensures
        spec_parse(spec_assemble_chunked(m, pair_sections(ids, spec_chunks(content)))) == Some(
            (m, pair_sections(ids, spec_chunks(content))),
        ),
        concat_all(
            pair_sections(ids, spec_chunks(content)).map_values(
                |p: (Seq<char>, Seq<char>)| p.1,
            ),
        ) == content,
{
    let secs = pair_sections(ids, spec_chunks(content));
    assert forall|k: int| 0 <= k < secs.len() implies chunk_ok(
        #[trigger] secs[k].0,
        secs[k].1,
    ) by {
        assert(secs[k].0 == ids[k]);
    }
    lemma_round_trip(m, secs);
    lemma_no_character_loss(content);
    assert(secs.map_values(|p: (Seq<char>, Seq<char>)| p.1) =~~= spec_chunks(content));
}

} // verus!
