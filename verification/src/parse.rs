//! The document parser: recovers the metadata record and the ordered run of
//! tagged chunks from the canonical text encoding. A missing or malformed
//! metadata block is fatal for the document; a malformed chunk fragment is
//! dropped silently and the rest of the document is still parsed.

use vstd::prelude::*;
use crate::assemble::Section;
use crate::assemble::sections_view;
use crate::digits::all_digits;
use crate::digits::digits_val;
use crate::digits::parse_u64;
use crate::metadata::Metadata;
use crate::metadata::MetadataView;
use crate::metadata::nl_seq;
use crate::metadata::sentinel_seq;
use crate::text::chars_of_str;
use crate::text::find_pattern_from;
use crate::text::find_sub_from;
use crate::text::has_prefix;
use crate::text::lemma_find_sub_from_props;
use crate::text::matches_pattern_at;
use crate::text::split_on;
use crate::text::string_of_chars;
use crate::text::subrange_of;
use crate::text::vec_chars_eq;

verus! {

/// Why a document was rejected: its metadata block is absent or does not
/// follow the fixed schema.
#[derive(Debug, Clone, Copy, PartialEq, Eq)]
pub enum ParseError {
    MalformedMetadata,
}

/// One parsed document: its metadata record and its sections, in body
/// order.
#[derive(Debug, Clone, PartialEq, Eq)]
pub struct Document {
    /// The record recovered from the front-matter block.
    pub file_metadata: Metadata,
    /// The identifier and content pairs recovered from the body.
    pub sections: Vec<Section>,
}

impl View for Document {
    type V = (MetadataView, Seq<(Seq<char>, Seq<char>)>);

    open spec fn view(&self) -> (MetadataView, Seq<(Seq<char>, Seq<char>)>) {
        (self.file_metadata@, sections_view(self.sections@))
    }
}

/// The line before the first line break, and what follows that break.
pub open spec fn next_line(s: Seq<char>) -> Option<(Seq<char>, Seq<char>)> {
    match find_sub_from(s, nl_seq(), 0) {
        Some(i) => Some(
            (s.subrange(0, i), s.subrange(i + nl_seq().len() as int, s.len() as int)),
        ),
        None => None,
    }
}

/// What follows the prefix `p` in `s`, when `s` begins with `p`.
pub open spec fn strip_prefix(s: Seq<char>, p: Seq<char>) -> Option<Seq<char>> {
    if has_prefix(s, p) {
        Some(s.subrange(p.len() as int, s.len() as int))
    } else {
        None
    }
}

/// The value of the next line when that line begins with `key`, and the
/// text after the line.
pub open spec fn take_kv(s: Seq<char>, key: Seq<char>) -> Option<(Seq<char>, Seq<char>)> {
    match next_line(s) {
        Some((line, rest)) => match strip_prefix(line, key) {
            Some(v) => Some((v, rest)),
            None => None,
        },
        None => None,
    }
}

/// The metadata record encoded by a front-matter block: eleven lines in the
/// fixed field order, each line its keyword and its verbatim value, and
/// nothing after them. Nothing when the block strays from that schema.
pub open spec fn spec_parse_meta(block: Seq<char>) -> Option<MetadataView> {
    match take_kv(block, "title: "@) {
        None => None,
        Some((title, r1)) => match take_kv(r1, "date: "@) {
            None => None,
            Some((date, r2)) => match next_line(r2) {
                None => None,
                Some((tags_line, r3)) => if tags_line != "tags:"@ {
                    None
                } else {
                    match take_kv(r3, "- "@) {
                        None => None,
                        Some((language, r4)) => match take_kv(r4, "- [UUID:"@) {
                            None => None,
                            Some((idv, r5)) => if idv.len() < 1 || idv[idv.len() - 1] != ']' {
                                None
                            } else {
                                match take_kv(r5, "github: ["@) {
                                    None => None,
                                    Some((gh, r6)) => spec_parse_meta_tail(
                                        title,
                                        date,
                                        language,
                                        idv.subrange(0, idv.len() - 1),
                                        gh,
                                        r6,
                                    ),
                                }
                            },
                        },
                    }
                },
            },
        },
    }
}

/// The rest of the schema, from the remote link onward.
pub open spec fn spec_parse_meta_tail(
    title: Seq<char>,
    date: Seq<char>,
    language: Seq<char>,
    file_id: Seq<char>,
    gh: Seq<char>,
    r6: Seq<char>,
) -> Option<MetadataView> {
    match find_sub_from(gh, "]("@, 0) {
        None => None,
        Some(j) => {
            let github_name = gh.subrange(0, j);
            let after = gh.subrange(j + "]("@.len() as int, gh.len() as int);
            if after.len() < 1 || after[after.len() - 1] != ')' {
                None
            } else {
                let github_url = after.subrange(0, after.len() - 1);
                match take_kv(r6, "contributors: "@) {
                    None => None,
                    Some((contributors, r7)) => match take_kv(r7, "latest_release: "@) {
                        None => None,
                        Some((latest_release, r8)) => match take_kv(r8, "release_date: "@) {
                            None => None,
                            Some((release_date, r9)) => match take_kv(r9, "path: "@) {
                                None => None,
                                Some((path, r10)) => match take_kv(r10, "size: "@) {
                                    None => None,
                                    Some((sv, r11)) => if r11.len() != 0 || sv.len() == 0
                                        || !all_digits(sv) || digits_val(sv) > u64::MAX {
                                        None
                                    } else {
                                        Some(
                                            MetadataView {
                                                title,
                                                date,
                                                language,
                                                file_id,
                                                github_name,
                                                github_url,
                                                contributors,
                                                latest_release,
                                                release_date,
                                                path,
                                                size: digits_val(sv),
                                            },
                                        )
                                    },
                                },
                            },
                        },
                    },
                }
            }
        },
    }
}

/// The separator on which a document body is split into chunk fragments.
pub open spec fn sep_seq() -> Seq<char> {
    "\n[UUID:"@
}

/// The text that closes a fragment's identifier and opens its fence.
pub open spec fn rsep_seq() -> Seq<char> {
    "]\n"@
}

/// The text that opens a fenced block.
pub open spec fn fence_open_seq() -> Seq<char> {
    "```\n"@
}

/// The text that closes a fenced block.
pub open spec fn fence_close_seq() -> Seq<char> {
    "\n```\n"@
}

/// `s` ends with `pat`.
pub open spec fn ends_with(s: Seq<char>, pat: Seq<char>) -> bool {
    pat.len() <= s.len() && s.subrange(s.len() - pat.len(), s.len() as int) == pat
}

/// The identifier and content of one body fragment: exactly one identifier
/// segment and one fenced content segment. Nothing when the fragment does
/// not split into exactly those two parts; such a fragment is dropped.
pub open spec fn parse_piece(p: Seq<char>) -> Option<(Seq<char>, Seq<char>)> {
    let parts = split_on(p, rsep_seq());
    if parts.len() == 2 {
        let id = parts[0];
        let rest = parts[1];
        if rest.len() >= fence_open_seq().len() + fence_close_seq().len() && has_prefix(
            rest,
            fence_open_seq(),
        ) && ends_with(rest, fence_close_seq()) {
            Some(
                (
                    id,
                    rest.subrange(
                        fence_open_seq().len() as int,
                        rest.len() - fence_close_seq().len(),
                    ),
                ),
            )
        } else {
            None
        }
    } else {
        None
    }
}

/// The identifier and content pairs of a run of fragments, in order;
/// fragments that do not parse are dropped.
pub open spec fn collect_pieces(pieces: Seq<Seq<char>>) -> Seq<(Seq<char>, Seq<char>)>
    decreases pieces.len(),
{
    if pieces.len() == 0 {
        Seq::empty()
    } else {
        match parse_piece(pieces[0]) {
            Some(pr) => seq![pr] + collect_pieces(pieces.drop_first()),
            None => collect_pieces(pieces.drop_first()),
        }
    }
}

/// The sections encoded by a document body: the body is split on the chunk
/// tag pattern and each fragment parsed.
pub open spec fn spec_parse_body(body: Seq<char>) -> Seq<(Seq<char>, Seq<char>)> {
    collect_pieces(split_on(body, sep_seq()))
}

/// The record and sections encoded by a document: the metadata block lies
/// between the first and second sentinel occurrences and must follow the
/// schema; everything after the second occurrence is the body. Nothing when
/// a sentinel is missing or the block is malformed.
pub open spec fn spec_parse(doc: Seq<char>) -> Option<
    (MetadataView, Seq<(Seq<char>, Seq<char>)>),
> {
    match find_sub_from(doc, sentinel_seq(), 0) {
        None => None,
        Some(i1) => match find_sub_from(doc, sentinel_seq(), i1 + sentinel_seq().len() as int) {
            None => None,
            Some(i2) => {
                let block = doc.subrange(i1 + sentinel_seq().len() as int, i2);
                let body = doc.subrange(i2 + sentinel_seq().len() as int, doc.len() as int);
                match spec_parse_meta(block) {
                    None => None,
                    Some(m) => Some((m, spec_parse_body(body))),
                }
            },
        },
    }
}

/// The next line of `s` and what follows it: what `next_line` names,
/// computed.
fn take_line(s: &Vec<char>) -> (r: Option<(Vec<char>, Vec<char>)>)
    ensures
        match r {
            Some(pair) => next_line(s@) == Some((pair.0@, pair.1@)),
            None => next_line(s@) is None,
        },
{
    let nl = chars_of_str("\n");
    proof {
        reveal_strlit("\n");
    }
    match find_pattern_from(s, &nl, 0) {
        None => None,
        Some(i) => {
            let slen = s.len();
            proof {
                lemma_find_sub_from_props(s@, nl@, 0);
                assert(i + nl@.len() <= slen);
            }
            let line = subrange_of(s, 0, i);
            let rest = subrange_of(s, i + nl.len(), slen);
            Some((line, rest))
        },
    }
}

/// The value of the next line of `s` when that line begins with `key`, and
/// the text after the line: what `take_kv` names, computed.
fn take_kv_line(s: &Vec<char>, key: &Vec<char>) -> (r: Option<(Vec<char>, Vec<char>)>)
    ensures
        match r {
            Some(pair) => take_kv(s@, key@) == Some((pair.0@, pair.1@)),
            None => take_kv(s@, key@) is None,
        },
{
    match take_line(s) {
        None => None,
        Some((line, rest)) => {
            if key.len() <= line.len() && matches_pattern_at(&line, key, 0) {
                let v = subrange_of(&line, key.len(), line.len());
                proof {
                    assert(has_prefix(line@, key@));
                }
                Some((v, rest))
            } else {
                proof {
                    assert(!has_prefix(line@, key@));
                }
                None
            }
        },
    }
}

/// A run of fragments always splits into at least one part.
proof fn lemma_split_on_len(s: Seq<char>, sep: Seq<char>)
    ensures
        split_on(s, sep).len() >= 1,
{
}

/// The metadata record encoded by a front-matter block: what
/// `spec_parse_meta` names, computed. Nothing when the block strays from
/// the fixed schema.
#[verifier::rlimit(60)]
pub fn parse_meta(block: &Vec<char>) -> (r: Option<Metadata>)
    ensures
        match r {
            Some(m) => spec_parse_meta(block@) == Some(m@),
            None => spec_parse_meta(block@) is None,
        },
{
    let key_title = chars_of_str("title: ");
    let (title_v, r1) = match take_kv_line(block, &key_title) {
        Some(p) => p,
        None => {
            return None;
        },
    };
    let key_date = chars_of_str("date: ");
    let (date_v, r2) = match take_kv_line(&r1, &key_date) {
        Some(p) => p,
        None => {
            return None;
        },
    };
    let tags_word = chars_of_str("tags:");
    let (tags_line, r3) = match take_line(&r2) {
        Some(p) => p,
        None => {
            return None;
        },
    };
    if !vec_chars_eq(&tags_line, &tags_word) {
        return None;
    }
    let key_lang = chars_of_str("- ");
    let (lang_v, r4) = match take_kv_line(&r3, &key_lang) {
        Some(p) => p,
        None => {
            return None;
        },
    };
    let key_id = chars_of_str("- [UUID:");
    let (idv, r5) = match take_kv_line(&r4, &key_id) {
        Some(p) => p,
        None => {
            return None;
        },
    };
    if idv.len() < 1 || idv[idv.len() - 1] != ']' {
        return None;
    }
    let file_id_v = subrange_of(&idv, 0, idv.len() - 1);
    let key_gh = chars_of_str("github: [");
    let (gh, r6) = match take_kv_line(&r5, &key_gh) {
        Some(p) => p,
        None => {
            return None;
        },
    };
    let bp = chars_of_str("](");
    proof {
        reveal_strlit("](");
    }
    let j = match find_pattern_from(&gh, &bp, 0) {
        Some(j) => j,
        None => {
            return None;
        },
    };
    proof {
        lemma_find_sub_from_props(gh@, bp@, 0);
    }
    let ghlen = gh.len();
    let name_v = subrange_of(&gh, 0, j);
    let after = subrange_of(&gh, j + bp.len(), ghlen);
    if after.len() < 1 || after[after.len() - 1] != ')' {
        return None;
    }
    let url_v = subrange_of(&after, 0, after.len() - 1);
    let key_contrib = chars_of_str("contributors: ");
    let (contrib_v, r7) = match take_kv_line(&r6, &key_contrib) {
        Some(p) => p,
        None => {
            return None;
        },
    };
    let key_rel = chars_of_str("latest_release: ");
    let (rel_v, r8) = match take_kv_line(&r7, &key_rel) {
        Some(p) => p,
        None => {
            return None;
        },
    };
    let key_reldate = chars_of_str("release_date: ");
    let (reldate_v, r9) = match take_kv_line(&r8, &key_reldate) {
        Some(p) => p,
        None => {
            return None;
        },
    };
    let key_path = chars_of_str("path: ");
    let (path_v, r10) = match take_kv_line(&r9, &key_path) {
        Some(p) => p,
        None => {
            return None;
        },
    };
    let key_size = chars_of_str("size: ");
    let (sv, r11) = match take_kv_line(&r10, &key_size) {
        Some(p) => p,
        None => {
            return None;
        },
    };
    if r11.len() != 0 {
        return None;
    }
    let size = match parse_u64(&sv) {
        Some(v) => v,
        None => {
            return None;
        },
    };
    let m = Metadata {
        title: string_of_chars(&title_v),
        date: string_of_chars(&date_v),
        language: string_of_chars(&lang_v),
        file_id: string_of_chars(&file_id_v),
        github_name: string_of_chars(&name_v),
        github_url: string_of_chars(&url_v),
        contributors: string_of_chars(&contrib_v),
        latest_release: string_of_chars(&rel_v),
        release_date: string_of_chars(&reldate_v),
        path: string_of_chars(&path_v),
        size,
    };
    Some(m)
}

/// The identifier and content of one body fragment: what `parse_piece`
/// names, computed. Nothing when the fragment is malformed.
fn parse_piece_vec(p: &Vec<char>) -> (r: Option<Section>)
    ensures
        match r {
            Some(s) => parse_piece(p@) == Some(s@),
            None => parse_piece(p@) is None,
        },
{
    let rsep = chars_of_str("]\n");
    proof {
        reveal_strlit("]\n");
    }
    let j = match find_pattern_from(p, &rsep, 0) {
        Some(j) => j,
        None => {
            proof {
                assert(split_on(p@, rsep_seq()) == seq![p@]);
            }
            return None;
        },
    };
    proof {
        lemma_find_sub_from_props(p@, rsep@, 0);
    }
    let plen = p.len();
    let id = subrange_of(p, 0, j);
    let rest = subrange_of(p, j + rsep.len(), plen);
    proof {
        assert(split_on(p@, rsep_seq()) == seq![id@] + split_on(rest@, rsep_seq()));
    }
    match find_pattern_from(&rest, &rsep, 0) {
        Some(_) => {
            proof {
                let inner = split_on(rest@, rsep_seq());
                let k = find_sub_from(rest@, rsep_seq(), 0)->Some_0;
                lemma_split_on_len(
                    rest@.subrange(k + rsep_seq().len() as int, rest@.len() as int),
                    rsep_seq(),
                );
                assert(inner.len() >= 2);
                assert(split_on(p@, rsep_seq()).len() >= 3);
            }
            None
        },
        None => {
            proof {
                assert(split_on(rest@, rsep_seq()) == seq![rest@]);
                assert(split_on(p@, rsep_seq()) =~~= seq![id@, rest@]);
            }
            let fo = chars_of_str("```\n");
            let fc = chars_of_str("\n```\n");
            proof {
                reveal_strlit("```\n");
                reveal_strlit("\n```\n");
            }
            if rest.len() >= fo.len() + fc.len() && matches_pattern_at(&rest, &fo, 0)
                && matches_pattern_at(&rest, &fc, rest.len() - fc.len()) {
                let content = subrange_of(&rest, fo.len(), rest.len() - fc.len());
                proof {
                    assert(has_prefix(rest@, fence_open_seq()));
                    assert(ends_with(rest@, fence_close_seq()));
                }
                Some(Section { uuid: string_of_chars(&id), content: string_of_chars(&content) })
            } else {
                proof {
                    if rest@.len() >= fence_open_seq().len() + fence_close_seq().len() {
                        assert(parse_piece(p@) is None);
                    }
                }
                None
            }
        },
    }
}

/// The sections encoded by a run of fragments, dropped or parsed in order:
/// what `collect_pieces` over the split names, computed.
fn parse_sections(r: &Vec<char>) -> (out: Vec<Section>)
    ensures
        sections_view(out@) == collect_pieces(split_on(r@, sep_seq())),
    decreases r@.len(),
{
    let sep = chars_of_str("\n[UUID:");
    proof {
        reveal_strlit("\n[UUID:");
    }
    match find_pattern_from(r, &sep, 0) {
        None => {
            let mut out: Vec<Section> = Vec::new();
            match parse_piece_vec(r) {
                Some(s) => {
                    out.push(s);
                },
                None => {},
            }
            proof {
                assert(split_on(r@, sep_seq()) == seq![r@]);
                assert(seq![r@].drop_first() =~~= Seq::<Seq<char>>::empty());
                assert(collect_pieces(Seq::<Seq<char>>::empty()) =~~= Seq::<
                    (Seq<char>, Seq<char>),
                >::empty());
                assert(sections_view(out@) =~~= collect_pieces(split_on(r@, sep_seq())));
            }
            out
        },
        Some(i) => {
            proof {
                lemma_find_sub_from_props(r@, sep@, 0);
            }
            let rlen = r.len();
            let piece = subrange_of(r, 0, i);
            let rest = subrange_of(r, i + sep.len(), rlen);
            let mut out: Vec<Section> = Vec::new();
            match parse_piece_vec(&piece) {
                Some(s) => {
                    out.push(s);
                },
                None => {},
            }
            let mut more = parse_sections(&rest);
            let ghost out_head = out@;
            out.append(&mut more);
            proof {
                let parts = split_on(r@, sep_seq());
                assert(parts == seq![piece@] + split_on(rest@, sep_seq()));
                assert(parts[0] == piece@);
                assert(parts.drop_first() =~~= split_on(rest@, sep_seq()));
                assert(sections_view(out@) =~~= collect_pieces(parts));
            }
            out
        },
    }
}

/// The record and sections encoded by `text`: what `spec_parse` names,
/// computed. A document with no metadata block, or one whose block strays
/// from the schema, is rejected whole; a malformed chunk fragment is
/// dropped without failing the document.
pub fn parse_document(text: &str) -> (r: Result<Document, ParseError>)
    ensures
        match r {
            Ok(d) => spec_parse(text@) == Some(d@),
            Err(e) => spec_parse(text@) is None && e == ParseError::MalformedMetadata,
        },
{
    let chars = chars_of_str(text);
    let sent = chars_of_str("---\n");
    proof {
        reveal_strlit("---\n");
    }
    let i1 = match find_pattern_from(&chars, &sent, 0) {
        Some(i) => i,
        None => {
            return Err(ParseError::MalformedMetadata);
        },
    };
    let clen = chars.len();
    proof {
        lemma_find_sub_from_props(chars@, sent@, 0);
        assert(i1 + sent@.len() <= clen);
    }
    let i2 = match find_pattern_from(&chars, &sent, i1 + sent.len()) {
        Some(i) => i,
        None => {
            return Err(ParseError::MalformedMetadata);
        },
    };
    proof {
        lemma_find_sub_from_props(chars@, sent@, i1 + sent@.len() as int);
    }
    let block = subrange_of(&chars, i1 + sent.len(), i2);
    let body = subrange_of(&chars, i2 + sent.len(), clen);
    let meta = match parse_meta(&block) {
        Some(m) => m,
        None => {
            return Err(ParseError::MalformedMetadata);
        },
    };
    let sections = parse_sections(&body);
    Ok(Document { file_metadata: meta, sections })
}

/// One ingestion step: an empty file is skipped silently; any other file is
/// parsed as a document.
pub fn ingest_file(content: &str) -> (r: Result<Option<Document>, ParseError>)
    ensures
        match r {
            Ok(opt) => match opt {
                None => content@.len() == 0,
                Some(d) => content@.len() > 0 && spec_parse(content@) == Some(d@),
            },
            Err(_) => content@.len() > 0 && spec_parse(content@) is None,
        },
{
    if content.is_empty() {
        Ok(None)
    } else {
        match parse_document(content) {
            Ok(d) => Ok(Some(d)),
            Err(e) => Err(e),
        }
    }
}

} // verus!
