//! The canonical on-disk text encoding: a front-matter header followed
//! either by one fenced block holding the whole file content, or by a run
//! of identifier-tagged fenced blocks, one per chunk.

use vstd::prelude::*;
use vstd::string::StringExecFns;
use crate::metadata::Metadata;
use crate::metadata::MetadataView;
use crate::metadata::create_markdown_header;
use crate::metadata::nl_seq;
use crate::metadata::spec_header;
use crate::text::cat5;
use crate::text::join_with;

verus! {

/// One parsed or assembled chunk: its identifier and its text.
#[derive(Debug, Clone, PartialEq, Eq)]
pub struct Section {
    /// The chunk's identifier.
    pub uuid: String,
    /// The chunk's text.
    pub content: String,
}

impl View for Section {
    type V = (Seq<char>, Seq<char>);

    open spec fn view(&self) -> (Seq<char>, Seq<char>) {
        (self.uuid@, self.content@)
    }
}

/// The mathematical image of a run of sections: identifier and content
/// pairs, in order.
pub open spec fn sections_view(sections: Seq<Section>) -> Seq<(Seq<char>, Seq<char>)> {
    sections.map_values(|s: Section| s@)
}

/// The text that tags one chunk and fences its content.
pub open spec fn spec_fragment(id: Seq<char>, content: Seq<char>) -> Seq<char> {
    "[UUID:"@ + id + "]\n```\n"@ + content + "\n```\n"@
}

/// The fragments of a run of sections, in order.
pub open spec fn spec_fragments(secs: Seq<(Seq<char>, Seq<char>)>) -> Seq<Seq<char>> {
    secs.map_values(|p: (Seq<char>, Seq<char>)| spec_fragment(p.0, p.1))
}

/// A chunked document: the header, a blank line, then the fragments
/// separated by blank lines.
pub open spec fn spec_assemble_chunked(m: MetadataView, secs: Seq<(Seq<char>, Seq<char>)>) -> Seq<
    char,
> {
    spec_header(m) + nl_seq() + join_with(spec_fragments(secs), nl_seq())
}

/// A whole-content document: the header, a blank line, then one fenced
/// block holding the entire content.
pub open spec fn spec_assemble_whole(m: MetadataView, content: Seq<char>) -> Seq<char> {
    spec_header(m) + "\n```\n"@ + content + "\n```\n"@
}

/// Appending a piece to a joined run appends a separator and the piece
/// (the piece alone when the run was empty).
pub proof fn lemma_join_with_push(pre: Seq<Seq<char>>, x: Seq<char>, sep: Seq<char>)
    ensures
        join_with(pre.push(x), sep) == if pre.len() == 0 {
            x
        } else {
            join_with(pre, sep) + sep + x
        },
    decreases pre.len(),
{
    if pre.len() == 0 {
        assert(pre.push(x) =~~= seq![x]);
    } else if pre.len() == 1 {
        assert(pre.push(x).drop_first() =~~= seq![x]);
        assert(join_with(seq![x], sep) == x);
        assert(join_with(pre.push(x), sep) =~= pre[0] + sep + x);
    } else {
        assert(pre.push(x).drop_first() =~~= pre.drop_first().push(x));
        lemma_join_with_push(pre.drop_first(), x, sep);
        assert(join_with(pre.push(x), sep) =~= join_with(pre, sep) + sep + x);
    }
}

/// The tagged, fenced fragment for one section.
fn build_fragment(s: &Section) -> (r: String)
    ensures
        r@ == spec_fragment(s.uuid@, s.content@),
{
    cat5("[UUID:", s.uuid.as_str(), "]\n```\n", s.content.as_str(), "\n```\n")
}

/// The chunked document for `m` and `sections`: what
/// `spec_assemble_chunked` names, rendered. Pure formatting; chunks are
/// emitted in the order given.
pub fn assemble_chunked(m: &Metadata, sections: &Vec<Section>) -> (r: String)
    ensures
        r@ == spec_assemble_chunked(m@, sections_view(sections@)),
{
    let ghost frags = spec_fragments(sections_view(sections@));
    let mut out = create_markdown_header(m);
    out.append("\n");
    let mut i: usize = 0;
    while i < sections.len()
        invariant
            0 <= i <= sections@.len(),
            frags == spec_fragments(sections_view(sections@)),
            frags.len() == sections@.len(),
            out@ == spec_header(m@) + nl_seq() + join_with(frags.subrange(0, i as int), nl_seq()),
        decreases sections@.len() - i,
    {
        if i > 0 {
            out.append("\n");
        }
        let frag = build_fragment(&sections[i]);
        out.append(frag.as_str());
        proof {
            lemma_join_with_push(frags.subrange(0, i as int), frags[i as int], nl_seq());
            assert(frags.subrange(0, i as int).push(frags[i as int]) =~~= frags.subrange(
                0,
                i + 1,
            ));
            assert(frag@ == frags[i as int]);
            assert(out@ =~= spec_header(m@) + nl_seq() + join_with(
                frags.subrange(0, i + 1),
                nl_seq(),
            ));
        }
        i += 1;
    }
    proof {
        assert(frags.subrange(0, frags.len() as int) =~~= frags);
        assert(out@ =~= spec_assemble_chunked(m@, sections_view(sections@)));
    }
    out
}

/// The whole-content document for `m` and `content`: what
/// `spec_assemble_whole` names, rendered. An empty content yields an empty
/// fenced block.
pub fn assemble_whole(m: &Metadata, content: &str) -> (r: String)
    ensures
        r@ == spec_assemble_whole(m@, content@),
{
    let mut out = create_markdown_header(m);
    out.append("\n```\n");
    out.append(content);
    out.append("\n```\n");
    proof {
        assert(out@ =~= spec_assemble_whole(m@, content@));
    }
    out
}

/// The block that one file contributes to a single aggregated markdown
/// text: a heading with the file's path, then its content in a fenced
/// block.
pub open spec fn spec_file_block(path: Seq<char>, content: Seq<char>) -> Seq<char> {
    "## File: "@ + path + "\n\n```\n"@ + content + "\n```\n"@
}

/// The blocks of many files, in order.
pub open spec fn spec_single_markdown(files: Seq<(Seq<char>, Seq<char>)>) -> Seq<char>
    decreases files.len(),
{
    if files.len() == 0 {
        Seq::empty()
    } else {
        spec_file_block(files[0].0, files[0].1) + spec_single_markdown(files.drop_first())
    }
}

/// Appending a file extends the aggregated text by that file's block.
proof fn lemma_single_markdown_push(pre: Seq<(Seq<char>, Seq<char>)>, x: (Seq<char>, Seq<char>))
    ensures
        spec_single_markdown(pre.push(x)) == spec_single_markdown(pre) + spec_file_block(x.0, x.1),
    decreases pre.len(),
{
    if pre.len() == 0 {
        assert(pre.push(x).drop_first() =~~= Seq::<(Seq<char>, Seq<char>)>::empty());
        assert(spec_single_markdown(Seq::<(Seq<char>, Seq<char>)>::empty()) == Seq::<char>::empty());
        assert(spec_single_markdown(pre.push(x)) =~= spec_single_markdown(pre) + spec_file_block(
            x.0,
            x.1,
        ));
    } else {
        assert(pre.push(x).drop_first() =~~= pre.drop_first().push(x));
        lemma_single_markdown_push(pre.drop_first(), x);
        assert(spec_single_markdown(pre.push(x)) =~= spec_single_markdown(pre) + spec_file_block(
            x.0,
            x.1,
        ));
    }
}

/// One aggregated markdown text for many files, given as path and content
/// pairs, each file rendered as its block, in the order given.
pub fn single_markdown(files: &Vec<(String, String)>) -> (r: String)
    ensures
        r@ == spec_single_markdown(files.deep_view()),
{
    let ghost fv = files.deep_view();
    let mut out = String::new();
    let mut i: usize = 0;
    while i < files.len()
        invariant
            0 <= i <= files@.len(),
            fv == files.deep_view(),
            fv.len() == files@.len(),
            out@ == spec_single_markdown(fv.subrange(0, i as int)),
        decreases files@.len() - i,
    {
        let block = cat5(
            "## File: ",
            files[i].0.as_str(),
            "\n\n```\n",
            files[i].1.as_str(),
            "\n```\n",
        );
        out.append(block.as_str());
        proof {
            lemma_single_markdown_push(fv.subrange(0, i as int), fv[i as int]);
            assert(fv.subrange(0, i as int).push(fv[i as int]) =~~= fv.subrange(0, i + 1));
            assert(out@ =~= spec_single_markdown(fv.subrange(0, i + 1)));
        }
        i += 1;
    }
    proof {
        assert(fv.subrange(0, fv.len() as int) =~~= fv);
    }
    out
}

} // verus!
