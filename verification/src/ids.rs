//! Identifier generation and the chunked-document pipeline: every file and
//! every chunk is tagged with a fresh randomized identifier in canonical
//! hyphenated hexadecimal form.

use vstd::prelude::*;
use crate::assemble::Section;
use crate::assemble::assemble_chunked;
use crate::assemble::sections_view;
use crate::assemble::spec_assemble_chunked;
use crate::chunker::chunk;
use crate::chunker::spec_chunks;
use crate::metadata::Metadata;
use crate::metadata::no_nl;
use crate::text::chars_of_str;
use crate::text::string_of_chars;

verus! {

/// A lowercase hexadecimal digit.
pub open spec fn is_lower_hex_char(c: char) -> bool {
    ('0' <= c && c <= '9') || ('a' <= c && c <= 'f')
}

/// An identifier in canonical hyphenated form: thirty-six characters,
/// hyphens at the four fixed positions, lowercase hexadecimal digits
/// everywhere else.
pub open spec fn id_wf(s: Seq<char>) -> bool {
    &&& s.len() == 36
    &&& forall|i: int|
        0 <= i < 36 ==> (if i == 8 || i == 13 || i == 18 || i == 23 {
            s[i] == '-'
        } else {
            is_lower_hex_char(#[trigger] s[i])
        })
}

/// A well-formed identifier holds no line break.
pub proof fn lemma_id_wf_no_nl(s: Seq<char>)
    requires
        id_wf(s),
    ensures
        no_nl(s),
{
    assert forall|i: int| 0 <= i < s.len() implies s[i] != '\n' by {
        if i == 8 || i == 13 || i == 18 || i == 23 {
        } else {
            assert(is_lower_hex_char(s[i]));
        }
    }
}

/// Relies on `uuid::Uuid::new_v4` and its `Hyphenated` rendering: a fresh
/// randomized 128-bit value written as five groups of lowercase
/// hexadecimal digits separated by hyphens, thirty-six characters in all.
/// The value is random, so only the shape is promised.
#[verifier::external_body]
fn new_id() -> (r: String)
    ensures
        id_wf(r@),
{
    uuid::Uuid::new_v4().hyphenated().to_string()
}

/// The texts of the chunks of `content`, in order: the chunker's segments,
/// one string each.
pub fn chunk_string(content: &str) -> (r: Vec<String>)
    ensures
        r.deep_view() == spec_chunks(content@),
{
    let chars = chars_of_str(content);
    let pieces = chunk(&chars);
    let mut r: Vec<String> = Vec::new();
    let mut i: usize = 0;
    while i < pieces.len()
        invariant
            0 <= i <= pieces@.len(),
            pieces.deep_view() == spec_chunks(content@),
            pieces@.len() == spec_chunks(content@).len(),
            r.deep_view() =~~= spec_chunks(content@).subrange(0, i as int),
        decreases pieces@.len() - i,
    {
        let s = string_of_chars(&pieces[i]);
        let ghost old_dv = r.deep_view();
        r.push(s);
        proof {
            assert(r.deep_view() =~~= old_dv.push(s@));
            assert(pieces@[i as int]@ == pieces.deep_view()[i as int]);
            assert(r.deep_view() =~~= spec_chunks(content@).subrange(0, i + 1));
        }
        i += 1;
    }
    proof {
        assert(spec_chunks(content@).subrange(0, spec_chunks(content@).len() as int) =~~= spec_chunks(
            content@,
        ));
    }
    r
}

/// Each chunk text paired with a fresh identifier, in order. The
/// identifiers are random; each is promised only to have the canonical
/// shape.
pub fn make_sections(chunks: Vec<String>) -> (r: Vec<Section>)
    ensures
        r@.len() == chunks@.len(),
        forall|k: int|
            0 <= k < r@.len() ==> (#[trigger] r@[k]).content@ == chunks@[k]@ && id_wf(r@[k].uuid@)
                && no_nl(r@[k].uuid@),
{
    let mut r: Vec<Section> = Vec::new();
    let mut i: usize = 0;
    while i < chunks.len()
        invariant
            0 <= i <= chunks@.len(),
            r@.len() == i,
            forall|k: int|
                0 <= k < i ==> (#[trigger] r@[k]).content@ == chunks@[k]@ && id_wf(r@[k].uuid@)
                    && no_nl(r@[k].uuid@),
        decreases chunks@.len() - i,
    {
        let uuid = new_id();
        proof {
            lemma_id_wf_no_nl(uuid@);
        }
        let content = chunks[i].clone();
        r.push(Section { uuid, content });
        i += 1;
    }
    r
}

/// One chunked document for a file: the content is chunked, every chunk is
/// tagged with a fresh identifier, and the document text is assembled from
/// the header and the tagged chunks, which are also returned.
pub fn build_chunked_document(m: &Metadata, content: &str) -> (r: (String, Vec<Section>))
    ensures
        r.0@ == spec_assemble_chunked(m@, sections_view(r.1@)),
        r.1@.len() == spec_chunks(content@).len(),
        forall|k: int|
            0 <= k < r.1@.len() ==> (#[trigger] r.1@[k]).content@ == spec_chunks(content@)[k]
                && id_wf(r.1@[k].uuid@),
{
    let chunks = chunk_string(content);
    proof {
        assert(chunks@.len() == chunks.deep_view().len());
    }
    let sections = make_sections(chunks);
    let text = assemble_chunked(m, &sections);
    (text, sections)
}

} // verus!
