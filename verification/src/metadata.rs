//! The metadata record that heads every generated document, and the
//! rendering of that record as a front-matter block between sentinel lines.

use vstd::prelude::*;
use vstd::string::StringExecFns;
use crate::digits::dec_digits;
use crate::digits::format_u64;
use crate::text::cat2;
use crate::text::cat3;
use crate::text::cat5;
use crate::text::contains_sub;
use crate::text::string_of_chars;

verus! {

/// The attributes of one source file, as they appear in a document's
/// front matter. Absent facts are carried as empty strings or the
/// placeholder texts the composer's callers supply ("No Release", "N/A");
/// no field is optional in the encoded form.
#[derive(Debug, Clone, PartialEq, Eq)]
pub struct Metadata {
    /// Repository name and file name, joined as one title.
    pub title: String,
    /// Generation timestamp.
    pub date: String,
    /// Language tag for the file's extension.
    pub language: String,
    /// The file's identifier.
    pub file_id: String,
    /// Display text of the remote link.
    pub github_name: String,
    /// Remote browsing address.
    pub github_url: String,
    /// Contributor summary.
    pub contributors: String,
    /// Name of the latest release.
    pub latest_release: String,
    /// Timestamp of the latest release.
    pub release_date: String,
    /// The file's path relative to the repository root.
    pub path: String,
    /// The file's byte size.
    pub size: u64,
}

/// The mathematical image of a metadata record: each text field a sequence
/// of codepoints, the size an integer.
pub struct MetadataView {
    pub title: Seq<char>,
    pub date: Seq<char>,
    pub language: Seq<char>,
    pub file_id: Seq<char>,
    pub github_name: Seq<char>,
    pub github_url: Seq<char>,
    pub contributors: Seq<char>,
    pub latest_release: Seq<char>,
    pub release_date: Seq<char>,
    pub path: Seq<char>,
    pub size: int,
}

impl View for Metadata {
    type V = MetadataView;

    open spec fn view(&self) -> MetadataView {
        MetadataView {
            title: self.title@,
            date: self.date@,
            language: self.language@,
            file_id: self.file_id@,
            github_name: self.github_name@,
            github_url: self.github_url@,
            contributors: self.contributors@,
            latest_release: self.latest_release@,
            release_date: self.release_date@,
            path: self.path@,
            size: self.size as int,
        }
    }
}

/// The sentinel line that opens and closes a front-matter block.
pub open spec fn sentinel_seq() -> Seq<char> {
    "---\n"@
}

/// A line break.
pub open spec fn nl_seq() -> Seq<char> {
    "\n"@
}

/// The lines of the front-matter block, in their fixed order.
pub open spec fn spec_meta_lines(m: MetadataView) -> Seq<Seq<char>> {
    seq![
        "title: "@ + m.title,
        "date: "@ + m.date,
        "tags:"@,
        "- "@ + m.language,
        "- [UUID:"@ + m.file_id + "]"@,
        "github: ["@ + m.github_name + "]("@ + m.github_url + ")"@,
        "contributors: "@ + m.contributors,
        "latest_release: "@ + m.latest_release,
        "release_date: "@ + m.release_date,
        "path: "@ + m.path,
        "size: "@ + dec_digits(m.size),
    ]
}

/// A run of lines as text: every line followed by a line break.
pub open spec fn lines_text(lines: Seq<Seq<char>>) -> Seq<char>
    decreases lines.len(),
{
    if lines.len() == 0 {
        Seq::empty()
    } else {
        lines[0] + nl_seq() + lines_text(lines.drop_first())
    }
}

/// Appending one line extends the text by that line and a break.
pub proof fn lemma_lines_text_push(pre: Seq<Seq<char>>, x: Seq<char>)
    ensures
        lines_text(pre.push(x)) == lines_text(pre) + x + nl_seq(),
    decreases pre.len(),
{
    if pre.len() == 0 {
        assert(pre.push(x).drop_first() =~= Seq::<Seq<char>>::empty());
        assert(lines_text(pre.push(x).drop_first()) =~= Seq::<char>::empty());
        assert(lines_text(pre.push(x)) =~= lines_text(pre) + x + nl_seq());
    } else {
        assert(pre.push(x).drop_first() =~= pre.drop_first().push(x));
        lemma_lines_text_push(pre.drop_first(), x);
        assert(lines_text(pre.push(x)) =~= lines_text(pre) + x + nl_seq());
    }
}

/// The text between the two sentinel lines: every line of the block
/// followed by a line break.
pub open spec fn spec_meta_block(m: MetadataView) -> Seq<char> {
    lines_text(spec_meta_lines(m))
}

/// The whole front-matter header: the block between its sentinel lines.
pub open spec fn spec_header(m: MetadataView) -> Seq<char> {
    sentinel_seq() + spec_meta_block(m) + sentinel_seq()
}

/// No line break anywhere in `s`.
pub open spec fn no_nl(s: Seq<char>) -> bool {
    forall|i: int| 0 <= i < s.len() ==> s[i] != '\n'
}

/// A record the front-matter encoding can carry faithfully: no field breaks
/// the line structure, the link's display text does not imitate the link
/// delimiter, and no line of the rendered block imitates the sentinel.
pub open spec fn meta_wf(m: MetadataView) -> bool {
    &&& no_nl(m.title)
    &&& no_nl(m.date)
    &&& no_nl(m.language)
    &&& no_nl(m.file_id)
    &&& no_nl(m.github_name)
    &&& no_nl(m.github_url)
    &&& no_nl(m.contributors)
    &&& no_nl(m.latest_release)
    &&& no_nl(m.release_date)
    &&& no_nl(m.path)
    &&& !contains_sub(m.github_name, "]("@)
    &&& 0 <= m.size <= u64::MAX
    &&& !contains_sub(spec_meta_block(m), sentinel_seq())
}

/// The front-matter header for `m`: what `spec_header` names, rendered.
/// Every field value is inserted verbatim.
pub fn create_markdown_header(m: &Metadata) -> (r: String)
    ensures
        r@ == spec_header(m@),
{
    let ghost l = spec_meta_lines(m@);
    let size_text = string_of_chars(&format_u64(m.size));
    let mut lines: Vec<String> = Vec::new();
    lines.push(cat2("title: ", m.title.as_str()));
    lines.push(cat2("date: ", m.date.as_str()));
    lines.push(String::from_str("tags:"));
    lines.push(cat2("- ", m.language.as_str()));
    lines.push(cat3("- [UUID:", m.file_id.as_str(), "]"));
    lines.push(cat5("github: [", m.github_name.as_str(), "](", m.github_url.as_str(), ")"));
    lines.push(cat2("contributors: ", m.contributors.as_str()));
    lines.push(cat2("latest_release: ", m.latest_release.as_str()));
    lines.push(cat2("release_date: ", m.release_date.as_str()));
    lines.push(cat2("path: ", m.path.as_str()));
    lines.push(cat2("size: ", size_text.as_str()));
    proof {
        assert(lines.deep_view() =~~= l);
    }
    let mut out = String::new();
    out.append("---\n");
    proof {
        assert(out@ =~= sentinel_seq() + lines_text(l.subrange(0, 0)));
    }
    let mut i: usize = 0;
    while i < lines.len()
        invariant
            0 <= i <= lines@.len(),
            lines.deep_view() == l,
            l.len() == 11,
            out@ == sentinel_seq() + lines_text(l.subrange(0, i as int)),
        decreases lines@.len() - i,
    {
        out.append(lines[i].as_str());
        out.append("\n");
        proof {
            lemma_lines_text_push(l.subrange(0, i as int), l[i as int]);
            assert(l.subrange(0, i as int).push(l[i as int]) =~= l.subrange(0, i + 1));
            assert(lines@[i as int]@ == l[i as int]);
            assert(out@ =~= sentinel_seq() + lines_text(l.subrange(0, i + 1)));
        }
        i += 1;
    }
    proof {
        assert(l.subrange(0, 11) =~= l);
    }
    out.append("---\n");
    proof {
        assert(out@ =~= spec_header(m@));
    }
    out
}

} // verus!
