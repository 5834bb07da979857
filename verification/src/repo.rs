//! Facts about a repository and its files, derived from plain values: the
//! details prompted from a URL, the remote browsing address of a file, the
//! name of its output document, the skip rules for paths, and the explicit
//! defaults for absent release facts.

use vstd::prelude::*;
use vstd::string::StringExecFns;
use crate::text::cat2;
use crate::text::cat3;
use crate::text::cat5;
use crate::text::chars_of_str;
use crate::text::contains_sub;
use crate::text::find_pattern_from;
use crate::text::has_prefix;
use crate::text::lemma_find_sub_from_props;
use crate::text::vec_chars_eq;

verus! {

/// Where a repository lives and where its markdown goes.
#[derive(Debug, Clone, PartialEq, Eq)]
pub struct RepositoryDetails {
    /// The remote address the repository is fetched from.
    pub url: String,
    /// The repository's name: the last segment of the address.
    pub name: String,
    /// The local working copy, under the repositories directory.
    pub local_path: String,
    /// The aggregated markdown file, under the markdown directory.
    pub markdown_output: String,
}

/// The position of the last slash of `s`.
pub open spec fn find_last_slash(s: Seq<char>) -> Option<int>
    decreases s.len(),
{
    if s.len() == 0 {
        None
    } else if s[s.len() - 1] == '/' {
        Some(s.len() - 1)
    } else {
        find_last_slash(s.drop_last())
    }
}

/// What follows the last slash of `s`; the whole of `s` when it has none.
pub open spec fn last_segment(s: Seq<char>) -> Seq<char> {
    match find_last_slash(s) {
        Some(i) => s.subrange(i + 1, s.len() as int),
        None => s,
    }
}

/// The position after the last slash of `s`, or zero: a scan from the end.
fn scan_last_slash(s: &Vec<char>) -> (r: Option<usize>)
    ensures
        match r {
            Some(i) => find_last_slash(s@) == Some(i as int) && i < s@.len(),
            None => find_last_slash(s@) is None,
        },
{
    proof {
        assert(s@.subrange(0, s@.len() as int) =~= s@);
    }
    let mut j: usize = s.len();
    while j > 0
        invariant
            0 <= j <= s@.len(),
            find_last_slash(s@) == find_last_slash(s@.subrange(0, j as int)),
        decreases j,
    {
        proof {
            assert(s@.subrange(0, j as int).drop_last() =~= s@.subrange(0, j - 1));
            assert(s@.subrange(0, j as int)[j - 1] == s@[j - 1]);
        }
        if s[j - 1] == '/' {
            return Some(j - 1);
        }
        j -= 1;
    }
    proof {
        assert(s@.subrange(0, 0).len() == 0);
    }
    None
}

/// The details derived from a repository address: its name is the last
/// segment of the address, its working copy lives under `repositories`,
/// and its aggregated markdown under `markdown` with an `.md` suffix.
pub fn repo_details_from_url(repo_url: &str) -> (r: RepositoryDetails)
    ensures
        r.url@ == repo_url@,
        r.name@ == last_segment(repo_url@),
        r.local_path@ == "repositories/"@ + last_segment(repo_url@),
        r.markdown_output@ == "markdown/"@ + last_segment(repo_url@) + ".md"@,
{
    let chars = chars_of_str(repo_url);
    let n = chars.len();
    let name = match scan_last_slash(&chars) {
        Some(i) => {
            proof {
                assert(i < n);
            }
            let tail = crate::text::subrange_of(&chars, i + 1, n);
            crate::text::string_of_chars(&tail)
        },
        None => {
            let mut s = String::new();
            s.append(repo_url);
            proof {
                assert(s@ =~= repo_url@);
            }
            s
        },
    };
    let mut url = String::new();
    url.append(repo_url);
    proof {
        assert(url@ =~= repo_url@);
    }
    let local_path = cat2("repositories/", name.as_str());
    let markdown_output = cat3("markdown/", name.as_str(), ".md");
    RepositoryDetails { url, name, local_path, markdown_output }
}

/// The remote browsing address of one file: the repository address, the
/// branch, and the file's relative path, joined in the blob form.
pub fn construct_github_url(repo_url: &str, default_branch: &str, relative_path: &str) -> (r:
    String)
    ensures
        r@ == repo_url@ + "/blob/"@ + default_branch@ + "/"@ + relative_path@,
{
    cat5(repo_url, "/blob/", default_branch, "/", relative_path)
}

/// The name of the document written for one file: its relative path with
/// the markdown suffix appended.
pub fn get_output_file_name(relative_path: &str) -> (r: String)
    ensures
        r@ == relative_path@ + ".md"@,
{
    cat2(relative_path, ".md")
}

/// An extension carried by binary assets rather than source text.
pub open spec fn is_binary_ext(e: Seq<char>) -> bool {
    ||| e == "png"@
    ||| e == "jpg"@
    ||| e == "jpeg"@
    ||| e == "gif"@
    ||| e == "ico"@
    ||| e == "bin"@
    ||| e == "exe"@
    ||| e == "dll"@
    ||| e == "so"@
    ||| e == "dylib"@
}

/// Whether a file is left out of processing: hidden files, anything under
/// the version-control directory, and binary extensions are skipped.
pub fn is_ignored(file_name: &str, path: &str, extension: &str) -> (r: bool)
    ensures
        r == (has_prefix(file_name@, "."@) || contains_sub(path@, "/.git/"@) || is_binary_ext(
            extension@,
        )),
{
    proof {
        reveal_strlit(".");
    }
    let name_chars = chars_of_str(file_name);
    let hidden = name_chars.len() > 0 && name_chars[0] == '.';
    proof {
        if hidden {
            assert(has_prefix(file_name@, "."@)) by {
                assert(file_name@.subrange(0, 1) =~= "."@);
            }
        } else {
            if has_prefix(file_name@, "."@) {
                assert(file_name@.subrange(0, 1)[0] == file_name@[0]);
            }
        }
    }
    let path_chars = chars_of_str(path);
    let git_pat = chars_of_str("/.git/");
    proof {
        reveal_strlit("/.git/");
    }
    let in_git = match find_pattern_from(&path_chars, &git_pat, 0) {
        Some(i) => {
            proof {
                lemma_find_sub_from_props(path@, git_pat@, 0);
            }
            true
        },
        None => {
            proof {
                lemma_find_sub_from_props(path@, git_pat@, 0);
            }
            false
        },
    };
    let ext_chars = chars_of_str(extension);
    let binary = vec_chars_eq(&ext_chars, &chars_of_str("png")) || vec_chars_eq(
        &ext_chars,
        &chars_of_str("jpg"),
    ) || vec_chars_eq(&ext_chars, &chars_of_str("jpeg")) || vec_chars_eq(
        &ext_chars,
        &chars_of_str("gif"),
    ) || vec_chars_eq(&ext_chars, &chars_of_str("ico")) || vec_chars_eq(
        &ext_chars,
        &chars_of_str("bin"),
    ) || vec_chars_eq(&ext_chars, &chars_of_str("exe")) || vec_chars_eq(
        &ext_chars,
        &chars_of_str("dll"),
    ) || vec_chars_eq(&ext_chars, &chars_of_str("so")) || vec_chars_eq(
        &ext_chars,
        &chars_of_str("dylib"),
    );
    hidden || in_git || binary
}

/// The release facts with their explicit defaults: an absent release reads
/// "No Release" and its date "N/A".
pub fn release_info_or_default(info: Option<(String, String)>) -> (r: (String, String))
    ensures
        match info {
            Some(p) => r.0@ == p.0@ && r.1@ == p.1@,
            None => r.0@ == "No Release"@ && r.1@ == "N/A"@,
        },
{
    match info {
        Some(p) => p,
        None => (String::from_str("No Release"), String::from_str("N/A")),
    }
}

/// Whether the buffer holds a zero byte: the mark by which a file is taken
/// for binary and skipped.
pub fn has_nul_byte(buffer: &Vec<u8>) -> (r: bool)
    ensures
        r == buffer@.contains(0u8),
{
    let mut i: usize = 0;
    while i < buffer.len()
        invariant
            0 <= i <= buffer@.len(),
            forall|t: int| 0 <= t < i ==> buffer@[t] != 0u8,
        decreases buffer@.len() - i,
    {
        if buffer[i] == 0u8 {
            return true;
        }
        i += 1;
    }
    proof {
        if buffer@.contains(0u8) {
            let t = choose|t: int| 0 <= t < buffer@.len() && buffer@[t] == 0u8;
            assert(false);
        }
    }
    false
}

} // verus!
