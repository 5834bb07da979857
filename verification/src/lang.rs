//! The extension-to-language lookup. The mapping is loaded once from a
//! JSON asset, held immutably as a plain table, and consulted by pure
//! lookup: an extension found in no entry degrades to the dotted extension
//! itself.

use vstd::prelude::*;
use vstd::string::StringExecFns;
use crate::errors::CustomError;
use crate::text::cat2;
use crate::text::chars_of_str;

verus! {

/// The extension as it stands in the table: with its leading dot.
pub open spec fn formatted_ext(ext: Seq<char>) -> Seq<char> {
    if ext.len() > 0 && ext[0] == '.' {
        ext
    } else {
        "."@ + ext
    }
}

/// The language of the first entry whose extension list holds the dotted
/// extension; nothing when no entry holds it.
pub open spec fn spec_lang_lookup(
    entries: Seq<(Seq<char>, Seq<Seq<char>>)>,
    fe: Seq<char>,
) -> Option<Seq<char>>
    decreases entries.len(),
{
    if entries.len() == 0 {
        None
    } else if entries[0].1.contains(fe) {
        Some(entries[0].0)
    } else {
        spec_lang_lookup(entries.drop_first(), fe)
    }
}

/// The label for an extension: the language the table maps its dotted form
/// to, degrading to the raw extension string when the table maps it
/// nowhere.
pub open spec fn spec_language_label(
    entries: Seq<(Seq<char>, Seq<Seq<char>>)>,
    ext: Seq<char>,
) -> Seq<char> {
    match spec_lang_lookup(entries, formatted_ext(ext)) {
        Some(language) => language,
        None => ext,
    }
}

/// The conventional location of the language-map asset, relative to the
/// crate root.
pub fn get_asset_path() -> (r: String)
    ensures
        r@ == "src/assets/lang_maps.json"@,
{
    String::from_str("src/assets/lang_maps.json")
}

/// Relies on `serde_json::from_str`: reads the JSON text as a table of
/// language names to extension lists. The table's pairs come back in an
/// unspecified order; on failure the parser's own message is returned.
#[verifier::external_body]
fn parse_lang_map_json(text: &str) -> (r: Result<Vec<(String, Vec<String>)>, String>) {
    match serde_json::from_str::<std::collections::HashMap<String, Vec<String>>>(text) {
        Ok(m) => Ok(m.into_iter().collect()),
        Err(e) => Err(e.to_string()),
    }
}

/// The language table read from the text of the asset file. A text that is
/// not a JSON table of that shape is rejected, naming the asset and the
/// reason.
pub fn load_language_map(json_text: &str) -> (r: Result<
    Vec<(String, Vec<String>)>,
    CustomError,
>)
    ensures
        r is Err ==> r->Err_0 is DetailedJsonParsingError,
{
    match parse_lang_map_json(json_text) {
        Ok(entries) => Ok(entries),
        Err(why) => {
            let mut what = String::new();
            what.append("assets/lang_maps.json");
            Err(CustomError::DetailedJsonParsingError(what, why))
        },
    }
}

/// Whether some string of `v` reads `fe`.
fn contains_string(v: &Vec<String>, fe: &String) -> (r: bool)
    ensures
        r == v.deep_view().contains(fe@),
{
    let mut j: usize = 0;
    while j < v.len()
        invariant
            0 <= j <= v@.len(),
            forall|t: int| 0 <= t < j ==> v.deep_view()[t] != fe@,
        decreases v@.len() - j,
    {
        proof {
            assert(v.deep_view()[j as int] == v@[j as int]@);
        }
        if v[j].eq(fe) {
            proof {
                assert(v.deep_view()[j as int] == fe@);
            }
            return true;
        }
        j += 1;
    }
    proof {
        if v.deep_view().contains(fe@) {
            let t = choose|t: int| 0 <= t < v.deep_view().len() && v.deep_view()[t] == fe@;
            assert(false);
        }
    }
    false
}

/// The extension with its leading dot, added when absent.
fn format_extension(file_extension: &str) -> (r: String)
    ensures
        r@ == formatted_ext(file_extension@),
{
    let chars = chars_of_str(file_extension);
    if chars.len() > 0 && chars[0] == '.' {
        let mut s = String::new();
        s.append(file_extension);
        proof {
            assert(s@ =~= file_extension@);
        }
        s
    } else {
        cat2(".", file_extension)
    }
}

/// The language label for a file extension: what `spec_language_label`
/// names, computed against the given table. An extension in no entry
/// yields the raw extension string itself; the lookup never fails.
pub fn md_lang_maps(entries: &Vec<(String, Vec<String>)>, file_extension: &str) -> (r: String)
    ensures
        r@ == spec_language_label(entries.deep_view(), file_extension@),
{
    let fe = format_extension(file_extension);
    let ghost dv = entries.deep_view();
    proof {
        assert(dv.skip(0) =~~= dv);
    }
    let mut i: usize = 0;
    while i < entries.len()
        invariant
            0 <= i <= entries@.len(),
            dv == entries.deep_view(),
            dv.len() == entries@.len(),
            fe@ == formatted_ext(file_extension@),
            spec_lang_lookup(dv, fe@) == spec_lang_lookup(dv.skip(i as int), fe@),
        decreases entries@.len() - i,
    {
        if contains_string(&entries[i].1, &fe) {
            let r = entries[i].0.clone();
            proof {
                assert(dv.skip(i as int)[0] == dv[i as int]);
                assert(dv[i as int].1 == entries@[i as int].1.deep_view());
                assert(dv.skip(i as int)[0].1.contains(fe@));
            }
            return r;
        }
        proof {
            assert(dv.skip(i as int)[0] == dv[i as int]);
            assert(!dv.skip(i as int)[0].1.contains(fe@));
            assert(dv.skip(i as int).drop_first() =~~= dv.skip(i + 1));
        }
        i += 1;
    }
    proof {
        assert(dv.skip(i as int).len() == 0);
    }
    let mut raw = String::new();
    raw.append(file_extension);
    proof {
        assert(raw@ =~= file_extension@);
    }
    raw
}

/// Idempotence of the lookup: the same extension against the same table
/// always yields the same label. Two results of the lookup for one
/// extension are one.
pub proof fn lemma_lookup_idempotent(
    entries: Seq<(Seq<char>, Seq<Seq<char>>)>,
    ext: Seq<char>,
    first: Seq<char>,
    second: Seq<char>,
)
    requires
        first == spec_language_label(entries, ext),
        second == spec_language_label(entries, ext),
    ensures
        first == second,
{
}

} // verus!
