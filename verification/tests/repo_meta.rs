use goblin_scout::contrib::format_contributors;
use goblin_scout::contrib::md_contrib_five;
use goblin_scout::errors::CustomError;
use goblin_scout::lang::get_asset_path;
use goblin_scout::lang::load_language_map;
use goblin_scout::lang::md_lang_maps;
use goblin_scout::repo::RepositoryDetails;
use goblin_scout::repo::construct_github_url;
use goblin_scout::repo::get_output_file_name;
use goblin_scout::repo::has_nul_byte;
use goblin_scout::repo::is_ignored;
use goblin_scout::repo::release_info_or_default;
use goblin_scout::repo::repo_details_from_url;

fn sample_map() -> Vec<(String, Vec<String>)> {
    vec![
        (String::from("Rust"), vec![String::from(".rs")]),
        (String::from("Python"), vec![String::from(".py"), String::from(".pyw")]),
    ]
}

// Test if the markdown tag is created correctly for given file extension.
#[test]
fn test_markdown_tag_creation() {
    let file_extension = "rs";

    let asset_path = get_asset_path();
    println!("Asset path from test: {}", asset_path);

    let language_tag = md_lang_maps(&sample_map(), file_extension);

    assert_eq!(language_tag, "Rust");
}

#[test]
fn lang_lookup_with_dot_and_fallback() {
    let map = sample_map();
    assert_eq!(md_lang_maps(&map, ".py"), "Python");
    assert_eq!(md_lang_maps(&map, "pyw"), "Python");
    assert_eq!(md_lang_maps(&map, "xyz"), "xyz");
    assert_eq!(md_lang_maps(&map, ".xyz"), ".xyz");
}

// Idempotence: looking up the same extension twice yields the same label.
#[test]
fn lang_lookup_idempotent() {
    let map = sample_map();
    let first = md_lang_maps(&map, "rs");
    let second = md_lang_maps(&map, "rs");
    assert_eq!(first, second);
}

#[test]
fn lang_map_loads_from_json() {
    let json = "{\"Rust\": [\".rs\"], \"Go\": [\".go\"]}";
    let map = load_language_map(json).expect("well-formed JSON loads");
    assert_eq!(map.len(), 2);
    assert_eq!(md_lang_maps(&map, "rs"), "Rust");
    assert_eq!(md_lang_maps(&map, "go"), "Go");
    let err = load_language_map("not json").expect_err("malformed JSON is rejected");
    assert!(matches!(err, CustomError::DetailedJsonParsingError(_, _)));
}

#[test]
fn contributors_top_five_format() {
    let tally = vec![
        (String::from("alice"), 5),
        (String::from("bob"), 2),
        (String::from("carol"), 1),
        (String::from("dave"), 5),
    ];
    // carol has one commit and is dropped; alice and dave tie on five and
    // keep their input order
    assert_eq!(format_contributors(&tally), "alice (5) | dave (5) | bob (2)");
    assert_eq!(md_contrib_five(&tally), "alice (5) | dave (5) | bob (2)");
}

#[test]
fn contributors_cut_to_five() {
    let tally = vec![
        (String::from("a"), 2),
        (String::from("b"), 3),
        (String::from("c"), 4),
        (String::from("d"), 5),
        (String::from("e"), 6),
        (String::from("f"), 7),
    ];
    assert_eq!(format_contributors(&tally), "f (7) | e (6) | d (5) | c (4) | b (3)");
}

#[test]
fn contributors_empty_tally() {
    assert_eq!(format_contributors(&Vec::new()), "");
    assert_eq!(format_contributors(&vec![(String::from("solo"), 1)]), "");
}

#[test]
fn github_url_and_output_name() {
    assert_eq!(
        construct_github_url("https://github.com/owner/repo", "main", "src/lib.rs"),
        "https://github.com/owner/repo/blob/main/src/lib.rs"
    );
    assert_eq!(get_output_file_name("src/lib.rs"), "src/lib.rs.md");
}

#[test]
fn repo_details_from_url_fields() {
    let d: RepositoryDetails = repo_details_from_url("https://github.com/owner/repo");
    assert_eq!(d.url, "https://github.com/owner/repo");
    assert_eq!(d.name, "repo");
    assert_eq!(d.local_path, "repositories/repo");
    assert_eq!(d.markdown_output, "markdown/repo.md");
    let bare = repo_details_from_url("repo");
    assert_eq!(bare.name, "repo");
}

#[test]
fn ignore_rules() {
    assert!(is_ignored(".gitignore", "repo/.gitignore", ""));
    assert!(is_ignored("HEAD", "repo/.git/HEAD", ""));
    assert!(is_ignored("logo.png", "repo/assets/logo.png", "png"));
    assert!(is_ignored("app.dylib", "repo/out/app.dylib", "dylib"));
    assert!(!is_ignored("lib.rs", "repo/src/lib.rs", "rs"));
}

#[test]
fn release_defaults() {
    let kept = release_info_or_default(Some((String::from("v1"), String::from("2024"))));
    assert_eq!(kept.0, "v1");
    assert_eq!(kept.1, "2024");
    let defaulted = release_info_or_default(None);
    assert_eq!(defaulted.0, "No Release");
    assert_eq!(defaulted.1, "N/A");
}

#[test]
fn nul_byte_detection() {
    assert!(has_nul_byte(&vec![1, 2, 0, 3]));
    assert!(!has_nul_byte(&vec![1, 2, 3]));
    assert!(!has_nul_byte(&Vec::new()));
}

#[test]
fn error_descriptions() {
    let e = CustomError::StrError(String::from("boom"));
    assert_eq!(e.describe(), "Encountered error: boom");
    let a = CustomError::AssetPathError(String::from("missing"));
    assert_eq!(a.describe(), "Asset path error: missing");
    let j = CustomError::DetailedJsonParsingError(String::from("maps"), String::from("bad"));
    assert_eq!(j.describe(), "Failed to parse maps. Reason: bad");
}
