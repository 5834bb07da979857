use goblin_scout::assemble::Section;
use goblin_scout::assemble::assemble_chunked;
use goblin_scout::assemble::assemble_whole;
use goblin_scout::assemble::single_markdown;
use goblin_scout::ids::build_chunked_document;
use goblin_scout::ids::make_sections;
use goblin_scout::metadata::Metadata;
use goblin_scout::metadata::create_markdown_header;
use goblin_scout::parse::Document;
use goblin_scout::parse::ParseError;
use goblin_scout::parse::ingest_file;
use goblin_scout::parse::parse_document;

fn sample_metadata() -> Metadata {
    Metadata {
        title: String::from("repo - file.rs"),
        date: String::from("2024-05-01 12:00:00"),
        language: String::from("Rust"),
        file_id: String::from("0f8fad5b-d9cb-469f-a165-70867728950e"),
        github_name: String::from("file.rs"),
        github_url: String::from("https://github.com/owner/repo/blob/main/src/file.rs"),
        contributors: String::from("alice (5) | bob (2)"),
        latest_release: String::from("v1.2.0"),
        release_date: String::from("2024-04-02 09:30:00"),
        path: String::from("src/file.rs"),
        size: 1234,
    }
}

#[test]
fn header_exact_text() {
    let m = sample_metadata();
    let header = create_markdown_header(&m);
    let expected = "---\n\
        title: repo - file.rs\n\
        date: 2024-05-01 12:00:00\n\
        tags:\n\
        - Rust\n\
        - [UUID:0f8fad5b-d9cb-469f-a165-70867728950e]\n\
        github: [file.rs](https://github.com/owner/repo/blob/main/src/file.rs)\n\
        contributors: alice (5) | bob (2)\n\
        latest_release: v1.2.0\n\
        release_date: 2024-04-02 09:30:00\n\
        path: src/file.rs\n\
        size: 1234\n\
        ---\n";
    assert_eq!(header, expected);
}

// Scenario: a generated document whose metadata block holds the sample
// title and language, followed by two chunk-tagged fenced blocks; parsing
// yields the record and a two-element chunk list in original order.
#[test]
fn parse_generated_document() {
    let m = sample_metadata();
    let sections = vec![
        Section {
            uuid: String::from("11111111-1111-1111-1111-111111111111"),
            content: String::from("fn one() {}\n"),
        },
        Section {
            uuid: String::from("22222222-2222-2222-2222-222222222222"),
            content: String::from("fn two() {}\n"),
        },
    ];
    let text = assemble_chunked(&m, &sections);
    let parsed: Document = parse_document(&text).expect("the generated document parses");
    assert_eq!(parsed.file_metadata.title, "repo - file.rs");
    assert_eq!(parsed.file_metadata.language, "Rust");
    assert_eq!(parsed.file_metadata, m);
    assert_eq!(parsed.sections.len(), 2);
    assert_eq!(parsed.sections[0], sections[0]);
    assert_eq!(parsed.sections[1], sections[1]);
}

// The full pipeline round trip: chunk, tag, assemble, parse; the record
// comes back and the chunk contents concatenate to the original content.
#[test]
fn pipeline_round_trip() {
    let m = sample_metadata();
    let mut content = String::new();
    for i in 0..1400 {
        content.push(if i % 80 == 79 { '\n' } else { 'x' });
    }
    let (text, sections) = build_chunked_document(&m, &content);
    let parsed = parse_document(&text).expect("the assembled document parses");
    assert_eq!(parsed.file_metadata, m);
    assert_eq!(parsed.sections.len(), sections.len());
    let mut recovered = String::new();
    for s in &parsed.sections {
        recovered.push_str(&s.content);
    }
    assert_eq!(recovered, content);
    for (p, s) in parsed.sections.iter().zip(sections.iter()) {
        assert_eq!(p.uuid, s.uuid);
        assert_eq!(p.content, s.content);
    }
}

// A chunked document of an empty file has no chunks and still round-trips.
#[test]
fn pipeline_round_trip_empty() {
    let m = sample_metadata();
    let (text, sections) = build_chunked_document(&m, "");
    assert_eq!(sections.len(), 0);
    let parsed = parse_document(&text).expect("the empty-chunk document parses");
    assert_eq!(parsed.file_metadata, m);
    assert_eq!(parsed.sections.len(), 0);
}

// Scenario: in whole-content mode an empty input yields a document whose
// fenced block is empty.
#[test]
fn whole_mode_empty_fenced_block() {
    let m = sample_metadata();
    let text = assemble_whole(&m, "");
    let mut expected = create_markdown_header(&m);
    expected.push_str("\n```\n\n```\n");
    assert_eq!(text, expected);
}

#[test]
fn whole_mode_exact_text() {
    let m = sample_metadata();
    let text = assemble_whole(&m, "let x = 1;\n");
    let mut expected = create_markdown_header(&m);
    expected.push_str("\n```\nlet x = 1;\n\n```\n");
    assert_eq!(text, expected);
}

#[test]
fn parse_rejects_missing_sentinels() {
    assert_eq!(parse_document("no front matter here"), Err(ParseError::MalformedMetadata));
    assert_eq!(parse_document(""), Err(ParseError::MalformedMetadata));
    assert_eq!(parse_document("---\ntitle: only one sentinel\n"), Err(ParseError::MalformedMetadata));
}

#[test]
fn parse_rejects_bad_schema() {
    // a block with a missing field
    let text = "---\ntitle: t\ndate: d\n---\n\n";
    assert_eq!(parse_document(text), Err(ParseError::MalformedMetadata));
    // a block whose size is not a number
    let m = sample_metadata();
    let good = assemble_chunked(&m, &Vec::new());
    let bad = good.replace("size: 1234", "size: large");
    assert_eq!(parse_document(&bad), Err(ParseError::MalformedMetadata));
}

// A malformed chunk fragment is dropped silently; the remaining fragments
// still parse.
#[test]
fn parse_drops_malformed_fragment() {
    let m = sample_metadata();
    let header = create_markdown_header(&m);
    let text = format!(
        "{}\n[UUID:aaa]\n```\nfirst\n```\n\n[UUID:broken no closing\n\n[UUID:bbb]\n```\nsecond\n```\n",
        header
    );
    let parsed = parse_document(&text).expect("the document parses");
    assert_eq!(parsed.sections.len(), 2);
    assert_eq!(parsed.sections[0].uuid, "aaa");
    assert_eq!(parsed.sections[0].content, "first");
    assert_eq!(parsed.sections[1].uuid, "bbb");
    assert_eq!(parsed.sections[1].content, "second");
}

#[test]
fn ingest_skips_empty_file() {
    assert_eq!(ingest_file(""), Ok(None));
    assert!(matches!(ingest_file("garbage"), Err(ParseError::MalformedMetadata)));
    let m = sample_metadata();
    let (text, _) = build_chunked_document(&m, "body\n");
    let got = ingest_file(&text).expect("a valid document ingests");
    assert_eq!(got.expect("nonempty").file_metadata, m);
}

// Fresh identifiers have the canonical hyphenated shape and do not echo
// the chunk contents.
#[test]
fn section_identifiers_have_canonical_shape() {
    let sections = make_sections(vec![String::from("alpha"), String::from("beta")]);
    assert_eq!(sections.len(), 2);
    for s in &sections {
        assert_eq!(s.uuid.len(), 36);
        for (i, c) in s.uuid.chars().enumerate() {
            if i == 8 || i == 13 || i == 18 || i == 23 {
                assert_eq!(c, '-');
            } else {
                assert!(c.is_ascii_hexdigit() && !c.is_ascii_uppercase());
            }
        }
    }
    assert_eq!(sections[0].content, "alpha");
    assert_eq!(sections[1].content, "beta");
    assert_ne!(sections[0].uuid, sections[1].uuid);
}

#[test]
fn single_markdown_exact_text() {
    let files = vec![
        (String::from("src/a.rs"), String::from("fn a() {}\n")),
        (String::from("src/b.rs"), String::from("fn b() {}\n")),
    ];
    let text = single_markdown(&files);
    let expected = "## File: src/a.rs\n\n```\nfn a() {}\n\n```\n\
        ## File: src/b.rs\n\n```\nfn b() {}\n\n```\n";
    assert_eq!(text, expected);
}
