use goblin_scout::digits::format_u64;
use goblin_scout::digits::parse_u64;
use goblin_scout::ids::chunk_string;

fn chars(s: &str) -> Vec<char> {
    s.chars().collect()
}

fn join(chunks: &[String]) -> String {
    let mut out = String::new();
    for c in chunks {
        out.push_str(c);
    }
    out
}

// Scenario: 600 characters with a newline at position 505. The boundary
// falls immediately after the newline.
#[test]
fn chunk_scenario_newline_in_window() {
    let mut content = String::new();
    for i in 0..600 {
        if i == 505 {
            content.push('\n');
        } else {
            content.push('a');
        }
    }
    let chunks = chunk_string(&content);
    assert_eq!(chunks.len(), 2);
    assert_eq!(chunks[0].chars().count(), 506);
    assert!(chunks[0].ends_with('\n'));
    assert_eq!(chunks[1].chars().count(), 94);
    assert_eq!(join(&chunks), content);
}

// Scenario: content shorter than 512 characters with no newline is exactly
// one chunk, the whole input.
#[test]
fn chunk_scenario_short_content() {
    let content = "fn main() { }".repeat(10);
    assert!(content.chars().count() < 512);
    let chunks = chunk_string(&content);
    assert_eq!(chunks.len(), 1);
    assert_eq!(chunks[0], content);
}

// Scenario: an empty input produces zero chunks.
#[test]
fn chunk_scenario_empty() {
    let chunks = chunk_string("");
    assert_eq!(chunks.len(), 0);
}

// A long run without any whitespace is cut hard at the target size.
#[test]
fn chunk_hard_cut() {
    let content = "a".repeat(1500);
    let chunks = chunk_string(&content);
    assert_eq!(chunks.len(), 3);
    assert_eq!(chunks[0].chars().count(), 512);
    assert_eq!(chunks[1].chars().count(), 512);
    assert_eq!(chunks[2].chars().count(), 476);
    assert_eq!(join(&chunks), content);
}

// A newline past the target but within the extended window moves the
// boundary past itself.
#[test]
fn chunk_newline_in_extended_window() {
    let mut content = String::new();
    for i in 0..900 {
        if i == 550 {
            content.push('\n');
        } else {
            content.push('a');
        }
    }
    let chunks = chunk_string(&content);
    assert_eq!(chunks[0].chars().count(), 551);
    assert!(chunks[0].ends_with('\n'));
    assert_eq!(join(&chunks), content);
}

// Whitespace in the extended window, with no newline anywhere, ends the
// chunk before itself: the whitespace is left for the next chunk.
#[test]
fn chunk_whitespace_in_extended_window() {
    let mut content = String::new();
    for i in 0..600 {
        if i == 529 {
            content.push(' ');
        } else {
            content.push('a');
        }
    }
    let chunks = chunk_string(&content);
    assert_eq!(chunks[0].chars().count(), 529);
    assert!(chunks[1].starts_with(' '));
    assert_eq!(join(&chunks), content);
}

// No character loss with multi-byte characters at chunk boundaries: the
// sum of chunk lengths equals the input length and the concatenation is
// the input.
#[test]
fn chunk_multibyte_no_loss() {
    let content = "é€漢a".repeat(300);
    let total: usize = content.chars().count();
    let chunks = chunk_string(&content);
    let sum: usize = chunks.iter().map(|c| c.chars().count()).sum();
    assert_eq!(sum, total);
    assert_eq!(join(&chunks), content);
    for (i, c) in chunks.iter().enumerate() {
        let n = c.chars().count();
        assert!(n >= 1);
        if i + 1 < chunks.len() {
            assert!(n <= 750);
        }
    }
}

// Every chunk of an arbitrary mixed text stays within the size bounds.
#[test]
fn chunk_size_bounds() {
    let content = "word ".repeat(500);
    let chunks = chunk_string(&content);
    for c in &chunks {
        let n = c.chars().count();
        assert!(n >= 1);
        assert!(n <= 750);
    }
    assert_eq!(join(&chunks), content);
}

// The chunker's whitespace test agrees with the standard library's
// Unicode whitespace property over the whole range it draws from.
#[test]
fn whitespace_matches_std() {
    for u in 0..0x3100u32 {
        if let Some(c) = char::from_u32(u) {
            assert_eq!(goblin_scout::chunker::is_space(c), c.is_whitespace(), "at U+{:04X}", u);
        }
    }
    assert!(!goblin_scout::chunker::is_space('\u{FEFF}'));
}

#[test]
fn format_u64_exact() {
    assert_eq!(String::from_iter(format_u64(0)), "0");
    assert_eq!(String::from_iter(format_u64(7)), "7");
    assert_eq!(String::from_iter(format_u64(12345)), "12345");
    assert_eq!(String::from_iter(format_u64(u64::MAX)), "18446744073709551615");
}

#[test]
fn parse_u64_exact() {
    assert_eq!(parse_u64(&chars("0")), Some(0));
    assert_eq!(parse_u64(&chars("42")), Some(42));
    assert_eq!(parse_u64(&chars("18446744073709551615")), Some(u64::MAX));
    assert_eq!(parse_u64(&chars("")), None);
    assert_eq!(parse_u64(&chars("4a2")), None);
    assert_eq!(parse_u64(&chars("18446744073709551616")), None);
}
