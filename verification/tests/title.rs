use mdsummary::find_content;
use mdsummary::title::{find_title, heading_title, is_whitespace_char};

fn lines_of(text: &str) -> Vec<String> {
    text.lines().map(String::from).collect()
}

#[test]
fn find_content_finds_a_title() {
    let lines = lines_of("\n\n# A File\n");

    let entry = find_content(&lines, String::from("a_file.md"));

    assert_eq!(entry.is_none(), false);

    if let Some(ref entry) = entry {
        assert_eq!(entry.title, "A File".to_string());
    }
}

#[test]
fn find_content_returns_no_title_if_none_found() {
    let lines = lines_of("\n\n\n");

    let entry = find_content(&lines, String::from("a_file.md"));

    assert_eq!(entry.is_none(), true);
}

#[test]
fn find_content_keeps_the_path() {
    let entry = find_content(&lines_of("# T"), String::from("a/b.md")).unwrap();
    assert_eq!(entry.path, "a/b.md");
    assert_eq!(entry.title, "T");
}

#[test]
fn find_content_of_no_lines_is_none() {
    assert!(find_content(&Vec::new(), String::from("a.md")).is_none());
}

#[test]
fn find_title_takes_the_first_heading() {
    assert_eq!(find_title(&lines_of("\n# A Thing\n\n ## Contents")), Some("A Thing".to_string()));
    assert_eq!(find_title(&lines_of("\n\n# Subdirectory")), Some("Subdirectory".to_string()));
    assert_eq!(find_title(&lines_of("# Other")), Some("Other".to_string()));
    assert_eq!(find_title(&lines_of("## Whatever\n\n # Moar Content")), Some("Moar Content".to_string()));
    assert_eq!(find_title(&lines_of("# One\n# Two")), Some("One".to_string()));
    assert_eq!(find_title(&lines_of("text\n## Two\n#Three\n")), None);
}

#[test]
fn heading_title_trims_the_line() {
    assert_eq!(heading_title("# Title"), Some("Title".to_string()));
    assert_eq!(heading_title("   # Title   "), Some("Title".to_string()));
    assert_eq!(heading_title("\t# Title\r"), Some("Title".to_string()));
    assert_eq!(heading_title("\u{3000}# Title\u{A0}\u{2003}"), Some("Title".to_string()));
    assert_eq!(heading_title("# A longer title, with words"), Some("A longer title, with words".to_string()));
}

#[test]
fn heading_title_takes_off_every_mark_at_the_start() {
    assert_eq!(heading_title("# # Twice"), Some("Twice".to_string()));
    assert_eq!(heading_title("# # # Thrice"), Some("Thrice".to_string()));
    assert_eq!(heading_title("# #"), Some("#".to_string()));
    assert_eq!(heading_title("#  Two spaces"), Some(" Two spaces".to_string()));
    assert_eq!(heading_title("# ## Sub"), Some("## Sub".to_string()));
    assert_eq!(heading_title("# a # b"), Some("a # b".to_string()));
}

#[test]
fn heading_title_of_other_lines_is_none() {
    assert_eq!(heading_title(""), None);
    assert_eq!(heading_title("   "), None);
    assert_eq!(heading_title("#"), None);
    assert_eq!(heading_title("# "), None);
    assert_eq!(heading_title("#Title"), None);
    assert_eq!(heading_title("## Title"), None);
    assert_eq!(heading_title("Title # not"), None);
    assert_eq!(heading_title("#\u{A0}Title"), None);
    assert_eq!(heading_title("#\tTitle"), None);
}

#[test]
fn heading_title_agrees_with_trim_and_strip() {
    let lines = [
        "", " ", "#", "# ", " # x ", "# # ", "# # x", "#  x", "##", "x", "\u{2028}# y\u{2029}",
        "# \u{1F600}", " #x", "# #", "\u{85}# # # z\u{85}",
    ];
    for line in lines {
        let trimmed = line.trim();
        let expected = if trimmed.starts_with("# ") {
            Some(trimmed.trim_start_matches("# ").to_string())
        } else {
            None
        };
        assert_eq!(heading_title(line), expected);
    }
}

#[test]
fn white_space_is_what_unicode_says() {
    let mut code: u32 = 0;
    while code <= 0x10FFFF {
        if let Some(c) = char::from_u32(code) {
            assert_eq!(is_whitespace_char(c), c.is_whitespace());
        }
        code += 1;
    }
}
