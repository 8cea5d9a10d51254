use mdsummary::path::{
    depth_of, effective_path_of, is_well_formed_path, marks_directory, DIRECTORY_INDEX, SEPARATOR,
};
use mdsummary::text::{chars_of, count_char, less_than};

#[test]
fn constants_have_their_documented_values() {
    assert_eq!(DIRECTORY_INDEX, "README.md");
    assert_eq!(SEPARATOR, '/');
}

#[test]
fn depth_counts_separators() {
    assert_eq!(depth_of(""), 0);
    assert_eq!(depth_of("README.md"), 0);
    assert_eq!(depth_of("a/b.md"), 1);
    assert_eq!(depth_of("a/b/c/d/e.md"), 4);
    assert_eq!(depth_of("//"), 2);
    assert_eq!(depth_of("a\\b.md"), 0);
}

#[test]
fn directory_marker_is_the_exact_final_segment() {
    assert!(marks_directory("README.md"));
    assert!(marks_directory("a/README.md"));
    assert!(marks_directory("a/b/README.md"));
    assert!(marks_directory("/README.md"));
    assert!(!marks_directory("readme.md"));
    assert!(!marks_directory("a/README.md/"));
    assert!(!marks_directory("a/README.mdx"));
    assert!(!marks_directory("a/xREADME.md"));
    assert!(!marks_directory("README.md/a.md"));
    assert!(!marks_directory("README"));
    assert!(!marks_directory(""));
}

#[test]
fn effective_path_drops_the_index_file_name() {
    assert_eq!(effective_path_of("ci/README.md"), "ci");
    assert_eq!(effective_path_of("ci/concourse.md"), "ci/concourse.md");
    assert_eq!(effective_path_of("docker/README.md"), "docker");
    assert_eq!(effective_path_of("food/recipes/README.md"), "food/recipes");
    assert_eq!(effective_path_of("README.md"), "");
    assert_eq!(effective_path_of("/README.md"), "");
    assert_eq!(effective_path_of(""), "");
    assert_eq!(effective_path_of("\u{E9}\u{E9}/README.md"), "\u{E9}\u{E9}");
}

#[test]
fn well_formed_paths() {
    assert!(is_well_formed_path("a"));
    assert!(is_well_formed_path("a/b"));
    assert!(is_well_formed_path(".hidden/..x/y.."));
    assert!(is_well_formed_path("./a"));
    assert!(!is_well_formed_path(""));
    assert!(!is_well_formed_path("/"));
    assert!(!is_well_formed_path("a//b"));
    assert!(!is_well_formed_path("a/b/"));
    assert!(!is_well_formed_path("/a/b"));
    assert!(!is_well_formed_path(".."));
    assert!(!is_well_formed_path("a/../b"));
    assert!(!is_well_formed_path("a/b/.."));
    assert!(!is_well_formed_path("../a"));
}

#[test]
fn chars_of_gives_every_character() {
    assert_eq!(chars_of(""), Vec::<char>::new());
    assert_eq!(chars_of("a/\u{E9}\u{1F600}"), vec!['a', '/', '\u{E9}', '\u{1F600}']);
}

#[test]
fn count_char_counts() {
    assert_eq!(count_char("", '/'), 0);
    assert_eq!(count_char("abc", '/'), 0);
    assert_eq!(count_char("/a/b/", '/'), 3);
    assert_eq!(count_char("\u{E9}\u{E9}x\u{E9}", '\u{E9}'), 3);
}

#[test]
fn less_than_is_the_dictionary_order() {
    assert!(less_than("", "a"));
    assert!(!less_than("", ""));
    assert!(!less_than("a", ""));
    assert!(less_than("a", "b"));
    assert!(!less_than("b", "a"));
    assert!(less_than("ci", "ci/concourse.md"));
    assert!(less_than("ci/concourse.md", "docker"));
    assert!(less_than("ci-x", "ci/x"));
    assert!(less_than("B", "a"));
    assert!(less_than("a10", "a2"));
    assert!(!less_than("abc", "abc"));
    assert!(less_than("abc", "abd"));
    assert!(less_than("z", "\u{E9}"));
    assert!(less_than("\u{FFFF}", "\u{10000}"));
}

#[test]
fn less_than_agrees_with_the_order_of_strings() {
    let words = ["", "a", "ab", "b", "B", "a/b", "a-b", "a.b", "\u{E9}", "\u{D7FF}", "\u{E000}", "\u{1F600}", "~"];
    for a in words {
        for b in words {
            assert_eq!(less_than(a, b), a < b);
        }
    }
}
