use mdsummary::summary::{render_lines, render_summary, sort_entries};
use mdsummary::SummaryEntry;

fn entry(path: &str, title: &str) -> SummaryEntry {
    SummaryEntry { path: path.to_string(), title: title.to_string() }
}

fn paths(entries: &[SummaryEntry]) -> Vec<&str> {
    entries.iter().map(|e| e.path.as_str()).collect()
}

#[test]
fn renders_a_small_tree() {
    let entries = vec![
        entry("flat_file.md", "A Thing"),
        entry("subdir/README.md", "Subdirectory"),
        entry("subdir/other.md", "Other"),
        entry("other_dir/some_content.md", "Moar Content"),
    ];
    assert_eq!(
        render_summary(entries),
        "- [A Thing](flat_file.md)
    - [Moar Content](other_dir/some_content.md)
- [Subdirectory](subdir/README.md)
    - [Other](subdir/other.md)
"
    );
}

#[test]
fn renders_nothing_for_no_entries() {
    assert_eq!(render_summary(Vec::new()), "");
    assert_eq!(render_lines(&Vec::new()), "");
    assert_eq!(sort_entries(Vec::new()), Vec::new());
}

#[test]
fn renders_one_entry_with_a_closing_line_feed() {
    assert_eq!(render_summary(vec![entry("a.md", "A")]), "- [A](a.md)\n");
}

#[test]
fn render_lines_keeps_the_given_order() {
    let entries = vec![entry("z/y.md", "Last"), entry("a.md", "First")];
    assert_eq!(render_lines(&entries), "    - [Last](z/y.md)\n- [First](a.md)\n");
}

#[test]
fn render_summary_is_sort_then_render() {
    let given = vec![
        entry("b/README.md", "B"),
        entry("a/x.md", "X"),
        entry("b/c/README.md", "C"),
        entry("b/c/d.md", "D"),
        entry("README.md", "Root"),
    ];
    let again = vec![
        entry("b/README.md", "B"),
        entry("a/x.md", "X"),
        entry("b/c/README.md", "C"),
        entry("b/c/d.md", "D"),
        entry("README.md", "Root"),
    ];
    let text = render_summary(given);
    assert_eq!(text, render_lines(&sort_entries(again)));
    assert_eq!(
        text,
        "- [Root](README.md)\n    - [X](a/x.md)\n- [B](b/README.md)\n    - [C](b/c/README.md)\n        - [D](b/c/d.md)\n"
    );
}

#[test]
fn rendering_twice_gives_the_same_text() {
    let sorted = sort_entries(vec![
        entry("ci/concourse.md", "Concourse"),
        entry("ci/README.md", "CI"),
        entry("README.md", "Home"),
    ]);
    let first = render_lines(&sorted);
    let second = render_lines(&sorted);
    assert_eq!(first, second);
    assert_eq!(first, "- [Home](README.md)\n- [CI](ci/README.md)\n    - [Concourse](ci/concourse.md)\n");
}

#[test]
fn summary_does_not_depend_on_input_order() {
    let one = vec![
        entry("docker/README.md", "Docker"),
        entry("ci/concourse.md", "Concourse"),
        entry("ci/README.md", "CI"),
        entry("food/recipes/soup.md", "Soup"),
    ];
    let other = vec![
        entry("food/recipes/soup.md", "Soup"),
        entry("ci/README.md", "CI"),
        entry("docker/README.md", "Docker"),
        entry("ci/concourse.md", "Concourse"),
    ];
    assert_eq!(render_summary(one), render_summary(other));
}

#[test]
fn sorting_sorted_entries_changes_nothing() {
    let once = sort_entries(vec![
        entry("b.md", "B"),
        entry("a/README.md", "A"),
        entry("a/z.md", "Z"),
        entry("a/b/README.md", "AB"),
    ]);
    let expected = vec!["a/README.md", "a/b/README.md", "a/z.md", "b.md"];
    assert_eq!(paths(&once), expected);
    let twice = sort_entries(once);
    assert_eq!(paths(&twice), expected);
}

#[test]
fn sorting_keeps_every_entry() {
    let sorted = sort_entries(vec![
        entry("b.md", "Two"),
        entry("a.md", "One"),
        entry("b.md", "Two"),
        entry("a.md", "Another"),
    ]);
    assert_eq!(
        sorted,
        vec![
            entry("a.md", "Another"),
            entry("a.md", "One"),
            entry("b.md", "Two"),
            entry("b.md", "Two"),
        ]
    );
}

#[test]
fn index_file_comes_before_the_contents_of_its_directory() {
    let sorted = sort_entries(vec![
        entry("guide/zeta/deep/file.md", "Deep"),
        entry("guide/A.md", "Upper case sibling"),
        entry("guide/zeta/README.md", "Zeta"),
        entry("guide/README.md", "Guide"),
        entry("guide/alpha.md", "Alpha"),
    ]);
    assert_eq!(
        paths(&sorted),
        vec![
            "guide/README.md",
            "guide/A.md",
            "guide/alpha.md",
            "guide/zeta/README.md",
            "guide/zeta/deep/file.md",
        ]
    );
}

#[test]
fn root_index_file_comes_first_of_all() {
    let sorted = sort_entries(vec![
        entry("A.md", "A"),
        entry("0/README.md", "Zero"),
        entry("README.md", "Root"),
        entry("!bang.md", "Bang"),
    ]);
    assert_eq!(paths(&sorted), vec!["README.md", "!bang.md", "0/README.md", "A.md"]);
}

#[test]
fn siblings_come_in_dictionary_order_of_their_paths() {
    let sorted = sort_entries(vec![
        entry("d/b.md", "b"),
        entry("d/B.md", "B"),
        entry("d/a10.md", "a10"),
        entry("d/a.md", "a"),
        entry("d/a2.md", "a2"),
    ]);
    assert_eq!(paths(&sorted), vec!["d/B.md", "d/a.md", "d/a10.md", "d/a2.md", "d/b.md"]);
}

#[test]
fn order_goes_by_characters_of_the_whole_path() {
    let sorted = sort_entries(vec![
        entry("ci/concourse.md", "Concourse"),
        entry("ci-x/foo.md", "Foo"),
        entry("ci/README.md", "CI"),
        entry("ci.md", "Dot"),
        entry("docker/README.md", "Docker"),
    ]);
    assert_eq!(
        paths(&sorted),
        vec!["ci/README.md", "ci-x/foo.md", "ci.md", "ci/concourse.md", "docker/README.md"]
    );
}

#[test]
fn order_compares_characters_beyond_ascii() {
    let sorted = sort_entries(vec![
        entry("\u{1F600}.md", "Emoji"),
        entry("\u{E9}t\u{E9}.md", "Latin"),
        entry("z.md", "Z"),
        entry("\u{FF5E}.md", "Wide"),
    ]);
    assert_eq!(paths(&sorted), vec!["z.md", "\u{E9}t\u{E9}.md", "\u{FF5E}.md", "\u{1F600}.md"]);
}

#[test]
fn same_effective_path_is_told_apart_by_path() {
    let sorted = sort_entries(vec![entry("notes/README.md", "Index"), entry("notes", "File")]);
    assert_eq!(paths(&sorted), vec!["notes", "notes/README.md"]);
}

#[test]
fn same_path_is_told_apart_by_title() {
    let sorted = sort_entries(vec![entry("a.md", "b"), entry("a.md", "a"), entry("a.md", "B")]);
    assert_eq!(sorted, vec![entry("a.md", "B"), entry("a.md", "a"), entry("a.md", "b")]);
}
