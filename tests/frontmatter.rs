use static_blog::frontmatter::{parse_categories, parse_frontmatter_text};

#[test]
fn reads_all_four_keys() {
    let fm = parse_frontmatter_text(
        "layout: post\ntitle: \"Hi there\"\nauthor: \"Ann\"\ncategories: [a, b,c]",
    );
    assert_eq!(fm.layout, "post");
    assert_eq!(fm.title, "Hi there");
    assert_eq!(fm.author, "Ann");
    assert_eq!(fm.categories, vec!["a", "b", "c"]);
}

#[test]
fn categories_are_trimmed_whatever_the_spacing() {
    assert_eq!(parse_categories("[a, b,c]"), vec!["a", "b", "c"]);
    assert_eq!(parse_categories("[  x  ,y ]"), vec!["x", "y"]);
    assert_eq!(parse_categories("a, b"), vec!["a", "b"]);
    assert_eq!(parse_categories("[]"), vec![""]);
}

#[test]
fn absent_keys_stay_empty() {
    let fm = parse_frontmatter_text("title: T");
    assert_eq!(fm.title, "T");
    assert_eq!(fm.layout, "");
    assert_eq!(fm.author, "");
    assert!(fm.categories.is_empty());
    let empty = parse_frontmatter_text("");
    assert_eq!(empty.title, "");
}

#[test]
fn unknown_keys_and_lines_without_colon_are_ignored() {
    let fm = parse_frontmatter_text("date: 2020\njust text\n  author :  Bob  \r\n");
    assert_eq!(fm.author, "Bob");
    assert_eq!(fm.title, "");
}

#[test]
fn value_splits_at_first_colon_only() {
    let fm = parse_frontmatter_text("title: \"a: b\"");
    assert_eq!(fm.title, "a: b");
}

#[test]
fn quotes_strip_only_as_a_pair() {
    assert_eq!(parse_frontmatter_text("title: \"x").title, "\"x");
    assert_eq!(parse_frontmatter_text("title: \"\"x\"\"").title, "\"x\"");
    assert_eq!(parse_frontmatter_text("layout: \"x\"").layout, "\"x\"");
}

#[test]
fn later_line_wins() {
    let fm = parse_frontmatter_text("title: one\ntitle: two");
    assert_eq!(fm.title, "two");
}
