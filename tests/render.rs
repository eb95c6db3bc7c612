use static_blog::filename::parse_file_name;
use static_blog::frontmatter::parse_frontmatter_text;
use static_blog::render::{format_date, join, month_abbrev, render_post};

#[test]
fn month_names() {
    let want = [
        "Jan", "Feb", "Mar", "Apr", "May", "June", "July", "Aug", "Sept", "Oct", "Nov", "Dec",
    ];
    for (i, w) in want.iter().enumerate() {
        assert_eq!(month_abbrev(i as i64 + 1), *w);
    }
}

#[test]
fn other_months_are_unknown() {
    assert_eq!(month_abbrev(0), "Unknown");
    assert_eq!(month_abbrev(13), "Unknown");
    assert_eq!(month_abbrev(-5), "Unknown");
    assert_eq!(month_abbrev(i64::MIN), "Unknown");
}

#[test]
fn date_format() {
    assert_eq!(format_date(2021, 3, 2), "Mar 2, 2021");
    assert_eq!(format_date(1999, 12, 31), "Dec 31, 1999");
    assert_eq!(format_date(0, 13, 0), "Unknown 0, 0");
    assert_eq!(format_date(-44, 3, -1), "Mar -1, -44");
    assert_eq!(format_date(i32::MIN, 1, i16::MIN), "Jan -32768, -2147483648");
}

#[test]
fn joining() {
    let parts = vec!["a".to_string(), "b".to_string(), "c".to_string()];
    assert_eq!(join(&parts, ", "), "a, b, c");
    assert_eq!(join(&vec![], ", "), "");
    assert_eq!(join(&vec!["x".to_string()], ", "), "x");
}

#[test]
fn post_page_and_entry() {
    let info = parse_file_name("2021-03-02-hello-world.md").unwrap();
    let fm = parse_frontmatter_text("title: \"Hi\"\nauthor: \"Ann\"\ncategories: [intro, misc]");
    let layout = "<head><!-- POST TITLE --></head><main><!-- POST CONTENT --></main><footer><!-- YEAR AUTHOR --></footer>";
    let r = render_post(&info, &fm, "<h1>Hello</h1>", layout);
    let article = "\n<article>\n  <h1>Hi</h1>\n  <div class=\"meta\"><span class=\"date\">Mar 2, 2021</span> — <span class=\"author\">by Ann</span> — <span class=\"tags-inline\">intro, misc</span></div>\n<h1>Hello</h1>\n</article>";
    let want = format!(
        "<head><title>Casper's Blog – Hi</title></head><main>{article}</main><footer>© 2021 Ann</footer>"
    );
    assert_eq!(r.page, want);
    assert_eq!(r.entry.url, "2021-03-02-hello-world.html");
    assert_eq!(r.entry.title, "Hi");
    assert_eq!(r.entry.sort_key, (2021, 3, 2));
    assert_eq!(r.entry.date_str, "Mar 2, 2021");
    assert_eq!(r.entry.author, "Ann");
    assert_eq!(r.entry.tags, "intro, misc");
}

#[test]
fn missing_markers_leave_layout_unchanged() {
    let info = parse_file_name("2021-03-02-x.md").unwrap();
    let fm = parse_frontmatter_text("title: T");
    let r = render_post(&info, &fm, "body", "<p>static</p>");
    assert_eq!(r.page, "<p>static</p>");
}

#[test]
fn every_marker_occurrence_is_replaced() {
    let info = parse_file_name("2021-03-02-x.md").unwrap();
    let fm = parse_frontmatter_text("author: Bo");
    let r = render_post(&info, &fm, "", "<!-- YEAR AUTHOR -->|<!-- YEAR AUTHOR -->");
    assert_eq!(r.page, "© 2021 Bo|© 2021 Bo");
}
