use static_blog::index::SiteIndex;
use static_blog::pipeline::{build_post, frontmatter_from_block, render_body, MarkdownConfig, PostError};

const POST_LAYOUT: &str = "<html><!-- POST TITLE --><body><!-- POST CONTENT --><p><!-- YEAR AUTHOR --></p></body></html>";
const INDEX_LAYOUT: &str = "<nav><!-- TAG FILTER BUTTONS --></nav><main><!-- POST CARDS --></main>";

#[test]
fn hello_world_end_to_end() {
    let cfg = MarkdownConfig::trusted();
    let content = "---\ntitle: \"Hi\"\nauthor: \"Ann\"\ncategories: [intro]\n---\n# Hello\n";
    let (post, cats) = build_post("2021-03-02-hello-world.md", content, &cfg, POST_LAYOUT)
        .ok()
        .unwrap()
        .unwrap();
    assert!(post.page.contains("Mar 2, 2021"));
    assert!(post.page.contains("by Ann"));
    assert!(post.page.contains("<h1>Hello</h1>"));
    assert!(!post.page.contains("title:"));
    assert_eq!(post.entry.url, "2021-03-02-hello-world.html");
    let mut idx = SiteIndex::new();
    idx.add_post(post.entry, &cats);
    let index = idx.render_index(INDEX_LAYOUT);
    assert_eq!(index.matches("<button").count(), 1);
    assert!(index.contains("data-tag=\"intro\">intro</button>"));
    assert_eq!(index.matches("class=\"post-card\"").count(), 1);
    assert!(index.contains("<a href=\"2021-03-02-hello-world.html\">Hi</a>"));
}

#[test]
fn name_that_is_no_post_is_skipped() {
    let cfg = MarkdownConfig::trusted();
    let r = build_post("notes.md", "anything", &cfg, POST_LAYOUT);
    assert!(matches!(r, Ok(None)));
}

#[test]
fn missing_frontmatter_fails() {
    let cfg = MarkdownConfig::trusted();
    let r = build_post("2021-03-02-x.md", "# No metadata\n", &cfg, POST_LAYOUT);
    assert!(matches!(r, Err(PostError::MissingFrontmatter)));
}

#[test]
fn raw_html_passes_through_when_trusted() {
    let cfg = MarkdownConfig::trusted();
    let body = render_body("---\ntitle: T\n---\n<div class=\"x\">hi</div>\n\n[a](javascript:alert(1))\n", &cfg)
        .ok()
        .unwrap();
    assert_eq!(body.frontmatter.title, "T");
    assert!(body.html.contains("<div class=\"x\">hi</div>"));
    assert!(body.html.contains("javascript:alert(1)"));
}

#[test]
fn block_text_is_read() {
    let fm = frontmatter_from_block(Some("title: X\ncategories: [p]".to_string())).unwrap();
    assert_eq!(fm.title, "X");
    assert_eq!(fm.categories, vec!["p"]);
    assert!(frontmatter_from_block(None).is_none());
}

#[test]
fn same_input_gives_same_output() {
    let cfg = MarkdownConfig::trusted();
    let content = "---\ntitle: A\ncategories: [k]\n---\nText *em*\n";
    let run = || {
        let (post, cats) = build_post("2020-01-01-a.md", content, &cfg, POST_LAYOUT).ok().unwrap().unwrap();
        let page = post.page.clone();
        let mut idx = SiteIndex::new();
        idx.add_post(post.entry, &cats);
        (page, idx.render_index(INDEX_LAYOUT))
    };
    assert_eq!(run(), run());
}
