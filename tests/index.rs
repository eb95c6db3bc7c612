use static_blog::index::{index_order, PostIndex, SiteIndex};

fn entry(url: &str, key: (i32, i16, i16)) -> PostIndex {
    PostIndex {
        url: url.to_string(),
        title: format!("T {url}"),
        sort_key: key,
        date_str: "D".to_string(),
        author: "A".to_string(),
        tags: "t".to_string(),
    }
}

fn strings(v: &[&str]) -> Vec<String> {
    v.iter().map(|s| s.to_string()).collect()
}

#[test]
fn most_recent_first_ties_in_insertion_order() {
    let posts = vec![
        entry("a", (2024, 1, 5)),
        entry("b", (2023, 12, 31)),
        entry("c", (2024, 1, 5)),
    ];
    assert_eq!(index_order(&posts), vec![0, 2, 1]);
}

#[test]
fn order_compares_year_then_month_then_day() {
    let posts = vec![
        entry("a", (2023, 12, 31)),
        entry("b", (2024, 1, 1)),
        entry("c", (2024, 2, 1)),
        entry("d", (2024, 1, 2)),
    ];
    assert_eq!(index_order(&posts), vec![2, 3, 1, 0]);
    assert_eq!(index_order(&vec![]), Vec::<usize>::new());
}

#[test]
fn tags_are_sorted_without_repeats() {
    let mut idx = SiteIndex::new();
    idx.add_post(entry("p1", (2024, 1, 1)), &strings(&["a", "b"]));
    idx.add_post(entry("p2", (2024, 1, 2)), &strings(&["b", "c"]));
    assert_eq!(idx.tags, strings(&["a", "b", "c"]));
    assert_eq!(idx.posts.len(), 2);
}

#[test]
fn tags_sort_by_character_order() {
    let mut idx = SiteIndex::new();
    idx.add_post(entry("p", (2024, 1, 1)), &strings(&["rust", "Rust", "ru", "é", "z", "rust"]));
    assert_eq!(idx.tags, strings(&["Rust", "ru", "rust", "z", "é"]));
}

#[test]
fn index_page() {
    let mut idx = SiteIndex::new();
    idx.add_post(entry("old.html", (2020, 1, 1)), &strings(&["x"]));
    idx.add_post(entry("new.html", (2021, 1, 1)), &strings(&["w"]));
    let page = idx.render_index("[<!-- TAG FILTER BUTTONS -->][<!-- POST CARDS -->]");
    let card = |url: &str| {
        format!(
            "<article class=\"post-card\" data-tags=\"t\"><h2><a href=\"{url}\">T {url}</a></h2><div class=\"meta-line\"><span class=\"date\">D</span> — <span class=\"author\">A</span> — <span class=\"tags-inline\">t</span></div></article>\n"
        )
    };
    let want = format!(
        "[<button class=\"tag-filter-btn\" data-tag=\"w\">w</button>\n<button class=\"tag-filter-btn\" data-tag=\"x\">x</button>\n][{}{}]",
        card("new.html"),
        card("old.html")
    );
    assert_eq!(page, want);
}

#[test]
fn empty_index_page() {
    let idx = SiteIndex::new();
    assert_eq!(idx.render_index("a<!-- POST CARDS -->b"), "ab");
}
