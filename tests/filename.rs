use static_blog::filename::parse_file_name;

#[test]
fn parses_date_and_slug() {
    let f = parse_file_name("2021-03-02-hello-world.md").unwrap();
    assert_eq!(f.file_name, "2021-03-02-hello-world");
    assert_eq!(f.year, 2021);
    assert_eq!(f.month, 3);
    assert_eq!(f.day, 2);
    assert_eq!(f.slug, "hello-world");
}

#[test]
fn slug_keeps_its_dashes() {
    let f = parse_file_name("1999-12-31-a-b-c-d.md").unwrap();
    assert_eq!((f.year, f.month, f.day), (1999, 12, 31));
    assert_eq!(f.slug, "a-b-c-d");
}

#[test]
fn name_without_extension_parses() {
    let f = parse_file_name("2024-01-05-x").unwrap();
    assert_eq!(f.file_name, "2024-01-05-x");
    assert_eq!(f.slug, "x");
}

#[test]
fn only_one_extension_is_stripped() {
    let f = parse_file_name("2024-01-05-x.md.md").unwrap();
    assert_eq!(f.file_name, "2024-01-05-x.md");
    assert_eq!(f.slug, "x.md");
}

#[test]
fn empty_slug_is_accepted() {
    let f = parse_file_name("2024-01-05-.md").unwrap();
    assert_eq!(f.slug, "");
}

#[test]
fn month_out_of_range_passes_through() {
    let f = parse_file_name("2024-13-40-x.md").unwrap();
    assert_eq!((f.month, f.day), (13, 40));
}

#[test]
fn signs_are_read_as_by_integer_parsing() {
    let f = parse_file_name("+2024-01-05-x.md").unwrap();
    assert_eq!(f.year, 2024);
    assert!(parse_file_name("--01-05-x.md").is_none());
}

#[test]
fn too_few_segments_is_no_post() {
    assert!(parse_file_name("2021-03-02.md").is_none());
    assert!(parse_file_name("about.md").is_none());
    assert!(parse_file_name("").is_none());
}

#[test]
fn non_numeric_date_is_no_post() {
    assert!(parse_file_name("abcd-03-02-x.md").is_none());
    assert!(parse_file_name("2021-3x-02-x.md").is_none());
    assert!(parse_file_name("2021-03- 2-x.md").is_none());
    assert!(parse_file_name("2021--02-x.md").is_none());
}

#[test]
fn out_of_range_numbers_are_no_post() {
    assert!(parse_file_name("2021-40000-02-x.md").is_none());
    assert!(parse_file_name("2147483648-01-01-x.md").is_none());
    let f = parse_file_name("2147483647-32767-32767-x.md").unwrap();
    assert_eq!((f.year, f.month, f.day), (2147483647, 32767, 32767));
    assert!(parse_file_name("2147483647--32768-1-x.md").is_none());
}
