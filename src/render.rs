//! A post's page: date text, the article fragment and the layout filled in.
use vstd::prelude::*;
use crate::filename::FileNameStruct;
use crate::frontmatter::{Frontmatter, FrontmatterView, string_views};
use crate::index::{PostIndex, PostIndexView};
use crate::text::{chars_of, push_chars, push_str, replace_all, replace_chars, string_of};

verus! {

/// The abbreviation of a month number; any other number is `Unknown`.
pub open spec fn month_name(month: int) -> Seq<char> {
    if month == 1 {
        "Jan"@
    } else if month == 2 {
        "Feb"@
    } else if month == 3 {
        "Mar"@
    } else if month == 4 {
        "Apr"@
    } else if month == 5 {
        "May"@
    } else if month == 6 {
        "June"@
    } else if month == 7 {
        "July"@
    } else if month == 8 {
        "Aug"@
    } else if month == 9 {
        "Sept"@
    } else if month == 10 {
        "Oct"@
    } else if month == 11 {
        "Nov"@
    } else if month == 12 {
        "Dec"@
    } else {
        "Unknown"@
    }
}

fn month_chars(month: i64) -> (r: Vec<char>)
    ensures
        r@ == month_name(month as int),
{
    let s = match month {
        1 => "Jan",
        2 => "Feb",
        3 => "Mar",
        4 => "Apr",
        5 => "May",
        6 => "June",
        7 => "July",
        8 => "Aug",
        9 => "Sept",
        10 => "Oct",
        11 => "Nov",
        12 => "Dec",
        _ => "Unknown",
    };
    chars_of(s)
}

/// The abbreviation of a month number, total over all integers.
pub fn month_abbrev(month: i64) -> (r: String)
    ensures
        r@ == month_name(month as int),
{
    string_of(&month_chars(month))
}

pub open spec fn digit_char(d: int) -> char {
    if d == 0 {
        '0'
    } else if d == 1 {
        '1'
    } else if d == 2 {
        '2'
    } else if d == 3 {
        '3'
    } else if d == 4 {
        '4'
    } else if d == 5 {
        '5'
    } else if d == 6 {
        '6'
    } else if d == 7 {
        '7'
    } else if d == 8 {
        '8'
    } else {
        '9'
    }
}

/// The base-10 digits of `n`, without leading zeros.
pub open spec fn nat_text(n: nat) -> Seq<char>
    decreases n,
{
    if n < 10 {
        seq![digit_char(n as int)]
    } else {
        nat_text(n / 10) + seq![digit_char((n % 10) as int)]
    }
}

/// `n` in base 10, with a leading `-` when negative.
pub open spec fn int_text(n: int) -> Seq<char> {
    if n < 0 {
        seq!['-'] + nat_text((-n) as nat)
    } else {
        nat_text(n as nat)
    }
}

fn digit(d: u64) -> (c: char)
    requires
        d < 10,
    ensures
        c == digit_char(d as int),
{
    match d {
        0 => '0',
        1 => '1',
        2 => '2',
        3 => '3',
        4 => '4',
        5 => '5',
        6 => '6',
        7 => '7',
        8 => '8',
        _ => '9',
    }
}

fn nat_chars(n: u64) -> (r: Vec<char>)
    ensures
        r@ == nat_text(n as nat),
    decreases n,
{
    if n < 10 {
        let mut r: Vec<char> = Vec::new();
        r.push(digit(n));
        assert(r@ =~= seq![digit_char(n as int)]);
        r
    } else {
        let mut r = nat_chars(n / 10);
        r.push(digit(n % 10));
        r
    }
}

/// `n` written in base 10.
pub fn int_chars(n: i64) -> (r: Vec<char>)
    ensures
        r@ == int_text(n as int),
{
    if n < 0 {
        let m: u64 = ((-(n + 1)) as u64) + 1;
        let mut r: Vec<char> = Vec::new();
        r.push('-');
        let d = nat_chars(m);
        push_chars(&mut r, &d);
        assert(r@ =~= seq!['-'] + d@);
        r
    } else {
        nat_chars(n as u64)
    }
}

/// A date as `Mon D, YYYY`.
pub open spec fn date_text(year: int, month: int, day: int) -> Seq<char> {
    month_name(month) + " "@ + int_text(day) + ", "@ + int_text(year)
}

/// Formats a date as `{month abbreviation} {day}, {year}`.
pub fn format_date(year: i32, month: i16, day: i16) -> (r: String)
    ensures
        r@ == date_text(year as int, month as int, day as int),
{
    let mut out = month_chars(month as i64);
    push_str(&mut out, " ");
    push_chars(&mut out, &int_chars(day as i64));
    push_str(&mut out, ", ");
    push_chars(&mut out, &int_chars(year as i64));
    string_of(&out)
}

/// The pieces joined, with `sep` between each two.
pub open spec fn join_text(parts: Seq<Seq<char>>, sep: Seq<char>) -> Seq<char>
    decreases parts.len(),
{
    if parts.len() == 0 {
        Seq::empty()
    } else if parts.len() == 1 {
        parts[0]
    } else {
        join_text(parts.drop_last(), sep) + sep + parts.last()
    }
}

/// Joins strings with `sep` between each two.
pub fn join(parts: &Vec<String>, sep: &str) -> (r: String)
    ensures
        r@ == join_text(string_views(parts@), sep@),
{
    let ghost ps = string_views(parts@);
    let mut out: Vec<char> = Vec::new();
    let mut i: usize = 0;
    assert(ps.take(0) =~= Seq::<Seq<char>>::empty());
    while i < parts.len()
        invariant
            i <= parts@.len(),
            ps == string_views(parts@),
            out@ == join_text(ps.take(i as int), sep@),
        decreases parts@.len() - i,
    {
        if i > 0 {
            push_str(&mut out, sep);
        }
        push_str(&mut out, parts[i].as_str());
        assert(ps.take(i + 1).drop_last() =~= ps.take(i as int));
        assert(i == 0 ==> out@ =~= ps.take(1)[0]);
        i = i + 1;
    }
    assert(ps.take(i as int) =~= ps);
    string_of(&out)
}

/// The `<article>` fragment of a post page.
pub open spec fn article_text(title: Seq<char>, date: Seq<char>, author: Seq<char>, tags: Seq<char>, body: Seq<char>) -> Seq<char> {
    "\n<article>\n  <h1>"@ + title + "</h1>\n  <div class=\"meta\"><span class=\"date\">"@ + date
        + "</span> — <span class=\"author\">by "@ + author
        + "</span> — <span class=\"tags-inline\">"@ + tags + "</span></div>\n"@ + body
        + "\n</article>"@
}

/// The page title element.
pub open spec fn title_text(title: Seq<char>) -> Seq<char> {
    "<title>Casper's Blog – "@ + title + "</title>"@
}

/// The copyright line.
pub open spec fn copyright_text(year: int, author: Seq<char>) -> Seq<char> {
    "© "@ + int_text(year) + " "@ + author
}

/// A post page: the layout with its three markers replaced, in this order.
pub open spec fn post_page_text(
    layout: Seq<char>,
    info: crate::filename::FileNameView,
    fm: FrontmatterView,
    body: Seq<char>,
) -> Seq<char> {
    let date = date_text(info.year, info.month, info.day);
    let tags = join_text(fm.categories, ", "@);
    let article = article_text(fm.title, date, fm.author, tags, body);
    replace_all(
        replace_all(
            replace_all(layout, "<!-- POST CONTENT -->"@, article),
            "<!-- POST TITLE -->"@,
            title_text(fm.title),
        ),
        "<!-- YEAR AUTHOR -->"@,
        copyright_text(info.year, fm.author),
    )
}

/// The index entry of a post.
pub open spec fn entry_of(info: crate::filename::FileNameView, fm: FrontmatterView) -> PostIndexView {
    PostIndexView {
        url: info.file_name + ".html"@,
        title: fm.title,
        sort_key: (info.year, info.month, info.day),
        date_str: date_text(info.year, info.month, info.day),
        author: fm.author,
        tags: join_text(fm.categories, ", "@),
    }
}

/// A rendered post: its page and its index entry.
pub struct RenderedPost {
    pub page: String,
    pub entry: PostIndex,
}

/// Renders a post's page from its file name, metadata and body HTML, and
/// summarises it for the index.
pub fn render_post(info: &FileNameStruct, fm: &Frontmatter, body_html: &str, layout: &str) -> (r: RenderedPost)
    ensures
        r.page@ == post_page_text(layout@, info@, fm@, body_html@),
        r.entry@ == entry_of(info@, fm@),
{
    let date = format_date(info.year, info.month, info.day);
    let tags = join(&fm.categories, ", ");

    let mut article: Vec<char> = Vec::new();
    push_str(&mut article, "\n<article>\n  <h1>");
    push_str(&mut article, fm.title.as_str());
    push_str(&mut article, "</h1>\n  <div class=\"meta\"><span class=\"date\">");
    push_str(&mut article, date.as_str());
    push_str(&mut article, "</span> — <span class=\"author\">by ");
    push_str(&mut article, fm.author.as_str());
    push_str(&mut article, "</span> — <span class=\"tags-inline\">");
    push_str(&mut article, tags.as_str());
    push_str(&mut article, "</span></div>\n");
    push_str(&mut article, body_html);
    push_str(&mut article, "\n</article>");

    let mut title: Vec<char> = Vec::new();
    push_str(&mut title, "<title>Casper's Blog – ");
    push_str(&mut title, fm.title.as_str());
    push_str(&mut title, "</title>");

    let mut copyright: Vec<char> = Vec::new();
    push_str(&mut copyright, "© ");
    push_chars(&mut copyright, &int_chars(info.year as i64));
    push_str(&mut copyright, " ");
    push_str(&mut copyright, fm.author.as_str());

    let content_marker = chars_of("<!-- POST CONTENT -->");
    let title_marker = chars_of("<!-- POST TITLE -->");
    let year_marker = chars_of("<!-- YEAR AUTHOR -->");
    proof {
        reveal_strlit("<!-- POST CONTENT -->");
        reveal_strlit("<!-- POST TITLE -->");
        reveal_strlit("<!-- YEAR AUTHOR -->");
    }
    let page0 = chars_of(layout);
    let page1 = replace_chars(&page0, &content_marker, &article);
    let page2 = replace_chars(&page1, &title_marker, &title);
    let page3 = replace_chars(&page2, &year_marker, &copyright);

    let mut url: Vec<char> = Vec::new();
    push_str(&mut url, info.file_name.as_str());
    push_str(&mut url, ".html");

    RenderedPost {
        page: string_of(&page3),
        entry: PostIndex {
            url: string_of(&url),
            title: fm.title.clone(),
            sort_key: (info.year, info.month, info.day),
            date_str: date,
            author: fm.author.clone(),
            tags,
        },
    }
}

} // verus!
