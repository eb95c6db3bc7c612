//! The metadata block at the top of a post: flat `key: value` lines.
use vstd::prelude::*;
use crate::render::join_text;
use crate::text::{chars_eq, chars_of, copy_range, is_ws, lemma_concat_lacks, lemma_split_first, lemma_split_none, lemma_split_nonempty, lemma_split_prefix, lemma_split_suffix, split_chars, split_on, string_of, trim, trim_end, trim_start, trimmed, views};

verus! {

/// A post's metadata; absent keys leave their field empty.
pub struct Frontmatter {
    pub layout: String,
    pub title: String,
    pub author: String,
    pub categories: Vec<String>,
}

pub struct FrontmatterView {
    pub layout: Seq<char>,
    pub title: Seq<char>,
    pub author: Seq<char>,
    pub categories: Seq<Seq<char>>,
}

/// The views of a sequence of strings.
pub open spec fn string_views(v: Seq<String>) -> Seq<Seq<char>> {
    v.map_values(|s: String| s@)
}

impl View for Frontmatter {
    type V = FrontmatterView;

    open spec fn view(&self) -> FrontmatterView {
        FrontmatterView {
            layout: self.layout@,
            title: self.title@,
            author: self.author@,
            categories: string_views(self.categories@),
        }
    }
}

pub open spec fn empty_frontmatter() -> FrontmatterView {
    FrontmatterView {
        layout: Seq::empty(),
        title: Seq::empty(),
        author: Seq::empty(),
        categories: Seq::empty(),
    }
}

impl Frontmatter {
    /// Metadata with every field empty.
    pub fn new() -> (r: Frontmatter)
        ensures
            r@ == empty_frontmatter(),
    {
        let r = Frontmatter {
            layout: String::new(),
            title: String::new(),
            author: String::new(),
            categories: Vec::new(),
        };
        assert(r@.categories =~= Seq::<Seq<char>>::empty());
        r
    }
}

/// `v` without one `open` in front and one `close` at the end, when it has both.
pub open spec fn strip_pair(v: Seq<char>, open: char, close: char) -> Seq<char> {
    if v.len() >= 2 && v[0] == open && v.last() == close {
        v.subrange(1, v.len() - 1)
    } else {
        v
    }
}

/// A `categories` value: one pair of brackets dropped, then split at every
/// comma, each piece trimmed.
pub open spec fn categories_of(v: Seq<char>) -> Seq<Seq<char>> {
    split_on(strip_pair(v, '[', ']'), ',').map_values(|p: Seq<char>| trim(p))
}

/// What one line does to the metadata read so far: a line `key: value` (split
/// at its first colon) sets the field of a known key; other lines change nothing.
pub open spec fn apply_line(fm: FrontmatterView, line: Seq<char>) -> FrontmatterView {
    let segs = split_on(line, ':');
    if segs.len() < 2 {
        fm
    } else {
        let key = trim(segs[0]);
        let value = trim(line.skip(segs[0].len() as int + 1));
        if key == "layout"@ {
            FrontmatterView { layout: value, ..fm }
        } else if key == "title"@ {
            FrontmatterView { title: strip_pair(value, '"', '"'), ..fm }
        } else if key == "author"@ {
            FrontmatterView { author: strip_pair(value, '"', '"'), ..fm }
        } else if key == "categories"@ {
            FrontmatterView { categories: categories_of(value), ..fm }
        } else {
            fm
        }
    }
}

pub open spec fn frontmatter_of_lines(lines: Seq<Seq<char>>) -> FrontmatterView
    decreases lines.len(),
{
    if lines.len() == 0 {
        empty_frontmatter()
    } else {
        apply_line(frontmatter_of_lines(lines.drop_last()), lines.last())
    }
}

/// The metadata that a block's text gives, read line by line.
pub open spec fn frontmatter_of(text: Seq<char>) -> FrontmatterView {
    frontmatter_of_lines(split_on(text, '\n'))
}

fn strip_pair_chars(v: &Vec<char>, open: char, close: char) -> (r: Vec<char>)
    ensures
        r@ == strip_pair(v@, open, close),
{
    let n = v.len();
    if n >= 2 && v[0] == open && v[n - 1] == close {
        copy_range(v, 1, n - 1)
    } else {
        assert(v@.subrange(0, n as int) =~= v@);
        copy_range(v, 0, n)
    }
}

fn categories_chars(value: &Vec<char>) -> (r: Vec<String>)
    ensures
        string_views(r@) == categories_of(value@),
{
    let inner = strip_pair_chars(value, '[', ']');
    let parts = split_chars(&inner, ',');
    let ghost want = categories_of(value@);
    let mut out: Vec<String> = Vec::new();
    let mut i: usize = 0;
    while i < parts.len()
        invariant
            i <= parts@.len(),
            views(parts@) == split_on(inner@, ','),
            want == categories_of(value@),
            inner@ == strip_pair(value@, '[', ']'),
            string_views(out@) == want.take(i as int),
        decreases parts@.len() - i,
    {
        let t = trimmed(&parts[i]);
        assert(views(parts@)[i as int] == parts@[i as int]@);
        assert(want[i as int] == trim(parts@[i as int]@));
        let st = string_of(&t);
        let ghost o0 = out@;
        out.push(st);
        assert(string_views(out@) =~= string_views(o0).push(st@));
        assert(want.take(i + 1) =~= want.take(i as int).push(want[i as int]));
        i = i + 1;
    }
    assert(want.take(i as int) =~= want);
    out
}

/// Splits a `categories` value such as `[a, b,c]` into its trimmed items.
pub fn parse_categories(value: &str) -> (r: Vec<String>)
    ensures
        string_views(r@) == categories_of(value@),
{
    let v = chars_of(value);
    categories_chars(&v)
}

fn apply_line_chars(fm: &mut Frontmatter, line: &Vec<char>)
    ensures
        final(fm)@ == apply_line(old(fm)@, line@),
{
    let segs = split_chars(line, ':');
    if segs.len() < 2 {
        return;
    }
    let n = line.len();
    let l0 = segs[0].len();
    proof {
        lemma_split_first(line@, ':');
        assert(views(segs@)[0] == segs@[0]@);
    }
    let key = trimmed(&segs[0]);
    let rest = copy_range(line, l0 + 1, n);
    let value = trimmed(&rest);
    if chars_eq(&key, &chars_of("layout")) {
        fm.layout = string_of(&value);
    } else if chars_eq(&key, &chars_of("title")) {
        fm.title = string_of(&strip_pair_chars(&value, '"', '"'));
    } else if chars_eq(&key, &chars_of("author")) {
        fm.author = string_of(&strip_pair_chars(&value, '"', '"'));
    } else if chars_eq(&key, &chars_of("categories")) {
        fm.categories = categories_chars(&value);
    }
}

/// Reads the metadata out of a block's text.
pub fn parse_frontmatter_text(text: &str) -> (r: Frontmatter)
    ensures
        r@ == frontmatter_of(text@),
{
    let chars = chars_of(text);
    let lines = split_chars(&chars, '\n');
    let ghost ls = views(lines@);
    let mut fm = Frontmatter::new();
    let mut i: usize = 0;
    assert(ls.take(0) =~= Seq::<Seq<char>>::empty());
    while i < lines.len()
        invariant
            i <= lines@.len(),
            ls == views(lines@),
            ls == split_on(text@, '\n'),
            fm@ == frontmatter_of_lines(ls.take(i as int)),
        decreases lines@.len() - i,
    {
        apply_line_chars(&mut fm, &lines[i]);
        assert(ls.take(i + 1).drop_last() =~= ls.take(i as int));
        i = i + 1;
    }
    assert(ls.take(i as int) =~= ls);
    fm
}

/// The line `key: value`.
pub open spec fn meta_line(key: Seq<char>, value: Seq<char>) -> Seq<char> {
    key + seq![':', ' '] + value
}

/// A key made of lowercase letters.
spec fn is_key_word(k: Seq<char>) -> bool {
    k.len() > 0 && forall|i: int| 0 <= i < k.len() ==> 'a' <= #[trigger] k[i] <= 'z'
}

proof fn lemma_key_word(k: Seq<char>)
    requires
        is_key_word(k),
    ensures
        !k.contains(':'),
        !k.contains('\n'),
        trim(k) == k,
{
    assert('a' <= k[0] <= 'z');
    assert('a' <= k[k.len() - 1] <= 'z');
    assert(trim_start(k) == k);
    assert(trim_end(k) == k);
}

proof fn lemma_meta_line(key: Seq<char>, v: Seq<char>)
    requires
        is_key_word(key),
        trim(v) == v,
        !v.contains('\n'),
    ensures
        !meta_line(key, v).contains('\n'),
        split_on(meta_line(key, v), ':').len() >= 2,
        trim(split_on(meta_line(key, v), ':')[0]) == key,
        trim(meta_line(key, v).skip(split_on(meta_line(key, v), ':')[0].len() as int + 1)) == v,
{
    let line = meta_line(key, v);
    lemma_key_word(key);
    assert(line =~= key + seq![':'] + (seq![' '] + v));
    lemma_split_prefix(key, seq![' '] + v, ':');
    lemma_split_nonempty(seq![' '] + v, ':');
    assert(line.skip(key.len() as int + 1) =~= seq![' '] + v);
    assert((seq![' '] + v).drop_first() =~= v);
    assert(is_ws(' '));
    assert(trim_start(seq![' '] + v) == trim_start(v));
    assert(!seq![':', ' '].contains('\n')) by {
        if seq![':', ' '].contains('\n') {
            let k = choose|k: int| 0 <= k < 2 && seq![':', ' '][k] == '\n';
        }
    }
    lemma_concat_lacks(key, seq![':', ' '], '\n');
    lemma_concat_lacks(key + seq![':', ' '], v, '\n');
}

/// A block that sets all four keys, each value without line breaks or
/// surrounding whitespace, reads back as those values: the title and the
/// author without one pair of quotes, the categories split into their items.
pub proof fn lemma_frontmatter_round_trip(
    layout: Seq<char>,
    title: Seq<char>,
    author: Seq<char>,
    categories: Seq<char>,
)
    requires
        trim(layout) == layout && !layout.contains('\n'),
        trim(title) == title && !title.contains('\n'),
        trim(author) == author && !author.contains('\n'),
        trim(categories) == categories && !categories.contains('\n'),
    ensures
        frontmatter_of(
            meta_line("layout"@, layout) + seq!['\n'] + meta_line("title"@, title) + seq!['\n']
                + meta_line("author"@, author) + seq!['\n'] + meta_line("categories"@, categories),
        ) == (FrontmatterView {
            layout: layout,
            title: strip_pair(title, '"', '"'),
            author: strip_pair(author, '"', '"'),
            categories: categories_of(categories),
        }),
{
    reveal_strlit("layout");
    reveal_strlit("title");
    reveal_strlit("author");
    reveal_strlit("categories");
    let l1 = meta_line("layout"@, layout);
    let l2 = meta_line("title"@, title);
    let l3 = meta_line("author"@, author);
    let l4 = meta_line("categories"@, categories);
    lemma_meta_line("layout"@, layout);
    lemma_meta_line("title"@, title);
    lemma_meta_line("author"@, author);
    lemma_meta_line("categories"@, categories);
    let text = l1 + seq!['\n'] + l2 + seq!['\n'] + l3 + seq!['\n'] + l4;
    assert(text =~= l1 + seq!['\n'] + (l2 + seq!['\n'] + (l3 + seq!['\n'] + l4)));
    lemma_split_prefix(l1, l2 + seq!['\n'] + (l3 + seq!['\n'] + l4), '\n');
    assert(l2 + seq!['\n'] + (l3 + seq!['\n'] + l4) =~= l2 + seq!['\n'] + (l3 + seq!['\n'] + l4));
    lemma_split_prefix(l2, l3 + seq!['\n'] + l4, '\n');
    lemma_split_prefix(l3, l4, '\n');
    lemma_split_none(l4, '\n');
    let lines = split_on(text, '\n');
    assert(lines =~= seq![l1, l2, l3, l4]);
    assert(lines.drop_last() =~= seq![l1, l2, l3]);
    assert(seq![l1, l2, l3].drop_last() =~= seq![l1, l2]);
    assert(seq![l1, l2].drop_last() =~= seq![l1]);
    assert(seq![l1].drop_last() =~= Seq::<Seq<char>>::empty());
    assert("title"@ != "layout"@);
    assert("author"@ != "layout"@ && "author"@ != "title"@);
    assert("categories"@ != "layout"@ && "categories"@ != "title"@ && "categories"@ != "author"@);
    let f0 = empty_frontmatter();
    assert(frontmatter_of_lines(Seq::<Seq<char>>::empty()) == f0);
    let f1 = FrontmatterView { layout: layout, ..f0 };
    assert(apply_line(f0, l1) == f1);
    assert(frontmatter_of_lines(seq![l1]) == f1);
    let f2 = FrontmatterView { title: strip_pair(title, '"', '"'), ..f1 };
    assert(apply_line(f1, l2) == f2);
    assert(frontmatter_of_lines(seq![l1, l2]) == f2);
    let f3 = FrontmatterView { author: strip_pair(author, '"', '"'), ..f2 };
    assert(apply_line(f2, l3) == f3);
    assert(frontmatter_of_lines(seq![l1, l2, l3]) == f3);
    let f4 = FrontmatterView { categories: categories_of(categories), ..f3 };
    assert(apply_line(f3, l4) == f4);
    assert(frontmatter_of_lines(lines) == f4);
}

proof fn lemma_trim_after_space(v: Seq<char>)
    requires
        trim(v) == v,
    ensures
        trim(seq![' '] + v) == v,
{
    assert((seq![' '] + v).drop_first() =~= v);
    assert(is_ws(' '));
}

proof fn lemma_split_joined(items: Seq<Seq<char>>)
    requires
        items.len() >= 1,
        forall|k: int| 0 <= k < items.len() ==> !(#[trigger] items[k]).contains(','),
    ensures
        ({
            let parts = split_on(join_text(items, ", "@), ',');
            &&& parts.len() == items.len()
            &&& parts[0] == items[0]
            &&& forall|k: int| 1 <= k < items.len() ==> #[trigger] parts[k] == seq![' '] + items[k]
        }),
    decreases items.len(),
{
    reveal_strlit(", ");
    if items.len() == 1 {
        assert(!items[0].contains(','));
        lemma_split_none(items[0], ',');
    } else {
        let init = items.drop_last();
        let last = items.last();
        assert(!last.contains(','));
        assert forall|k: int| 0 <= k < init.len() implies !(#[trigger] init[k]).contains(',') by {
            assert(!items[k].contains(','));
        }
        lemma_split_joined(init);
        assert(!(seq![' '] + last).contains(',')) by {
            if (seq![' '] + last).contains(',') {
                let k = choose|k: int| 0 <= k < last.len() + 1 && (seq![' '] + last)[k] == ',';
                assert(last[k - 1] == ',');
            }
        }
        let j = join_text(init, ", "@);
        assert(", "@ =~= seq![',', ' ']);
        assert(join_text(items, ", "@) =~= j + seq![','] + (seq![' '] + last));
        lemma_split_suffix(j, seq![' '] + last, ',');
        let parts = split_on(join_text(items, ", "@), ',');
        assert forall|k: int| 1 <= k < items.len() implies #[trigger] parts[k] == seq![' '] + items[k] by {
            if k < init.len() {
                assert(split_on(j, ',')[k] == seq![' '] + init[k]);
            }
        }
    }
}

/// A list written as `[` item `, ` item ... `]`, each item without commas or
/// surrounding whitespace, reads back as exactly those items.
pub proof fn lemma_categories_round_trip(items: Seq<Seq<char>>)
    requires
        items.len() >= 1,
        forall|k: int| 0 <= k < items.len() ==> !(#[trigger] items[k]).contains(','),
        forall|k: int| 0 <= k < items.len() ==> trim(#[trigger] items[k]) == items[k],
    ensures
        categories_of(seq!['['] + join_text(items, ", "@) + seq![']']) == items,
{
    let j = join_text(items, ", "@);
    let v = seq!['['] + j + seq![']'];
    assert(v.subrange(1, v.len() - 1) =~= j);
    assert(strip_pair(v, '[', ']') == j);
    lemma_split_joined(items);
    let parts = split_on(j, ',');
    let got = parts.map_values(|p: Seq<char>| trim(p));
    assert forall|k: int| 0 <= k < items.len() implies got[k] == items[k] by {
        assert(trim(items[k]) == items[k]);
        if k >= 1 {
            assert(parts[k] == seq![' '] + items[k]);
            lemma_trim_after_space(items[k]);
        }
    }
    assert(got =~= items);
}

} // verus!
