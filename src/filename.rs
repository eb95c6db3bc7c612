//! Post file names of the shape `YYYY-MM-DD-slug.md`.
use vstd::prelude::*;
use crate::text::{chars_of, copy_range, split_chars, split_on, string_of, lemma_split_first, lemma_split_nonempty, lemma_split_prefix};

verus! {

pub open spec fn is_digit(c: char) -> bool {
    '0' <= c <= '9'
}

pub open spec fn all_digits(s: Seq<char>) -> bool {
    forall|i: int| 0 <= i < s.len() ==> is_digit(#[trigger] s[i])
}

/// The value of a string of decimal digits.
pub open spec fn digits_val(s: Seq<char>) -> int
    decreases s.len(),
{
    if s.len() == 0 {
        0
    } else {
        digits_val(s.drop_last()) * 10 + (s.last() as u32 - 48)
    }
}

/// The integer that `s` writes in base 10: an optional sign, then one or more digits.
pub open spec fn decimal_of(s: Seq<char>) -> Option<int> {
    if s.len() > 0 && (s[0] == '+' || s[0] == '-') {
        let d = s.drop_first();
        if d.len() > 0 && all_digits(d) {
            Some(
                if s[0] == '-' {
                    -digits_val(d)
                } else {
                    digits_val(d)
                },
            )
        } else {
            None
        }
    } else if s.len() > 0 && all_digits(s) {
        Some(digits_val(s))
    } else {
        None
    }
}

/// What `s` parses to as an integer type whose values are `lo..=hi`.
pub open spec fn int_in(s: Seq<char>, lo: int, hi: int) -> Option<int> {
    match decimal_of(s) {
        Some(v) => if lo <= v <= hi {
            Some(v)
        } else {
            None
        },
        None => None,
    }
}

proof fn lemma_digits_prefix(s: Seq<char>, k: int)
    requires
        all_digits(s),
        0 <= k <= s.len(),
    ensures
        0 <= digits_val(s.take(k)) <= digits_val(s),
    decreases s.len(),
{
    if s.len() > 0 {
        let t = s.drop_last();
        assert(all_digits(t)) by {
            assert forall|i: int| 0 <= i < t.len() implies is_digit(#[trigger] t[i]) by {
                assert(is_digit(s[i]));
            }
        }
        assert(is_digit(s[s.len() - 1]));
        if k < s.len() {
            assert(s.take(k) =~= t.take(k));
            lemma_digits_prefix(t, k);
        } else {
            assert(s.take(k) =~= s);
        }
        lemma_digits_prefix(t, t.len() as int);
        assert(t.take(t.len() as int) =~= t);
    }
}

/// Parses `s[from..]` as a base-10 integer in `lo..=hi`.
fn parse_int(s: &Vec<char>, lo: i64, hi: i64) -> (r: Option<i64>)
    requires
        -0x1_0000_0000 <= lo <= 0 <= hi <= 0x1_0000_0000,
    ensures
        match r {
            Some(v) => int_in(s@, lo as int, hi as int) == Some(v as int),
            None => int_in(s@, lo as int, hi as int) is None,
        },
{
    let n = s.len();
    if n == 0 {
        return None;
    }
    let neg = s[0] == '-';
    let st: usize = if s[0] == '+' || s[0] == '-' { 1 } else { 0 };
    if st == n {
        return None;
    }
    let ghost d = s@.skip(st as int);
    assert(st == 1 ==> d =~= s@.drop_first());
    assert(st == 0 ==> d =~= s@);
    let mut k: usize = st;
    while k < n
        invariant
            st <= k <= n == s@.len(),
            d == s@.skip(st as int),
            st < n,
            (st == 1) == (s@[0] == '+' || s@[0] == '-'),
            st == 0 || st == 1,
            neg == (s@[0] == '-'),
            forall|i: int| st <= i < k ==> is_digit(#[trigger] s@[i]),
        decreases n - k,
    {
        let c = s[k];
        if c < '0' || c > '9' {
            assert(!is_digit(d[k - st]));
            assert(!all_digits(d));
            assert(decimal_of(s@) is None);
            return None;
        }
        k = k + 1;
    }
    assert(all_digits(d)) by {
        assert forall|i: int| 0 <= i < d.len() implies is_digit(#[trigger] d[i]) by {
            assert(is_digit(s@[i + st]));
        }
    }
    let limit: i64 = if neg { -lo } else { hi };
    let mut acc: i64 = 0;
    let mut k: usize = st;
    assert(s@.subrange(st as int, st as int) =~= d.take(0));
    while k < n
        invariant
            st <= k <= n == s@.len(),
            d == s@.skip(st as int),
            st < n,
            (st == 1) == (s@[0] == '+' || s@[0] == '-'),
            st == 0 || st == 1,
            neg == (s@[0] == '-'),
            all_digits(d),
            0 <= acc <= limit <= 0x1_0000_0000,
            limit == if neg { -lo } else { hi as int },
            acc == digits_val(d.take(k - st)),
        decreases n - k,
    {
        assert(is_digit(d[k - st]));
        assert(d.take(k + 1 - st).drop_last() =~= d.take(k - st));
        assert(d.take(k + 1 - st).last() == s@[k as int]);
        let dg = (s[k] as u32 - 48) as i64;
        acc = acc * 10 + dg;
        k = k + 1;
        if acc > limit {
            proof {
                lemma_digits_prefix(d, k - st);
                assert(digits_val(d) > limit);
                assert(st == 1 ==> d =~= s@.drop_first());
                assert(st == 0 ==> d =~= s@);
                assert(decimal_of(s@) == Some(if neg { -digits_val(d) } else { digits_val(d) }));
            }
            return None;
        }
    }
    assert(d.take(n - st) =~= d);
    if neg {
        Some(-acc)
    } else {
        Some(acc)
    }
}

/// `s` without one trailing `.md`, if it ends with one.
pub open spec fn strip_md(s: Seq<char>) -> Seq<char> {
    if s.len() >= 3 && s.skip(s.len() - 3) == seq!['.', 'm', 'd'] {
        s.take(s.len() - 3)
    } else {
        s
    }
}

/// What a post's file name says.
pub struct FileNameStruct {
    /// The file name without its `.md` extension.
    pub file_name: String,
    pub year: i32,
    pub month: i16,
    pub day: i16,
    /// All that follows the third dash.
    pub slug: String,
}

pub struct FileNameView {
    pub file_name: Seq<char>,
    pub year: int,
    pub month: int,
    pub day: int,
    pub slug: Seq<char>,
}

impl View for FileNameStruct {
    type V = FileNameView;

    open spec fn view(&self) -> FileNameView {
        FileNameView {
            file_name: self.file_name@,
            year: self.year as int,
            month: self.month as int,
            day: self.day as int,
            slug: self.slug@,
        }
    }
}

/// The post that a file name describes: the name without `.md` must split at
/// its first three dashes into a year (an `i32`), a month and a day (`i16`
/// each) and the slug; otherwise it is no post.
pub open spec fn file_name_of(name: Seq<char>) -> Option<FileNameView> {
    let stem = strip_md(name);
    let segs = split_on(stem, '-');
    if segs.len() < 4 {
        None
    } else {
        match (
            int_in(segs[0], -0x8000_0000, 0x7fff_ffff),
            int_in(segs[1], -0x8000, 0x7fff),
            int_in(segs[2], -0x8000, 0x7fff),
        ) {
            (Some(y), Some(m), Some(d)) => Some(
                FileNameView {
                    file_name: stem,
                    year: y,
                    month: m,
                    day: d,
                    slug: stem.skip(segs[0].len() as int + segs[1].len() + segs[2].len() + 3),
                },
            ),
            _ => None,
        }
    }
}

/// Parses a post's file name; `None` means the file is no post.
pub fn parse_file_name(file_name: &str) -> (r: Option<FileNameStruct>)
    ensures
        match r {
            Some(f) => file_name_of(file_name@) == Some(f@),
            None => file_name_of(file_name@) is None,
        },
{
    let name = chars_of(file_name);
    let n = name.len();
    let stem = if n >= 3 && name[n - 3] == '.' && name[n - 2] == 'm' && name[n - 1] == 'd' {
        assert(name@.skip(n - 3) =~= seq!['.', 'm', 'd']);
        copy_range(&name, 0, n - 3)
    } else {
        assert(n >= 3 ==> name@.skip(n - 3)[0] == name@[n - 3]);
        assert(n >= 3 ==> name@.skip(n - 3)[1] == name@[n - 2]);
        assert(n >= 3 ==> name@.skip(n - 3)[2] == name@[n - 1]);
        assert(name@.take(n as int) =~= name@);
        copy_range(&name, 0, n)
    };
    assert(stem@ == strip_md(file_name@));
    let parts = split_chars(&stem, '-');
    let ghost segs = split_on(stem@, '-');
    if parts.len() < 4 {
        return None;
    }
    assert(parts[0]@ == segs[0] && parts[1]@ == segs[1] && parts[2]@ == segs[2]);
    let year = match parse_int(&parts[0], -0x8000_0000, 0x7fff_ffff) {
        Some(v) => v as i32,
        None => return None,
    };
    let month = match parse_int(&parts[1], -0x8000, 0x7fff) {
        Some(v) => v as i16,
        None => return None,
    };
    let day = match parse_int(&parts[2], -0x8000, 0x7fff) {
        Some(v) => v as i16,
        None => return None,
    };
    let l0 = parts[0].len();
    let l1 = parts[1].len();
    let l2 = parts[2].len();
    proof {
        let t1 = stem@.skip(l0 + 1);
        let t2 = t1.skip(l1 + 1);
        lemma_split_first(stem@, '-');
        lemma_split_first(t1, '-');
        lemma_split_first(t2, '-');
        assert(t2.skip(l2 + 1) =~= stem@.skip(l0 + l1 + l2 + 3));
    }
    let slug = copy_range(&stem, l0 + l1 + l2 + 3, stem.len());
    Some(
        FileNameStruct {
            file_name: string_of(&stem),
            year,
            month,
            day,
            slug: string_of(&slug),
        },
    )
}

proof fn lemma_digits_have_no_dash(s: Seq<char>)
    requires
        all_digits(s),
    ensures
        !s.contains('-'),
{
    if s.contains('-') {
        let k = choose|k: int| 0 <= k < s.len() && s[k] == '-';
        assert(is_digit(s[k]));
    }
}

proof fn lemma_decimal_of_digits(s: Seq<char>)
    requires
        s.len() > 0,
        all_digits(s),
    ensures
        decimal_of(s) == Some(digits_val(s)),
        digits_val(s) >= 0,
{
    assert(is_digit(s[0]));
    lemma_digits_prefix(s, 0);
    assert(s.take(0) =~= Seq::<char>::empty());
}

/// A file name made of a year, a month and a day written in digits, a slug
/// (which may hold dashes of its own) and `.md` is parsed back into exactly
/// those parts.
pub proof fn lemma_file_name_recovered(ys: Seq<char>, ms: Seq<char>, ds: Seq<char>, slug: Seq<char>)
    requires
        ys.len() > 0 && all_digits(ys) && digits_val(ys) <= 0x7fff_ffff,
        ms.len() > 0 && all_digits(ms) && digits_val(ms) <= 0x7fff,
        ds.len() > 0 && all_digits(ds) && digits_val(ds) <= 0x7fff,
    ensures
        file_name_of(ys + seq!['-'] + ms + seq!['-'] + ds + seq!['-'] + slug + seq!['.', 'm', 'd'])
            == Some(
            FileNameView {
                file_name: ys + seq!['-'] + ms + seq!['-'] + ds + seq!['-'] + slug,
                year: digits_val(ys),
                month: digits_val(ms),
                day: digits_val(ds),
                slug: slug,
            },
        ),
{
    let stem = ys + seq!['-'] + ms + seq!['-'] + ds + seq!['-'] + slug;
    let name = stem + seq!['.', 'm', 'd'];
    assert(name.skip(name.len() - 3) =~= seq!['.', 'm', 'd']);
    assert(name.take(name.len() - 3) =~= stem);
    let t2 = ds + seq!['-'] + slug;
    let t1 = ms + seq!['-'] + t2;
    assert(stem =~= ys + seq!['-'] + t1);
    lemma_digits_have_no_dash(ys);
    lemma_digits_have_no_dash(ms);
    lemma_digits_have_no_dash(ds);
    lemma_split_prefix(ys, t1, '-');
    lemma_split_prefix(ms, t2, '-');
    lemma_split_prefix(ds, slug, '-');
    lemma_split_nonempty(slug, '-');
    let segs = split_on(stem, '-');
    assert(segs == seq![ys] + (seq![ms] + (seq![ds] + split_on(slug, '-'))));
    assert(segs[0] == ys && segs[1] == ms && segs[2] == ds);
    lemma_decimal_of_digits(ys);
    lemma_decimal_of_digits(ms);
    lemma_decimal_of_digits(ds);
    assert(stem.skip(ys.len() as int + ms.len() + ds.len() + 3) =~= slug);
}

/// A file name whose part before `.md` has fewer than four dash-separated
/// pieces, or whose year, month or day piece holds a character other than a
/// digit (a sign may only lead), is no post.
pub proof fn lemma_file_name_rejected(name: Seq<char>, k: int, j: int)
    requires
        split_on(strip_md(name), '-').len() < 4 || ({
            let seg = split_on(strip_md(name), '-')[k];
            &&& 0 <= k < 3
            &&& 0 <= j < seg.len()
            &&& !is_digit(seg[j])
            &&& (j > 0 || (seg[j] != '+' && seg[j] != '-'))
        }),
    ensures
        file_name_of(name) is None,
{
    let segs = split_on(strip_md(name), '-');
    if segs.len() >= 4 {
        let seg = segs[k];
        if seg[0] == '+' || seg[0] == '-' {
            assert(!is_digit(seg.drop_first()[j - 1]));
        } else {
            assert(!is_digit(seg[j]));
        }
        assert(decimal_of(seg) is None);
    }
}

} // verus!
