//! The site index: every post's summary, most recent first, and the tags.
use vstd::prelude::*;
use vstd::set_lib::{lemma_int_range, lemma_subset_equality, set_int_range};
use crate::frontmatter::string_views;
use crate::text::{chars_of, push_str, replace_all, replace_chars, string_of};

verus! {

/// One post as the index lists it.
pub struct PostIndex {
    /// The page's file name, relative to the index.
    pub url: String,
    pub title: String,
    /// `(year, month, day)`; the index lists greater keys first.
    pub sort_key: (i32, i16, i16),
    pub date_str: String,
    pub author: String,
    /// The categories joined with `, `.
    pub tags: String,
}

pub struct PostIndexView {
    pub url: Seq<char>,
    pub title: Seq<char>,
    pub sort_key: (int, int, int),
    pub date_str: Seq<char>,
    pub author: Seq<char>,
    pub tags: Seq<char>,
}

impl View for PostIndex {
    type V = PostIndexView;

    open spec fn view(&self) -> PostIndexView {
        PostIndexView {
            url: self.url@,
            title: self.title@,
            sort_key: (self.sort_key.0 as int, self.sort_key.1 as int, self.sort_key.2 as int),
            date_str: self.date_str@,
            author: self.author@,
            tags: self.tags@,
        }
    }
}

/// Whether date `a` is later than date `b`, both `(year, month, day)`.
pub open spec fn later(a: (int, int, int), b: (int, int, int)) -> bool {
    a.0 > b.0 || (a.0 == b.0 && (a.1 > b.1 || (a.1 == b.1 && a.2 > b.2)))
}

/// Whether post `i` is listed before post `j`: a later date first, and of
/// two posts of one date the one added first.
pub open spec fn listed_before(posts: Seq<PostIndexView>, i: int, j: int) -> bool {
    later(posts[i].sort_key, posts[j].sort_key) || (posts[i].sort_key == posts[j].sort_key && i < j)
}

/// `ord` lists every post's position once, most recent first, ties in the order
/// in which the posts were added.
pub open spec fn is_index_order(posts: Seq<PostIndexView>, ord: Seq<usize>) -> bool {
    &&& ord.len() == posts.len()
    &&& forall|k: int| 0 <= k < ord.len() ==> ord[k] < posts.len()
    &&& forall|a: int, b: int|
        0 <= a < b < ord.len() ==> #[trigger] listed_before(posts, ord[a] as int, ord[b] as int)
}

pub open spec fn post_views(posts: Seq<PostIndex>) -> Seq<PostIndexView> {
    posts.map_values(|p: PostIndex| p@)
}

fn later_exec(a: (i32, i16, i16), b: (i32, i16, i16)) -> (r: bool)
    ensures
        r == later((a.0 as int, a.1 as int, a.2 as int), (b.0 as int, b.1 as int, b.2 as int)),
{
    a.0 > b.0 || (a.0 == b.0 && (a.1 > b.1 || (a.1 == b.1 && a.2 > b.2)))
}

/// The order in which the index lists `posts`.
pub fn index_order(posts: &Vec<PostIndex>) -> (r: Vec<usize>)
    ensures
        is_index_order(post_views(posts@), r@),
{
    let ghost ps = post_views(posts@);
    let n = posts.len();
    let mut ord: Vec<usize> = Vec::new();
    let mut i: usize = 0;
    while i < n
        invariant
            i <= n == posts@.len() == ps.len(),
            ps == post_views(posts@),
            ord@.len() == i,
            forall|k: int| 0 <= k < ord@.len() ==> ord@[k] < i,
            forall|a: int, b: int|
                0 <= a < b < ord@.len() ==> #[trigger] listed_before(ps, ord@[a] as int, ord@[b] as int),
        decreases n - i,
    {
        let key = posts[i].sort_key;
        let mut p: usize = 0;
        while p < ord.len() && !later_exec(key, posts[ord[p]].sort_key)
            invariant
                i < n == posts@.len() == ps.len(),
                ps == post_views(posts@),
                key == posts@[i as int].sort_key,
                p <= ord@.len() == i,
                forall|k: int| 0 <= k < ord@.len() ==> ord@[k] < i,
                forall|k: int| 0 <= k < p ==> !later(ps[i as int].sort_key, #[trigger] ps[ord@[k] as int].sort_key),
            decreases ord@.len() - p,
        {
            p = p + 1;
        }
        let ghost o0 = ord@;
        ord.insert(p, i);
        proof {
            assert(ord@ == o0.insert(p as int, i));
            assert forall|a: int, b: int| 0 <= a < b < ord@.len() implies #[trigger] listed_before(ps, ord@[a] as int, ord@[b] as int) by {
                if b < p {
                    assert(listed_before(ps, o0[a] as int, o0[b] as int));
                } else if b == p {
                    assert(!later(ps[i as int].sort_key, ps[o0[a] as int].sort_key));
                } else if a > p {
                    assert(listed_before(ps, o0[a - 1] as int, o0[b - 1] as int));
                } else if a == p {
                    assert(later(ps[i as int].sort_key, ps[o0[p as int] as int].sort_key));
                    if b - 1 > p {
                        assert(listed_before(ps, o0[p as int] as int, o0[b - 1] as int));
                    }
                } else {
                    assert(listed_before(ps, o0[a] as int, o0[b - 1] as int));
                }
            }
        }
        i = i + 1;
    }
    ord
}

/// Whether `a` sorts before `b`: the order of strings, character by character.
pub open spec fn text_less(a: Seq<char>, b: Seq<char>) -> bool
    decreases a.len(),
{
    if a.len() == 0 {
        b.len() > 0
    } else if b.len() == 0 {
        false
    } else if a[0] != b[0] {
        a[0] < b[0]
    } else {
        text_less(a.drop_first(), b.drop_first())
    }
}

proof fn lemma_text_less_irreflexive(a: Seq<char>)
    ensures
        !text_less(a, a),
    decreases a.len(),
{
    if a.len() > 0 {
        lemma_text_less_irreflexive(a.drop_first());
    }
}

proof fn lemma_text_less_total(a: Seq<char>, b: Seq<char>)
    requires
        a != b,
    ensures
        text_less(a, b) || text_less(b, a),
    decreases a.len(),
{
    if a.len() > 0 && b.len() > 0 && a[0] == b[0] {
        if a.drop_first() == b.drop_first() {
            assert(a =~= seq![a[0]] + a.drop_first());
            assert(b =~= seq![b[0]] + b.drop_first());
        }
        lemma_text_less_total(a.drop_first(), b.drop_first());
    } else if a.len() == 0 && b.len() == 0 {
        assert(a =~= b);
    }
}

proof fn lemma_text_less_transitive(a: Seq<char>, b: Seq<char>, c: Seq<char>)
    requires
        text_less(a, b),
        text_less(b, c),
    ensures
        text_less(a, c),
    decreases a.len(),
{
    if a.len() > 0 && b.len() > 0 && c.len() > 0 && a[0] == b[0] && b[0] == c[0] {
        lemma_text_less_transitive(a.drop_first(), b.drop_first(), c.drop_first());
    }
}

/// Whether `t` is sorted, each item before the next, hence without repeats.
pub open spec fn strictly_sorted(t: Seq<Seq<char>>) -> bool {
    forall|i: int, j: int| 0 <= i < j < t.len() ==> #[trigger] text_less(t[i], t[j])
}

fn text_lt(a: &Vec<char>, b: &Vec<char>) -> (r: bool)
    ensures
        r == text_less(a@, b@),
{
    let mut i: usize = 0;
    assert(a@.skip(0) =~= a@ && b@.skip(0) =~= b@);
    while i < a.len() && i < b.len() && a[i] == b[i]
        invariant
            i <= a@.len() && i <= b@.len(),
            text_less(a@, b@) == text_less(a@.skip(i as int), b@.skip(i as int)),
        decreases a@.len() - i,
    {
        assert(a@.skip(i as int).drop_first() =~= a@.skip(i + 1));
        assert(b@.skip(i as int).drop_first() =~= b@.skip(i + 1));
        i = i + 1;
    }
    if i == a.len() {
        i < b.len()
    } else if i == b.len() {
        false
    } else {
        a[i] < b[i]
    }
}

/// Every post added so far and the set of their categories.
pub struct SiteIndex {
    pub posts: Vec<PostIndex>,
    pub tags: Vec<String>,
}

impl SiteIndex {
    /// The tags are kept sorted and without repeats.
    pub open spec fn wf(&self) -> bool {
        strictly_sorted(string_views(self.tags@))
    }

    /// An index with no post and no tag.
    pub fn new() -> (r: SiteIndex)
        ensures
            r.wf(),
            r.posts@.len() == 0,
            r.tags@.len() == 0,
    {
        SiteIndex { posts: Vec::new(), tags: Vec::new() }
    }

    /// Adds a tag to the set.
    pub fn add_tag(&mut self, tag: &String)
        requires
            old(self).wf(),
        ensures
            final(self).wf(),
            final(self).posts@ == old(self).posts@,
            forall|x: Seq<char>|
                string_views(final(self).tags@).contains(x) <==> (string_views(
                    old(self).tags@,
                ).contains(x) || x == tag@),
    {
        let ghost t0 = string_views(self.tags@);
        let tc = chars_of(tag.as_str());
        let n = self.tags.len();
        let mut p: usize = 0;
        while p < n && text_lt(&chars_of(self.tags[p].as_str()), &tc)
            invariant
                p <= n == self.tags@.len(),
                t0 == string_views(self.tags@),
                tc@ == tag@,
                forall|k: int| 0 <= k < p ==> text_less(#[trigger] t0[k], tag@),
            decreases n - p,
        {
            p = p + 1;
        }
        if p < n && self.tags[p] == *tag {
            assert(t0[p as int] == tag@);
            return;
        }
        let ghost old_tags = self.tags@;
        self.tags.insert(p, tag.clone());
        proof {
            let t1 = string_views(self.tags@);
            assert(t1 =~= t0.insert(p as int, tag@));
            if p < n {
                assert(t0[p as int] != tag@);
                lemma_text_less_total(t0[p as int], tag@);
            }
            assert forall|i: int, j: int| 0 <= i < j < t1.len() implies #[trigger] text_less(t1[i], t1[j]) by {
                if j < p {
                    assert(text_less(t0[i], t0[j]));
                } else if j == p {
                } else if i > p {
                    assert(text_less(t0[i - 1], t0[j - 1]));
                } else if i == p {
                    if j - 1 > p {
                        assert(text_less(t0[p as int], t0[j - 1]));
                        lemma_text_less_transitive(tag@, t0[p as int], t0[j - 1]);
                    }
                } else {
                    assert(text_less(t0[i], t0[j - 1]));
                }
            }
            assert forall|x: Seq<char>| t1.contains(x) <==> (t0.contains(x) || x == tag@) by {
                if t0.contains(x) {
                    let k = choose|k: int| 0 <= k < t0.len() && t0[k] == x;
                    if k < p {
                        assert(t1[k] == x);
                    } else {
                        assert(t1[k + 1] == x);
                    }
                }
                if x == tag@ {
                    assert(t1[p as int] == x);
                }
                if t1.contains(x) {
                    let k = choose|k: int| 0 <= k < t1.len() && t1[k] == x;
                    if k < p {
                        assert(t0[k] == x);
                    } else if k > p {
                        assert(t0[k - 1] == x);
                    }
                }
            }
        }
    }

    /// Adds a rendered post and its categories.
    pub fn add_post(&mut self, entry: PostIndex, categories: &Vec<String>)
        requires
            old(self).wf(),
        ensures
            final(self).wf(),
            final(self).posts@ == old(self).posts@.push(entry),
            forall|x: Seq<char>|
                string_views(final(self).tags@).contains(x) <==> (string_views(
                    old(self).tags@,
                ).contains(x) || string_views(categories@).contains(x)),
    {
        let ghost t0 = string_views(self.tags@);
        let ghost cs = string_views(categories@);
        self.posts.push(entry);
        let ghost posts1 = self.posts@;
        let mut i: usize = 0;
        while i < categories.len()
            invariant
                i <= categories@.len(),
                cs == string_views(categories@),
                self.wf(),
                self.posts@ == posts1,
                forall|x: Seq<char>|
                    string_views(self.tags@).contains(x) <==> (t0.contains(x) || cs.take(
                        i as int,
                    ).contains(x)),
            decreases categories@.len() - i,
        {
            let ghost prev = string_views(self.tags@);
            self.add_tag(&categories[i]);
            proof {
                assert(cs.take(i + 1) =~= cs.take(i as int).push(cs[i as int]));
                assert(cs[i as int] == categories@[i as int]@);
                let tn = cs.take(i + 1);
                let tp = cs.take(i as int);
                assert forall|x: Seq<char>| tn.contains(x) <==> (tp.contains(x) || x == cs[i as int]) by {
                    if tn.contains(x) {
                        let k = choose|k: int| 0 <= k < tn.len() && tn[k] == x;
                        if k < i {
                            assert(tp[k] == x);
                        }
                    }
                    if tp.contains(x) {
                        let k = choose|k: int| 0 <= k < tp.len() && tp[k] == x;
                        assert(tn[k] == x);
                    }
                    if x == cs[i as int] {
                        assert(tn[i as int] == x);
                    }
                }
                assert forall|x: Seq<char>| string_views(self.tags@).contains(x) <==> (t0.contains(x) || tn.contains(x)) by {
                    assert(prev.contains(x) <==> (t0.contains(x) || tp.contains(x)));
                    assert(tn.contains(x) <==> (tp.contains(x) || x == cs[i as int]));
                }
            }
            i = i + 1;
        }
        assert(cs.take(i as int) =~= cs);
        assert forall|x: Seq<char>| string_views(self.tags@).contains(x) <==> (t0.contains(x) || cs.contains(x)) by {
            assert(string_views(self.tags@).contains(x) <==> (t0.contains(x) || cs.take(i as int).contains(x)));
        }
    }
}

/// The filter button of a tag.
pub open spec fn button_text(tag: Seq<char>) -> Seq<char> {
    "<button class=\"tag-filter-btn\" data-tag=\""@ + tag + "\">"@ + tag + "</button>\n"@
}

/// The filter buttons of the tags, in their order.
pub open spec fn buttons_text(tags: Seq<Seq<char>>) -> Seq<char>
    decreases tags.len(),
{
    if tags.len() == 0 {
        Seq::empty()
    } else {
        buttons_text(tags.drop_last()) + button_text(tags.last())
    }
}

/// The card of a post.
pub open spec fn card_text(p: PostIndexView) -> Seq<char> {
    "<article class=\"post-card\" data-tags=\""@ + p.tags + "\"><h2><a href=\""@ + p.url + "\">"@
        + p.title + "</a></h2><div class=\"meta-line\"><span class=\"date\">"@ + p.date_str
        + "</span> — <span class=\"author\">"@ + p.author + "</span> — <span class=\"tags-inline\">"@
        + p.tags + "</span></div></article>\n"@
}

/// The cards of the posts at the positions `ord`, in that order.
pub open spec fn cards_text(posts: Seq<PostIndexView>, ord: Seq<usize>) -> Seq<char>
    decreases ord.len(),
{
    if ord.len() == 0 {
        Seq::empty()
    } else {
        cards_text(posts, ord.drop_last()) + card_text(posts[ord.last() as int])
    }
}

/// The index page: the layout with the buttons and the cards in place of their markers.
pub open spec fn index_page_text(
    layout: Seq<char>,
    tags: Seq<Seq<char>>,
    posts: Seq<PostIndexView>,
    ord: Seq<usize>,
) -> Seq<char> {
    replace_all(
        replace_all(layout, "<!-- TAG FILTER BUTTONS -->"@, buttons_text(tags)),
        "<!-- POST CARDS -->"@,
        cards_text(posts, ord),
    )
}

fn push_card(out: &mut Vec<char>, p: &PostIndex)
    ensures
        final(out)@ == old(out)@ + card_text(p@),
{
    let ghost o0 = out@;
    push_str(out, "<article class=\"post-card\" data-tags=\"");
    push_str(out, p.tags.as_str());
    push_str(out, "\"><h2><a href=\"");
    push_str(out, p.url.as_str());
    push_str(out, "\">");
    push_str(out, p.title.as_str());
    push_str(out, "</a></h2><div class=\"meta-line\"><span class=\"date\">");
    push_str(out, p.date_str.as_str());
    push_str(out, "</span> — <span class=\"author\">");
    push_str(out, p.author.as_str());
    push_str(out, "</span> — <span class=\"tags-inline\">");
    push_str(out, p.tags.as_str());
    push_str(out, "</span></div></article>\n");
    assert(out@ =~= o0 + card_text(p@));
}

impl SiteIndex {
    /// The index page: one filter button per tag, in sorted order, and one card
    /// per post, most recent first, filled into `layout`.
    pub fn render_index(&self, layout: &str) -> (r: String)
        ensures
            exists|ord: Seq<usize>|
                is_index_order(post_views(self.posts@), ord) && r@ == index_page_text(
                    layout@,
                    string_views(self.tags@),
                    post_views(self.posts@),
                    ord,
                ),
    {
        let ghost ts = string_views(self.tags@);
        let ghost ps = post_views(self.posts@);
        let mut buttons: Vec<char> = Vec::new();
        let mut i: usize = 0;
        assert(ts.take(0) =~= Seq::<Seq<char>>::empty());
        while i < self.tags.len()
            invariant
                i <= self.tags@.len(),
                ts == string_views(self.tags@),
                buttons@ == buttons_text(ts.take(i as int)),
            decreases self.tags@.len() - i,
        {
            let tag = self.tags[i].as_str();
            let ghost b0 = buttons@;
            push_str(&mut buttons, "<button class=\"tag-filter-btn\" data-tag=\"");
            push_str(&mut buttons, tag);
            push_str(&mut buttons, "\">");
            push_str(&mut buttons, tag);
            push_str(&mut buttons, "</button>\n");
            assert(ts.take(i + 1).drop_last() =~= ts.take(i as int));
            assert(buttons@ =~= b0 + button_text(ts[i as int]));
            i = i + 1;
        }
        assert(ts.take(i as int) =~= ts);

        let ord = index_order(&self.posts);
        let mut cards: Vec<char> = Vec::new();
        let mut k: usize = 0;
        assert(ord@.take(0) =~= Seq::<usize>::empty());
        while k < ord.len()
            invariant
                k <= ord@.len(),
                ps == post_views(self.posts@),
                is_index_order(ps, ord@),
                cards@ == cards_text(ps, ord@.take(k as int)),
            decreases ord@.len() - k,
        {
            let j = ord[k];
            push_card(&mut cards, &self.posts[j]);
            assert(ord@.take(k + 1).drop_last() =~= ord@.take(k as int));
            k = k + 1;
        }
        assert(ord@.take(k as int) =~= ord@);

        let m1 = chars_of("<!-- TAG FILTER BUTTONS -->");
        let m2 = chars_of("<!-- POST CARDS -->");
        proof {
            reveal_strlit("<!-- TAG FILTER BUTTONS -->");
            reveal_strlit("<!-- POST CARDS -->");
        }
        let page0 = chars_of(layout);
        let page1 = replace_chars(&page0, &m1, &buttons);
        let page2 = replace_chars(&page1, &m2, &cards);
        string_of(&page2)
    }
}

proof fn lemma_index_order_covers(ps: Seq<PostIndexView>, ord: Seq<usize>, x: int)
    requires
        is_index_order(ps, ord),
        0 <= x < ps.len(),
    ensures
        exists|j: int| 0 <= j < ord.len() && ord[j] == x,
{
    let o = ord.map_values(|u: usize| u as int);
    assert(o.no_duplicates()) by {
        assert forall|a: int, b: int| 0 <= a < ord.len() && 0 <= b < ord.len() && a != b implies o[a] != o[b] by {
            if a < b {
                assert(listed_before(ps, ord[a] as int, ord[b] as int));
            } else {
                assert(listed_before(ps, ord[b] as int, ord[a] as int));
            }
        }
    }
    o.unique_seq_to_set();
    lemma_int_range(0, ps.len() as int);
    assert(o.to_set().subset_of(set_int_range(0, ps.len() as int))) by {
        assert forall|v: int| o.to_set().contains(v) implies set_int_range(0, ps.len() as int).contains(v) by {
            assert(o.contains(v));
            let k = choose|k: int| 0 <= k < o.len() && o[k] == v;
            assert(ord[k] < ps.len());
        }
    }
    lemma_subset_equality(o.to_set(), set_int_range(0, ps.len() as int));
    assert(set_int_range(0, ps.len() as int).contains(x));
    assert(o.to_set().contains(x));
    assert(o.contains(x));
    let j = choose|j: int| 0 <= j < o.len() && o[j] == x;
    assert(ord[j] == x);
}

proof fn lemma_index_order_prefix(ps: Seq<PostIndexView>, o1: Seq<usize>, o2: Seq<usize>, k: int)
    requires
        is_index_order(ps, o1),
        is_index_order(ps, o2),
        0 <= k <= o1.len(),
    ensures
        forall|j: int| 0 <= j < k ==> o1[j] == o2[j],
    decreases k,
{
    if k > 0 {
        lemma_index_order_prefix(ps, o1, o2, k - 1);
        let m = k - 1;
        let x = o1[m] as int;
        let y = o2[m] as int;
        if x != y {
            lemma_index_order_covers(ps, o2, x);
            lemma_index_order_covers(ps, o1, y);
            let j = choose|j: int| 0 <= j < o2.len() && o2[j] == x;
            let i = choose|i: int| 0 <= i < o1.len() && o1[i] == y;
            if j < m {
                assert(listed_before(ps, o1[j] as int, o1[m] as int));
            } else if i < m {
                assert(listed_before(ps, o2[i] as int, o2[m] as int));
            } else {
                assert(listed_before(ps, o2[m] as int, o2[j] as int));
                assert(listed_before(ps, o1[m] as int, o1[i] as int));
            }
        }
    }
}

/// There is one order of the index for given posts.
pub proof fn lemma_index_order_unique(ps: Seq<PostIndexView>, o1: Seq<usize>, o2: Seq<usize>)
    requires
        is_index_order(ps, o1),
        is_index_order(ps, o2),
    ensures
        o1 == o2,
{
    lemma_index_order_prefix(ps, o1, o2, o1.len() as int);
    assert(o1 =~= o2);
}

/// Two index pages rendered from the same posts, added in the same order, the
/// same tags and the same layout are the same text.
pub proof fn lemma_index_page_deterministic(
    layout: Seq<char>,
    tags: Seq<Seq<char>>,
    ps: Seq<PostIndexView>,
    page1: Seq<char>,
    page2: Seq<char>,
)
    requires
        exists|o: Seq<usize>| is_index_order(ps, o) && page1 == index_page_text(layout, tags, ps, o),
        exists|o: Seq<usize>| is_index_order(ps, o) && page2 == index_page_text(layout, tags, ps, o),
    ensures
        page1 == page2,
{
    let o1 = choose|o: Seq<usize>| is_index_order(ps, o) && page1 == index_page_text(layout, tags, ps, o);
    let o2 = choose|o: Seq<usize>| is_index_order(ps, o) && page2 == index_page_text(layout, tags, ps, o);
    lemma_index_order_unique(ps, o1, o2);
}

} // verus!
