//! The content repository: one store of articles and three indices over it
//! (all articles, per tag, per year), each newest first.
use crate::article::{article_views, Article, ArticleView};
use crate::date::{date_lt, Date};
use crate::front_matter::string_views;
use crate::text::{lemma_text_lt_total, lemma_text_lt_trans, text_less, text_lt};
use vstd::prelude::*;

verus! {

/// Article `i` is listed before article `j`: it is newer, or as new and
/// loaded earlier.
pub open spec fn listed_before(arts: Seq<ArticleView>, i: int, j: int) -> bool {
    date_lt(arts[j].date, arts[i].date) || (arts[i].date == arts[j].date && i < j)
}

/// `s` lists articles strictly in listing order (so each at most once).
pub open spec fn in_listing_order(arts: Seq<ArticleView>, s: Seq<usize>) -> bool {
    forall|a: int, b: int| 0 <= a < b < s.len() ==> listed_before(arts, s[a] as int, s[b] as int)
}

pub open spec fn has_tag(a: ArticleView, t: Seq<char>) -> bool {
    a.tags.contains(t)
}

pub proof fn lemma_listed_before_trans(arts: Seq<ArticleView>, i: int, j: int, k: int)
    requires
        listed_before(arts, i, j),
        listed_before(arts, j, k),
    ensures
        listed_before(arts, i, k),
{
}

/// The articles of one tag.
#[derive(Clone, Debug)]
pub struct TagIndex {
    pub tag: String,
    pub articles: Vec<usize>,
}

/// The articles of one year.
#[derive(Clone, Debug)]
pub struct YearIndex {
    pub year: i32,
    pub articles: Vec<usize>,
}

pub open spec fn year_keys(g: Seq<YearIndex>) -> Seq<i32> {
    g.map_values(|e: YearIndex| e.year)
}

pub open spec fn tag_keys(g: Seq<TagIndex>) -> Seq<Seq<char>> {
    g.map_values(|e: TagIndex| e.tag@)
}

/// All articles, in listing order.
pub open spec fn is_chronological(arts: Seq<ArticleView>, s: Seq<usize>) -> bool {
    &&& in_listing_order(arts, s)
    &&& forall|x: usize| s.contains(x) <==> x < arts.len()
}

/// One group per tag that some article has, in ascending order of tags,
/// each listing exactly the articles with that tag.
pub open spec fn is_tag_index(arts: Seq<ArticleView>, g: Seq<TagIndex>) -> bool {
    &&& forall|p: int, q: int| 0 <= p < q < g.len() ==> text_lt(g[p].tag@, g[q].tag@)
    &&& forall|p: int|
        0 <= p < g.len() ==> {
            &&& g[p].articles@.len() > 0
            &&& in_listing_order(arts, g[p].articles@)
            &&& forall|x: usize| #[trigger]
                g[p].articles@.contains(x) <==> x < arts.len() && has_tag(arts[x as int], g[p].tag@)
        }
    &&& forall|x: int, y: int|
        0 <= x < arts.len() && 0 <= y < arts[x].tags.len() ==> tag_keys(g).contains(
            #[trigger] arts[x].tags[y],
        )
}

/// One group per year in which some article is dated, latest year first,
/// each listing exactly the articles of that year.
pub open spec fn is_year_index(arts: Seq<ArticleView>, g: Seq<YearIndex>) -> bool {
    &&& forall|p: int, q: int| 0 <= p < q < g.len() ==> g[p].year > g[q].year
    &&& forall|p: int|
        0 <= p < g.len() ==> {
            &&& g[p].articles@.len() > 0
            &&& in_listing_order(arts, g[p].articles@)
            &&& forall|x: usize| #[trigger]
                g[p].articles@.contains(x) <==> x < arts.len() && arts[x as int].date.year
                    == g[p].year
        }
    &&& forall|x: int| 0 <= x < arts.len() ==> year_keys(g).contains(#[trigger] arts[x].date.year)
}

/// Whether article `i` comes before article `j` in listing order.
fn listed_first(arts: &Vec<Article>, i: usize, j: usize) -> (r: bool)
    requires
        i < arts.len(),
        j < arts.len(),
    ensures
        r == listed_before(article_views(arts@), i as int, j as int),
{
    let a = &arts[i].date;
    let b = &arts[j].date;
    b.before(a) || (*a == *b && i < j)
}

/// The indices of all articles, newest first; articles of the same date in
/// load order.
pub fn chronological_order(arts: &Vec<Article>) -> (r: Vec<usize>)
    ensures
        is_chronological(article_views(arts@), r@),
        r.len() == arts.len(),
{
    let ghost av = article_views(arts@);
    let mut r: Vec<usize> = Vec::new();
    let mut k: usize = 0;
    while k < arts.len()
        invariant
            k <= arts.len(),
            av == article_views(arts@),
            in_listing_order(av, r@),
            forall|x: usize| r@.contains(x) <==> x < k,
            forall|a: int| 0 <= a < r.len() ==> r@[a] < k,
            r.len() == k,
        decreases arts.len() - k,
    {
        let mut p: usize = 0;
        while p < r.len() && !listed_first(arts, k, r[p])
            invariant
                p <= r.len(),
                k < arts.len(),
                av == article_views(arts@),
                forall|x: usize| r@.contains(x) <==> x < k,
                forall|a: int| 0 <= a < r.len() ==> r@[a] < k,
                forall|a: int| 0 <= a < p ==> listed_before(av, r@[a] as int, k as int),
            decreases r.len() - p,
        {
            assert(r@.contains(r@[p as int]));
            assert(listed_before(av, r@[p as int] as int, k as int));
            p = p + 1;
        }
        let ghost old_r = r@;
        r.insert(p, k);
        proof {
            assert(r@.len() == old_r.len() + 1);
            assert(forall|w: int| 0 <= w < p ==> r@[w] == old_r[w]);
            assert(forall|w: int| p < w < r@.len() ==> r@[w] == old_r[w - 1]);
            assert(r@[p as int] == k);
            assert(p < old_r.len() ==> listed_before(av, k as int, old_r[p as int] as int));
            assert forall|a: int, b: int| 0 <= a < b < r@.len() implies listed_before(
                av,
                r@[a] as int,
                r@[b] as int,
            ) by {
                if b < p {
                } else if b == p {
                } else if a < p {
                    assert(r@[b] == old_r[b - 1]);
                    if b - 1 > p {
                        lemma_listed_before_trans(av, k as int, old_r[p as int] as int, old_r[b - 1] as int);
                    }
                    lemma_listed_before_trans(av, r@[a] as int, k as int, r@[b] as int);
                } else if a == p {
                    assert(r@[b] == old_r[b - 1]);
                    if b - 1 > p {
                        lemma_listed_before_trans(av, k as int, old_r[p as int] as int, old_r[b - 1] as int);
                    }
                } else {
                    assert(r@[a] == old_r[a - 1] && r@[b] == old_r[b - 1]);
                }
            }
            assert forall|a: int| 0 <= a < r.len() implies r@[a] < k + 1 by {
                if a < p {
                } else if a > p {
                }
            }
            assert forall|x: usize| r@.contains(x) <==> x < k + 1 by {
                if x < k {
                    assert(old_r.contains(x));
                    let w = choose|w: int| 0 <= w < old_r.len() && old_r[w] == x;
                    if w < p {
                        assert(r@[w] == x);
                    } else {
                        assert(r@[w + 1] == x);
                    }
                } else if x == k {
                    assert(r@[p as int] == x);
                }
                if r@.contains(x) {
                    let w = choose|w: int| 0 <= w < r@.len() && r@[w] == x;
                    if w < p {
                        assert(old_r[w] == x);
                    } else if w > p {
                        assert(old_r[w - 1] == x);
                    }
                }
            }
        }
        k = k + 1;
    }
    r
}

/// How many article handles the groups hold together.
pub open spec fn total_listed(g: Seq<YearIndex>) -> int
    decreases g.len(),
{
    if g.len() == 0 {
        0
    } else {
        total_listed(g.drop_last()) + g.last().articles@.len()
    }
}

proof fn lemma_chron_year(av: Seq<ArticleView>, chron: Seq<usize>, a: int, b: int)
    requires
        in_listing_order(av, chron),
        forall|m: int| 0 <= m < chron.len() ==> chron[m] < av.len(),
        0 <= a < b < chron.len(),
    ensures
        av[chron[b] as int].date.year <= av[chron[a] as int].date.year,
{
    assert(listed_before(av, chron[a] as int, chron[b] as int));
}

/// The articles grouped by year, latest year first.
pub fn year_index(arts: &Vec<Article>, chron: &Vec<usize>) -> (r: Vec<YearIndex>)
    requires
        is_chronological(article_views(arts@), chron@),
    ensures
        is_year_index(article_views(arts@), r@),
        total_listed(r@) == chron.len(),
{
    let ghost av = article_views(arts@);
    let n = chron.len();
    proof {
        assert forall|m: int| 0 <= m < n implies chron@[m] < av.len() by {
            assert(chron@.contains(chron@[m]));
        }
    }
    let mut r: Vec<YearIndex> = Vec::new();
    let mut cur = YearIndex { year: 0, articles: Vec::new() };
    let ghost mut owner: Seq<int> = Seq::empty();
    let mut k: usize = 0;
    while k < n
        invariant
            n == chron.len(),
            av == article_views(arts@),
            is_chronological(av, chron@),
            forall|m: int| 0 <= m < n ==> chron@[m] < av.len(),
            k <= n,
            k == 0 ==> cur.articles@.len() == 0 && r@.len() == 0,
            k > 0 ==> cur.articles@.len() > 0 && cur.year == av[chron@[k - 1] as int].date.year,
            forall|p: int, q: int| 0 <= p < q < r@.len() ==> r@[p].year > r@[q].year,
            forall|p: int| 0 <= p < r@.len() ==> r@[p].year > cur.year,
            forall|p: int|
                0 <= p < r@.len() ==> {
                    &&& r@[p].articles@.len() > 0
                    &&& in_listing_order(av, r@[p].articles@)
                    &&& forall|x: usize| #[trigger]
                        r@[p].articles@.contains(x) <==> chron@.subrange(0, k as int).contains(x)
                            && av[x as int].date.year == r@[p].year
                },
            in_listing_order(av, cur.articles@),
            forall|x: usize| #[trigger]
                cur.articles@.contains(x) <==> k > 0 && chron@.subrange(0, k as int).contains(x)
                    && av[x as int].date.year == cur.year,
            owner.len() == k,
            forall|m: int|
                0 <= m < k ==> (0 <= owner[m] < r@.len() && r@[owner[m]].year == av[chron@[m] as int].date.year)
                    || (owner[m] == r@.len() && cur.year == av[chron@[m] as int].date.year),
            total_listed(r@) + cur.articles@.len() == k,
        decreases n - k,
    {
        let x = chron[k];
        let y = arts[x].date.year;
        let ghost old_year = cur.year;
        let ghost pre = chron@.subrange(0, k as int);
        let ghost post = chron@.subrange(0, k + 1);
        assert(post =~= pre.push(x));
        if k > 0 {
            proof {
                lemma_chron_year(av, chron@, k - 1, k as int);
            }
        }
        if k > 0 && y != cur.year {
            let ghost old_r = r@;
            let done = cur;
            r.push(done);
            cur = YearIndex { year: y, articles: Vec::new() };
            proof {
                assert(r@.last() == done);
                assert(total_listed(r@) == total_listed(old_r) + done.articles@.len()) by {
                    assert(r@.drop_last() =~= old_r);
                }
            }
        }
        if k == 0 {
            cur = YearIndex { year: y, articles: Vec::new() };
        }
        let ghost before = cur.articles@;
        proof {
            assert forall|a: int| 0 <= a < before.len() implies listed_before(
                av,
                before[a] as int,
                x as int,
            ) by {
                assert(before.contains(before[a]));
                let w = choose|w: int| 0 <= w < k && chron@[w] == before[a];
                assert(pre[w] == chron@[w]);
            }
        }
        cur.articles.push(x);
        proof {
            owner = owner.push(r@.len() as int);
            assert forall|m: int| 0 <= m < n implies chron@[m] < av.len() by {}
            assert forall|x2: usize| #[trigger] cur.articles@.contains(x2) <==> k + 1 > 0
                && post.contains(x2) && av[x2 as int].date.year == cur.year by {
                if cur.articles@.contains(x2) {
                    let w = choose|w: int| 0 <= w < cur.articles@.len() && cur.articles@[w] == x2;
                    if w < before.len() {
                        assert(before[w] == x2);
                        assert(before.contains(x2));
                        assert(pre.contains(x2));
                        let v = choose|v: int| 0 <= v < pre.len() && pre[v] == x2;
                        assert(post[v] == x2);
                    } else {
                        assert(post[k as int] == x);
                    }
                }
                if post.contains(x2) && av[x2 as int].date.year == cur.year {
                    let w = choose|w: int| 0 <= w < post.len() && post[w] == x2;
                    if w < k {
                        assert(pre.contains(x2));
                        if w < k - 1 {
                            lemma_chron_year(av, chron@, w, k - 1);
                        }
                        assert(old_year == av[chron@[k - 1] as int].date.year);
                        assert(before.contains(x2));
                        let v = choose|v: int| 0 <= v < before.len() && before[v] == x2;
                        assert(cur.articles@[v] == x2);
                    } else {
                        assert(cur.articles@[before.len() as int] == x2);
                    }
                }
            }
            assert forall|p: int, x2: usize| 0 <= p < r@.len() implies (#[trigger]
                r@[p].articles@.contains(x2) <==> post.contains(x2) && av[x2 as int].date.year
                    == r@[p].year) by {
                if post.contains(x2) {
                    let w = choose|w: int| 0 <= w < post.len() && post[w] == x2;
                    if w < k {
                        assert(pre.contains(x2));
                    }
                }
                if r@[p].articles@.contains(x2) {
                    assert(pre.contains(x2));
                    let w = choose|w: int| 0 <= w < pre.len() && pre[w] == x2;
                    assert(post[w] == x2);
                }
            }
            assert(in_listing_order(av, cur.articles@));
        }
        k = k + 1;
    }
    assert(chron@.subrange(0, n as int) =~= chron@);
    if n > 0 {
        let ghost old_r = r@;
        let done = cur;
        r.push(done);
        proof {
            assert(r@.drop_last() =~= old_r);
            assert forall|m: int| 0 <= m < n implies 0 <= #[trigger] owner[m] < r@.len() && r@[owner[m]].year
                == av[chron@[m] as int].date.year by {
                if owner[m] == old_r.len() {
                    assert(r@[owner[m]] == done);
                } else {
                    assert(r@[owner[m]] == old_r[owner[m]]);
                }
            }
        }
    }
    proof {
        assert forall|x: int| 0 <= x < av.len() implies year_keys(r@).contains(
            #[trigger] av[x].date.year,
        ) by {
            assert(av.len() == arts.len());
            assert(x < arts.len());
            assert(chron@.contains(x as usize));
            let w = choose|w: int| 0 <= w < n && chron@[w] == x as usize;
            assert(chron@[w] as int == x);
            assert(year_keys(r@)[owner[w]] == av[x].date.year);
        }
    }
    r
}

pub open spec fn strictly_ascending(keys: Seq<Seq<char>>) -> bool {
    forall|a: int, b: int| 0 <= a < b < keys.len() ==> text_lt(keys[a], keys[b])
}

/// Whether the article has the tag.
fn article_has_tag(a: &Article, t: &String) -> (r: bool)
    ensures
        r == has_tag(a@, t@),
{
    let mut k: usize = 0;
    while k < a.tags.len()
        invariant
            k <= a.tags.len(),
            forall|j: int| 0 <= j < k ==> a.tags@[j]@ != t@,
        decreases a.tags.len() - k,
    {
        if a.tags[k] == *t {
            assert(string_views(a.tags@)[k as int] == t@);
            return true;
        }
        k = k + 1;
    }
    proof {
        if string_views(a.tags@).contains(t@) {
            let j = choose|j: int| 0 <= j < a.tags@.len() && string_views(a.tags@)[j] == t@;
            assert(a.tags@[j]@ == t@);
        }
    }
    false
}

/// Every tag of the articles, once each, in ascending order.
fn distinct_tags(arts: &Vec<Article>) -> (keys: Vec<String>)
    ensures
        strictly_ascending(string_views(keys@)),
        forall|x: int, y: int|
            0 <= x < arts.len() && 0 <= y < arts@[x]@.tags.len() ==> string_views(keys@).contains(
                #[trigger] arts@[x]@.tags[y],
            ),
{
    let mut keys: Vec<String> = Vec::new();
    let mut x: usize = 0;
    while x < arts.len()
        invariant
            x <= arts.len(),
            strictly_ascending(string_views(keys@)),
            forall|x2: int, y: int|
                0 <= x2 < x && 0 <= y < arts@[x2]@.tags.len() ==> string_views(keys@).contains(
                    #[trigger] arts@[x2]@.tags[y],
                ),
        decreases arts.len() - x,
    {
        let tags = &arts[x].tags;
        let mut y: usize = 0;
        while y < tags.len()
            invariant
                x < arts.len(),
                tags == arts@[x as int].tags,
                y <= tags.len(),
                strictly_ascending(string_views(keys@)),
                forall|x2: int, y2: int|
                    0 <= x2 < x && 0 <= y2 < arts@[x2]@.tags.len() ==> string_views(
                        keys@,
                    ).contains(#[trigger] arts@[x2]@.tags[y2]),
                forall|y2: int|
                    0 <= y2 < y ==> string_views(keys@).contains(#[trigger] arts@[x as int]@.tags[y2]),
            decreases tags.len() - y,
        {
            let t = &tags[y];
            let ghost tv = t@;
            assert(tv == arts@[x as int]@.tags[y as int]);
            let mut p: usize = 0;
            while p < keys.len() && text_less(keys[p].as_str(), t.as_str())
                invariant
                    p <= keys.len(),
                    t@ == tv,
                    forall|a: int| 0 <= a < p ==> text_lt(keys@[a]@, tv),
                decreases keys.len() - p,
            {
                p = p + 1;
            }
            let ghost old_k = string_views(keys@);
            if p < keys.len() && keys[p] == *t {
                assert(old_k[p as int] == tv);
            } else {
                keys.insert(p, t.clone());
                proof {
                    let nk = string_views(keys@);
                    assert(nk.len() == old_k.len() + 1);
                    assert(forall|w: int| 0 <= w < p ==> nk[w] == old_k[w]);
                    assert(forall|w: int| p < w < nk.len() ==> nk[w] == old_k[w - 1]);
                    assert(nk[p as int] == tv);
                    if p < old_k.len() {
                        lemma_text_lt_total(old_k[p as int], tv);
                        assert(text_lt(tv, old_k[p as int]));
                    }
                    assert forall|a: int, b: int| 0 <= a < b < nk.len() implies text_lt(
                        nk[a],
                        nk[b],
                    ) by {
                        if b < p {
                        } else if b == p {
                            assert(text_lt(old_k[a], tv));
                        } else if a < p {
                            if b - 1 > p {
                                lemma_text_lt_trans(tv, old_k[p as int], old_k[b - 1]);
                            }
                            lemma_text_lt_trans(nk[a], tv, nk[b]);
                        } else if a == p {
                            if b - 1 > p {
                                lemma_text_lt_trans(tv, old_k[p as int], old_k[b - 1]);
                            }
                        }
                    }
                    assert forall|s2: Seq<char>| old_k.contains(s2) implies nk.contains(s2) by {
                        let w = choose|w: int| 0 <= w < old_k.len() && old_k[w] == s2;
                        if w < p {
                            assert(nk[w] == s2);
                        } else {
                            assert(nk[w + 1] == s2);
                        }
                    }
                    assert(nk.contains(tv));
                }
            }
            y = y + 1;
        }
        x = x + 1;
    }
    keys
}

/// The articles grouped by tag, tags in ascending order.
pub fn tag_index(arts: &Vec<Article>, chron: &Vec<usize>) -> (r: Vec<TagIndex>)
    requires
        is_chronological(article_views(arts@), chron@),
    ensures
        is_tag_index(article_views(arts@), r@),
{
    let ghost av = article_views(arts@);
    let n = chron.len();
    proof {
        assert forall|m: int| 0 <= m < n implies chron@[m] < av.len() by {
            assert(chron@.contains(chron@[m]));
        }
    }
    let keys = distinct_tags(arts);
    let ghost kv = string_views(keys@);
    let mut r: Vec<TagIndex> = Vec::new();
    let mut j: usize = 0;
    while j < keys.len()
        invariant
            av == article_views(arts@),
            kv == string_views(keys@),
            strictly_ascending(kv),
            is_chronological(av, chron@),
            n == chron.len(),
            forall|m: int| 0 <= m < n ==> chron@[m] < av.len(),
            j <= keys.len(),
            forall|p: int, q: int| 0 <= p < q < r@.len() ==> text_lt(r@[p].tag@, r@[q].tag@),
            forall|p: int, q: int| 0 <= p < r@.len() && j <= q < kv.len() ==> text_lt(r@[p].tag@, kv[q]),
            forall|p: int|
                0 <= p < r@.len() ==> {
                    &&& r@[p].articles@.len() > 0
                    &&& in_listing_order(av, r@[p].articles@)
                    &&& forall|x: usize| #[trigger]
                        r@[p].articles@.contains(x) <==> x < av.len() && has_tag(av[x as int], r@[p].tag@)
                },
            forall|q: int, x: int|
                0 <= q < j && 0 <= x < av.len() && #[trigger] has_tag(av[x], kv[q]) ==> tag_keys(r@).contains(kv[q]),
        decreases keys.len() - j,
    {
        let key = &keys[j];
        assert(key@ == kv[j as int]);
        let mut g: Vec<usize> = Vec::new();
        let mut m: usize = 0;
        while m < n
            invariant
                av == article_views(arts@),
                is_chronological(av, chron@),
                n == chron.len(),
                forall|m2: int| 0 <= m2 < n ==> chron@[m2] < av.len(),
                m <= n,
                in_listing_order(av, g@),
                forall|x: usize| #[trigger]
                    g@.contains(x) <==> chron@.subrange(0, m as int).contains(x) && has_tag(av[x as int], key@),
            decreases n - m,
        {
            let x = chron[m];
            let ghost pre = chron@.subrange(0, m as int);
            let ghost post = chron@.subrange(0, m + 1);
            assert(post =~= pre.push(x));
            if article_has_tag(&arts[x], key) {
                let ghost before = g@;
                proof {
                    assert forall|a: int| 0 <= a < before.len() implies listed_before(
                        av,
                        before[a] as int,
                        x as int,
                    ) by {
                        assert(before.contains(before[a]));
                        let w = choose|w: int| 0 <= w < m && chron@[w] == before[a];
                        assert(pre[w] == chron@[w]);
                    }
                }
                g.push(x);
                proof {
                    assert forall|x2: usize| #[trigger] g@.contains(x2) <==> post.contains(x2)
                        && has_tag(av[x2 as int], key@) by {
                        if g@.contains(x2) {
                            let w = choose|w: int| 0 <= w < g@.len() && g@[w] == x2;
                            if w < before.len() {
                                assert(before.contains(x2));
                                let v = choose|v: int| 0 <= v < pre.len() && pre[v] == x2;
                                assert(post[v] == x2);
                            } else {
                                assert(post[m as int] == x);
                            }
                        }
                        if post.contains(x2) && has_tag(av[x2 as int], key@) {
                            let w = choose|w: int| 0 <= w < post.len() && post[w] == x2;
                            if w < m {
                                assert(pre[w] == x2);
                                assert(pre.contains(x2));
                                assert(before.contains(x2));
                                let v = choose|v: int| 0 <= v < before.len() && before[v] == x2;
                                assert(g@[v] == x2);
                            } else {
                                assert(g@[before.len() as int] == x2);
                            }
                        }
                    }
                }
            } else {
                proof {
                    assert forall|x2: usize| #[trigger] g@.contains(x2) <==> post.contains(x2)
                        && has_tag(av[x2 as int], key@) by {
                        if post.contains(x2) {
                            let w = choose|w: int| 0 <= w < post.len() && post[w] == x2;
                            if w < m {
                                assert(pre.contains(x2));
                            }
                        }
                        if pre.contains(x2) {
                            let w = choose|w: int| 0 <= w < pre.len() && pre[w] == x2;
                            assert(post[w] == x2);
                        }
                    }
                }
            }
            m = m + 1;
        }
        assert(chron@.subrange(0, n as int) =~= chron@);
        let ghost old_r = r@;
        if g.len() > 0 {
            r.push(TagIndex { tag: key.clone(), articles: g });
            proof {
                assert(r@.drop_last() =~= old_r);
                assert(tag_keys(r@)[old_r.len() as int] == kv[j as int]);
            }
        }
        proof {
            assert forall|q: int, x: int|
                0 <= q < j + 1 && 0 <= x < av.len() && #[trigger] has_tag(av[x], kv[q]) implies tag_keys(
                    r@,
                ).contains(kv[q]) by {
                if q < j {
                    let w = choose|w: int| 0 <= w < old_r.len() && tag_keys(old_r)[w] == kv[q];
                    assert(tag_keys(r@)[w] == kv[q]);
                } else {
                    assert(av.len() == arts.len());
                    assert(chron@.contains(x as usize));
                    assert(g@.contains(x as usize));
                }
            }
            assert forall|p: int, q: int| 0 <= p < r@.len() && j + 1 <= q < kv.len() implies text_lt(
                r@[p].tag@,
                kv[q],
            ) by {
                if p == old_r.len() {
                    assert(r@[p].tag@ == kv[j as int]);
                }
            }
        }
        j = j + 1;
    }
    proof {
        assert forall|x: int, y: int|
            0 <= x < av.len() && 0 <= y < av[x].tags.len() implies tag_keys(r@).contains(
                #[trigger] av[x].tags[y],
            ) by {
            assert(av[x] == arts@[x]@);
            let t = av[x].tags[y];
            assert(kv.contains(t));
            let q = choose|q: int| 0 <= q < kv.len() && kv[q] == t;
            assert(av[x].tags[y] == kv[q]);
            assert(has_tag(av[x], kv[q]));
        }
    }
    r
}

/// The articles, their listing order, and the tag and year indices over
/// them.
pub struct ContentRepository {
    /// The store, in load order; the indices below hold positions in it.
    pub articles: Vec<Article>,
    /// All articles, newest first.
    pub chronological: Vec<usize>,
    /// The per-tag lists, in ascending order of tags.
    pub by_tag: Vec<TagIndex>,
    /// The per-year lists, latest year first.
    pub by_year: Vec<YearIndex>,
}

impl ContentRepository {
    pub open spec fn wf(&self) -> bool {
        &&& is_chronological(article_views(self.articles@), self.chronological@)
        &&& is_tag_index(article_views(self.articles@), self.by_tag@)
        &&& is_year_index(article_views(self.articles@), self.by_year@)
        &&& total_listed(self.by_year@) == self.chronological@.len()
    }

    pub open spec fn view_articles(&self) -> Seq<ArticleView> {
        article_views(self.articles@)
    }

    /// Builds the indices over the articles, kept in the given order.
    /// Articles of the same date are listed in that order, so loading them
    /// in order of their source paths makes the output reproducible.
    pub fn new(articles: Vec<Article>) -> (r: ContentRepository)
        ensures
            r.wf(),
            r.articles@ == articles@,
    {
        let chronological = chronological_order(&articles);
        let by_tag = tag_index(&articles, &chronological);
        let by_year = year_index(&articles, &chronological);
        ContentRepository { articles, chronological, by_tag, by_year }
    }
}

/// `x` stands in `s` exactly once.
pub open spec fn appears_once(s: Seq<usize>, x: usize) -> bool {
    &&& s.contains(x)
    &&& forall|a: int, b: int| 0 <= a < s.len() && 0 <= b < s.len() && s[a] == x && s[b] == x ==> a == b
}

/// No article in `s` is newer than one before it.
pub open spec fn newest_first(arts: Seq<ArticleView>, s: Seq<usize>) -> bool {
    forall|a: int, b: int|
        0 <= a < b < s.len() ==> !date_lt(arts[s[a] as int].date, arts[s[b] as int].date)
}

proof fn lemma_listing_order_once(arts: Seq<ArticleView>, s: Seq<usize>, x: usize)
    requires
        in_listing_order(arts, s),
        s.contains(x),
    ensures
        appears_once(s, x),
{
    assert forall|a: int, b: int|
        0 <= a < s.len() && 0 <= b < s.len() && s[a] == x && s[b] == x implies a == b by {
        if a < b {
            assert(listed_before(arts, s[a] as int, s[b] as int));
        } else if b < a {
            assert(listed_before(arts, s[b] as int, s[a] as int));
        }
    }
}

proof fn lemma_listing_order_newest_first(arts: Seq<ArticleView>, s: Seq<usize>)
    requires
        in_listing_order(arts, s),
    ensures
        newest_first(arts, s),
{
    assert forall|a: int, b: int| 0 <= a < b < s.len() implies !date_lt(
        arts[s[a] as int].date,
        arts[s[b] as int].date,
    ) by {
        assert(listed_before(arts, s[a] as int, s[b] as int));
    }
}

/// Every article stands exactly once among all articles, and an article with
/// tag `t` stands exactly once in the list of `t`, which exists; the year
/// lists hold as many entries as there are articles.
pub proof fn lemma_each_article_listed_once(repo: &ContentRepository, x: usize, t: Seq<char>)
    requires
        repo.wf(),
        x < repo.articles.len(),
        has_tag(repo.articles@[x as int]@, t),
    ensures
        appears_once(repo.chronological@, x),
        tag_keys(repo.by_tag@).contains(t),
        forall|p: int|
            0 <= p < repo.by_tag@.len() && #[trigger] repo.by_tag@[p].tag@ == t ==> appears_once(
                repo.by_tag@[p].articles@,
                x,
            ),
        total_listed(repo.by_year@) == repo.chronological@.len(),
{
    let av = article_views(repo.articles@);
    assert(av[x as int] == repo.articles@[x as int]@);
    lemma_listing_order_once(av, repo.chronological@, x);
    let y = choose|y: int| 0 <= y < av[x as int].tags.len() && av[x as int].tags[y] == t;
    assert(tag_keys(repo.by_tag@).contains(av[x as int].tags[y]));
    assert forall|p: int|
        0 <= p < repo.by_tag@.len() && #[trigger] repo.by_tag@[p].tag@ == t implies appears_once(
            repo.by_tag@[p].articles@,
            x,
        ) by {
        assert(repo.by_tag@[p].articles@.contains(x));
        lemma_listing_order_once(av, repo.by_tag@[p].articles@, x);
    }
}

/// All articles, each tag's list and each year's list run from newest to
/// oldest.
pub proof fn lemma_lists_newest_first(repo: &ContentRepository)
    requires
        repo.wf(),
    ensures
        newest_first(repo.view_articles(), repo.chronological@),
        forall|p: int|
            0 <= p < repo.by_tag@.len() ==> newest_first(
                repo.view_articles(),
                #[trigger] repo.by_tag@[p].articles@,
            ),
        forall|p: int|
            0 <= p < repo.by_year@.len() ==> newest_first(
                repo.view_articles(),
                #[trigger] repo.by_year@[p].articles@,
            ),
{
    let av = repo.view_articles();
    lemma_listing_order_newest_first(av, repo.chronological@);
    assert forall|p: int| 0 <= p < repo.by_tag@.len() implies newest_first(
        av,
        #[trigger] repo.by_tag@[p].articles@,
    ) by {
        lemma_listing_order_newest_first(av, repo.by_tag@[p].articles@);
    }
    assert forall|p: int| 0 <= p < repo.by_year@.len() implies newest_first(
        av,
        #[trigger] repo.by_year@[p].articles@,
    ) by {
        lemma_listing_order_newest_first(av, repo.by_year@[p].articles@);
    }
}

} // verus!
