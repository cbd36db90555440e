//! The local library as the reader window holds it: saved articles, the
//! URLs known to be imported, the articles selected for upload, and what
//! imports, uploads and deletions change in it. Failure records are
//! redacted before they leave the application.
use vstd::prelude::*;
use crate::logging::{sanitize_message, sanitize_spec};
use crate::jobs::NoticeKind;
use crate::text::{contains_string, copy_str, push_str, views};

verus! {

/// A saved article as the library lists it.
#[derive(Debug)]
pub struct ArticleListItem {
    pub id: i64,
    pub url: String,
    pub title: String,
    pub word_count: i64,
    pub uploaded_to_lingq: bool,
    pub lingq_lesson_id: Option<i64>,
    pub lingq_lesson_url: Option<String>,
}

impl ArticleListItem {
    /// A field-by-field copy.
    pub fn duplicate(&self) -> (r: ArticleListItem)
        ensures
            r == *self,
    {
        ArticleListItem {
            id: self.id,
            url: self.url.clone(),
            title: self.title.clone(),
            word_count: self.word_count,
            uploaded_to_lingq: self.uploaded_to_lingq,
            lingq_lesson_id: self.lingq_lesson_id,
            lingq_lesson_url: match &self.lingq_lesson_url {
                Some(u) => Some(u.clone()),
                None => None,
            },
        }
    }
}

/// An article uploaded to LingQ as a lesson.
#[derive(Debug)]
pub struct UploadSuccess {
    pub article_id: i64,
    pub lesson_id: i64,
    pub lesson_url: Option<String>,
}

/// An article that could not be imported.
#[derive(Debug)]
pub struct FailedFetchItem {
    pub url: String,
    pub title: String,
    pub category: String,
    pub message: String,
}

/// An article that could not be uploaded.
#[derive(Debug)]
pub struct UploadFailure {
    pub article_id: i64,
    pub title: String,
    pub message: String,
}

/// A fetch failure fit for a support bundle: URL and message redacted.
pub fn redact_failed_fetch_item(item: &FailedFetchItem) -> (r: FailedFetchItem)
    ensures
        r.url@ == sanitize_spec(item.url@),
        r.title == item.title,
        r.category == item.category,
        r.message@ == sanitize_spec(item.message@),
{
    FailedFetchItem {
        url: sanitize_message(item.url.as_str()),
        title: item.title.clone(),
        category: item.category.clone(),
        message: sanitize_message(item.message.as_str()),
    }
}

/// An upload failure fit for a support bundle: message redacted.
pub fn redact_upload_failure(item: &UploadFailure) -> (r: UploadFailure)
    ensures
        r.article_id == item.article_id,
        r.title == item.title,
        r.message@ == sanitize_spec(item.message@),
{
    UploadFailure {
        article_id: item.article_id,
        title: item.title.clone(),
        message: sanitize_message(item.message.as_str()),
    }
}

/// Figures about the saved articles.
#[derive(Debug, Clone, Copy, PartialEq, Eq, Structural)]
pub struct LibraryStats {
    pub total_articles: usize,
    pub average_word_count: i64,
}

/// The sum of the word counts of `items`.
pub open spec fn sum_words(items: Seq<ArticleListItem>) -> int
    decreases items.len(),
{
    if items.len() == 0 {
        0
    } else {
        sum_words(items.drop_last()) + items.last().word_count
    }
}

/// `a / n` rounded toward zero, as integer division in Rust rounds.
pub open spec fn div_toward_zero(a: int, n: int) -> int {
    if a >= 0 {
        a / n
    } else {
        -((-a) / n)
    }
}

/// The figures of a library: how many articles it holds, and their mean
/// word count rounded toward zero (zero for an empty library).
pub open spec fn stats_spec(items: Seq<ArticleListItem>) -> LibraryStats {
    LibraryStats {
        total_articles: items.len() as usize,
        average_word_count: if items.len() == 0 {
            0
        } else {
            div_toward_zero(sum_words(items), items.len() as int) as i64
        },
    }
}

/// The figures of the saved articles `items`.
pub fn compute_local_library_stats(items: &Vec<ArticleListItem>) -> (st: LibraryStats)
    ensures
        st == stats_spec(items@),
{
    let n = items.len();
    if n == 0 {
        return LibraryStats { total_articles: 0, average_word_count: 0 };
    }
    let mut sum: i128 = 0;
    let mut k: usize = 0;
    while k < n
        invariant
            k <= n,
            n == items.len(),
            n <= usize::MAX,
            sum == sum_words(items@.take(k as int)),
            -9223372036854775808 * k <= sum <= 9223372036854775807 * k,
        decreases n - k,
    {
        proof {
            assert(items@.take(k + 1).drop_last() =~= items@.take(k as int));
            assert(items@.take(k + 1).last() == items@[k as int]);
            assert(k < 18446744073709551616);
            assert(-9223372036854775808 * (k + 1) >= -170141183460469231731687303715884105728) by (nonlinear_arith)
                requires k < 18446744073709551615int;
            assert(9223372036854775807 * (k + 1) <= 170141183460469231731687303715884105727) by (nonlinear_arith)
                requires k < 18446744073709551615int;
        }
        sum = sum + items[k].word_count as i128;
        k = k + 1;
    }
    proof {
        assert(items@.take(n as int) =~= items@);
    }
    let count = n as i128;
    let average: i64 = if sum >= 0 {
        proof {
            assert(sum / count <= 9223372036854775807) by (nonlinear_arith)
                requires sum <= 9223372036854775807 * count, count > 0, sum >= 0;
        }
        (sum / count) as i64
    } else {
        let magnitude = 0 - sum;
        proof {
            assert(magnitude / count <= 9223372036854775808) by (nonlinear_arith)
                requires magnitude <= 9223372036854775808 * count, count > 0, magnitude > 0;
        }
        let q = magnitude / count;
        (0 - q) as i64
    };
    LibraryStats { total_articles: n, average_word_count: average }
}

/// The library state of the reader window.
#[derive(Debug)]
pub struct LibraryState {
    /// Saved articles, in display order.
    pub library_articles: Vec<ArticleListItem>,
    /// URLs of articles already imported, each once.
    pub browse_imported_urls: Vec<String>,
    /// Ids of the articles selected for upload, each once.
    pub lingq_selected_articles: Vec<i64>,
    /// The article open in the detail view.
    pub article_detail: Option<ArticleListItem>,
    /// What the last import job could not fetch.
    pub failed_fetches: Vec<FailedFetchItem>,
    /// What the last upload job could not upload.
    pub last_failed_uploads: Vec<UploadFailure>,
    /// Figures about the saved articles, once computed.
    pub library_stats: Option<LibraryStats>,
}

/// The ids of a sequence of articles.
pub open spec fn ids_of(items: Seq<ArticleListItem>) -> Seq<i64> {
    items.map_values(|a: ArticleListItem| a.id)
}

/// The URLs of a sequence of articles.
pub open spec fn article_urls(items: Seq<ArticleListItem>) -> Seq<Seq<char>> {
    items.map_values(|a: ArticleListItem| a.url@)
}

/// The sets are held without repetition.
pub open spec fn library_wf(s: LibraryState) -> bool {
    &&& views(s.browse_imported_urls@).no_duplicates()
    &&& s.lingq_selected_articles@.no_duplicates()
}

/// The articles whose id is not among `ids`.
pub open spec fn without_ids(items: Seq<ArticleListItem>, ids: Seq<i64>) -> Seq<ArticleListItem>
    decreases items.len(),
{
    if items.len() == 0 {
        items
    } else {
        let p = without_ids(items.drop_last(), ids);
        if ids.contains(items.last().id) {
            p
        } else {
            p.push(items.last())
        }
    }
}

/// The position of the first article with id `id`, or -1.
pub open spec fn first_id_index(items: Seq<ArticleListItem>, id: i64) -> int
    decreases items.len(),
{
    if items.len() == 0 {
        -1
    } else if items[0].id == id {
        0
    } else {
        let r = first_id_index(items.drop_first(), id);
        if r < 0 {
            -1
        } else {
            r + 1
        }
    }
}

/// `items` with the first article whose id is `s.article_id` marked as
/// uploaded to the lesson of `s`.
pub open spec fn mark_uploaded(items: Seq<ArticleListItem>, s: UploadSuccess) -> Seq<ArticleListItem> {
    let i = first_id_index(items, s.article_id);
    if i < 0 {
        items
    } else {
        items.update(
            i,
            ArticleListItem {
                uploaded_to_lingq: true,
                lingq_lesson_id: Some(s.lesson_id),
                lingq_lesson_url: s.lesson_url,
                ..items[i]
            },
        )
    }
}

/// `items` after marking each success in order.
pub open spec fn mark_all_uploaded(items: Seq<ArticleListItem>, ss: Seq<UploadSuccess>) -> Seq<ArticleListItem>
    decreases ss.len(),
{
    if ss.len() == 0 {
        items
    } else {
        mark_uploaded(mark_all_uploaded(items, ss.drop_last()), ss.last())
    }
}

/// The elements of `v`, each at its first occurrence.
pub open spec fn distinct_ids(v: Seq<i64>) -> Seq<i64>
    decreases v.len(),
{
    if v.len() == 0 {
        v
    } else {
        let p = distinct_ids(v.drop_last());
        if p.contains(v.last()) {
            p
        } else {
            p.push(v.last())
        }
    }
}

/// `ids` without repetition, in order of first occurrence.
fn distinct_of(ids: &Vec<i64>) -> (r: Vec<i64>)
    ensures
        r@.no_duplicates(),
        forall|y: i64| r@.contains(y) <==> ids@.contains(y),
{
    let mut r: Vec<i64> = Vec::new();
    let mut k: usize = 0;
    while k < ids.len()
        invariant
            k <= ids.len(),
            r@.no_duplicates(),
            forall|y: i64| r@.contains(y) <==> ids@.take(k as int).contains(y),
        decreases ids.len() - k,
    {
        let x = ids[k];
        let ghost before = r@;
        let ghost t = ids@.take(k as int);
        let ghost t2 = ids@.take(k + 1);
        proof {
            assert(t2 =~= t.push(x));
        }
        let mut found = false;
        let mut m: usize = 0;
        while m < r.len()
            invariant
                m <= r.len(),
                found ==> r@.contains(x),
                !found ==> forall|j: int| 0 <= j < m ==> r@[j] != x,
            decreases r.len() - m,
        {
            if r[m] == x {
                found = true;
            }
            m = m + 1;
        }
        if !found {
            r.push(x);
            proof {
                assert forall|a: int, b: int| 0 <= a < b < r@.len() implies r@[a] != r@[b] by {
                    if b == before.len() {
                        assert(r@[a] == before[a]);
                    }
                }
            }
        }
        proof {
            assert forall|y: i64| r@.contains(y) <==> t2.contains(y) by {
                if r@.contains(y) && y != x {
                    let i = choose|i: int| 0 <= i < r@.len() && r@[i] == y;
                    assert(before[i] == y);
                    assert(before.contains(y));
                    assert(t.contains(y));
                    let j = choose|j: int| 0 <= j < t.len() && t[j] == y;
                    assert(t2[j] == y);
                }
                if r@.contains(y) && y == x {
                    assert(t2[k as int] == y);
                }
                if t2.contains(y) {
                    let i = choose|i: int| 0 <= i < t2.len() && t2[i] == y;
                    if i < k {
                        assert(t[i] == y);
                        assert(t.contains(y));
                        assert(before.contains(y));
                        let j = choose|j: int| 0 <= j < before.len() && before[j] == y;
                        assert(r@[j] == y);
                    } else if !found {
                        assert(r@[before.len() as int] == y);
                    }
                }
            }
        }
        k = k + 1;
    }
    proof {
        assert(ids@.take(ids.len() as int) =~= ids@);
    }
    r
}

impl LibraryState {
    /// Selects for upload the articles shown on the current page (`page_ids`,
    /// when a page is cached), else all saved articles.
    pub fn select_all_visible_articles(&mut self, page_ids: Option<Vec<i64>>)
        requires
            library_wf(*old(self)),
        ensures
            library_wf(*final(self)),
            forall|x: i64|
                final(self).lingq_selected_articles@.contains(x) <==> match page_ids {
                    Some(ids) => ids@.contains(x),
                    None => ids_of(old(self).library_articles@).contains(x),
                },
            final(self).library_articles == old(self).library_articles,
            final(self).browse_imported_urls == old(self).browse_imported_urls,
            final(self).article_detail == old(self).article_detail,
            final(self).failed_fetches == old(self).failed_fetches,
            final(self).last_failed_uploads == old(self).last_failed_uploads,
            final(self).library_stats == old(self).library_stats,
    {
        let ids = match page_ids {
            Some(ids) => ids,
            None => {
                let mut all: Vec<i64> = Vec::new();
                let mut k: usize = 0;
                while k < self.library_articles.len()
                    invariant
                        k <= self.library_articles.len(),
                        all@ == ids_of(self.library_articles@).take(k as int),
                    decreases self.library_articles.len() - k,
                {
                    all.push(self.library_articles[k].id);
                    k = k + 1;
                    assert(all@ =~= ids_of(self.library_articles@).take(k as int));
                }
                assert(all@ =~= ids_of(self.library_articles@));
                all
            },
        };
        self.lingq_selected_articles = distinct_of(&ids);
    }

    /// Forgets the article `article_id`: drops it from the saved articles,
    /// its URLs from the imported ones, its id from the selection, and closes
    /// its detail view.
    pub fn remove_article_from_local_state(&mut self, article_id: i64)
        requires
            library_wf(*old(self)),
        ensures
            library_wf(*final(self)),
            final(self).library_articles@ == without_ids(old(self).library_articles@, seq![article_id]),
            forall|u: Seq<char>|
                #![trigger views(final(self).browse_imported_urls@).contains(u)]
                views(final(self).browse_imported_urls@).contains(u) <==> (views(
                    old(self).browse_imported_urls@,
                ).contains(u) && !(exists|i: int|
                    0 <= i < old(self).library_articles@.len() && old(self).library_articles@[i].id
                        == article_id && old(self).library_articles@[i].url@ == u)),
            forall|x: i64|
                final(self).lingq_selected_articles@.contains(x) <==> (old(
                    self,
                ).lingq_selected_articles@.contains(x) && x != article_id),
            final(self).article_detail == match old(self).article_detail {
                Some(a) => if a.id != article_id {
                    Some(a)
                } else {
                    None
                },
                None => None,
            },
            final(self).failed_fetches == old(self).failed_fetches,
            final(self).last_failed_uploads == old(self).last_failed_uploads,
            final(self).library_stats == Some(stats_spec(final(self).library_articles@)),
    {
        let ghost old_articles = self.library_articles@;
        let mut removed_urls: Vec<String> = Vec::new();
        let mut kept: Vec<ArticleListItem> = Vec::new();
        let mut k: usize = 0;
        while k < self.library_articles.len()
            invariant
                k <= self.library_articles.len(),
                old_articles == self.library_articles@,
                kept@ == without_ids(old_articles.take(k as int), seq![article_id]),
                forall|u: Seq<char>|
                    views(removed_urls@).contains(u) <==> (exists|i: int|
                        0 <= i < k && old_articles[i].id == article_id && old_articles[i].url@ == u),
            decreases self.library_articles.len() - k,
        {
            proof {
                assert(old_articles.take(k + 1).drop_last() =~= old_articles.take(k as int));
                assert(old_articles.take(k + 1).last() == old_articles[k as int]);
            }
            let a = &self.library_articles[k];
            let ghost before = views(removed_urls@);
            if a.id == article_id {
                removed_urls.push(a.url.clone());
                proof {
                    assert(views(removed_urls@) =~= before.push(a.url@));
                    assert forall|u: Seq<char>| views(removed_urls@).contains(u) <==> (exists|i: int|
                        0 <= i < k + 1 && old_articles[i].id == article_id && old_articles[i].url@ == u) by {
                        if views(removed_urls@).contains(u) && u != a.url@ {
                            let j = choose|j: int| 0 <= j < views(removed_urls@).len() && views(removed_urls@)[j] == u;
                            assert(before[j] == u);
                            assert(before.contains(u));
                            let i = choose|i: int|
                                0 <= i < k && old_articles[i].id == article_id && old_articles[i].url@ == u;
                            assert(0 <= i < k + 1 && old_articles[i].id == article_id && old_articles[i].url@ == u);
                        }
                        if u == a.url@ {
                            assert(old_articles[k as int].id == article_id && old_articles[k as int].url@ == u);
                        }
                        if exists|i: int|
                            0 <= i < k + 1 && old_articles[i].id == article_id && old_articles[i].url@ == u {
                            let i = choose|i: int|
                                0 <= i < k + 1 && old_articles[i].id == article_id && old_articles[i].url@ == u;
                            if i < k {
                                assert(before.contains(u));
                                let j = choose|j: int| 0 <= j < before.len() && before[j] == u;
                                assert(views(removed_urls@)[j] == u);
                            } else {
                                assert(views(removed_urls@)[before.len() as int] == u);
                            }
                        }
                    }
                }
            } else {
                kept.push(a.duplicate());
                proof {
                    assert(!seq![article_id].contains(a.id)) by {
                        if seq![article_id].contains(a.id) {
                            let j = choose|j: int| 0 <= j < 1 && seq![article_id][j] == a.id;
                        }
                    }
                    assert forall|u: Seq<char>| views(removed_urls@).contains(u) <==> (exists|i: int|
                        0 <= i < k + 1 && old_articles[i].id == article_id && old_articles[i].url@ == u) by {
                        if exists|i: int|
                            0 <= i < k + 1 && old_articles[i].id == article_id && old_articles[i].url@ == u {
                            let i = choose|i: int|
                                0 <= i < k + 1 && old_articles[i].id == article_id && old_articles[i].url@ == u;
                            assert(i < k);
                        }
                        if views(removed_urls@).contains(u) {
                            let i = choose|i: int|
                                0 <= i < k && old_articles[i].id == article_id && old_articles[i].url@ == u;
                            assert(0 <= i < k + 1 && old_articles[i].id == article_id && old_articles[i].url@ == u);
                        }
                    }
                }
            }
            proof {
                if a.id == article_id {
                    assert(seq![article_id][0] == a.id);
                }
            }
            k = k + 1;
        }
        proof {
            assert(old_articles.take(old_articles.len() as int) =~= old_articles);
        }
        self.library_articles = kept;
        let ghost old_urls = views(self.browse_imported_urls@);
        let mut urls: Vec<String> = Vec::new();
        let mut j: usize = 0;
        while j < self.browse_imported_urls.len()
            invariant
                j <= self.browse_imported_urls.len(),
                old_urls == views(self.browse_imported_urls@),
                old_urls.no_duplicates(),
                views(urls@).no_duplicates(),
                forall|u: Seq<char>|
                    views(urls@).contains(u) <==> (old_urls.take(j as int).contains(u) && !views(
                        removed_urls@,
                    ).contains(u)),
            decreases self.browse_imported_urls.len() - j,
        {
            let u = &self.browse_imported_urls[j];
            let ghost before = views(urls@);
            let ghost t = old_urls.take(j as int);
            let ghost t2 = old_urls.take(j + 1);
            proof {
                assert(t2 =~= t.push(u@));
                assert(!t.contains(u@)) by {
                    if t.contains(u@) {
                        let i = choose|i: int| 0 <= i < t.len() && t[i] == u@;
                        assert(old_urls[i] == old_urls[j as int]);
                    }
                }
            }
            let removed = contains_string(&removed_urls, u.as_str());
            if !removed {
                urls.push(u.clone());
                proof {
                    assert(views(urls@) =~= before.push(u@));
                    assert forall|a: int, b: int| 0 <= a < b < views(urls@).len() implies views(urls@)[a]
                        != views(urls@)[b] by {
                        if b == before.len() {
                            assert(views(urls@)[a] == before[a]);
                            assert(before.contains(before[a]));
                        }
                    }
                }
            }
            proof {
                assert forall|w: Seq<char>| views(urls@).contains(w) <==> (t2.contains(w)
                    && !views(removed_urls@).contains(w)) by {
                    if views(urls@).contains(w) && w != u@ {
                        let i = choose|i: int| 0 <= i < views(urls@).len() && views(urls@)[i] == w;
                        assert(before[i] == w);
                        assert(before.contains(w));
                        assert(t.contains(w));
                        let m = choose|m: int| 0 <= m < t.len() && t[m] == w;
                        assert(t2[m] == w);
                    }
                    if views(urls@).contains(w) && w == u@ {
                        assert(t2[j as int] == w);
                    }
                    if t2.contains(w) && !views(removed_urls@).contains(w) {
                        let i = choose|i: int| 0 <= i < t2.len() && t2[i] == w;
                        if i < j {
                            assert(t[i] == w);
                            assert(t.contains(w));
                            assert(before.contains(w));
                            let m = choose|m: int| 0 <= m < before.len() && before[m] == w;
                            assert(views(urls@)[m] == w);
                        } else {
                            assert(views(urls@)[before.len() as int] == w);
                        }
                    }
                }
            }
            j = j + 1;
        }
        proof {
            assert(old_urls.take(old_urls.len() as int) =~= old_urls);
        }
        self.browse_imported_urls = urls;
        let ghost old_sel = self.lingq_selected_articles@;
        let mut sel: Vec<i64> = Vec::new();
        let mut m: usize = 0;
        while m < self.lingq_selected_articles.len()
            invariant
                m <= self.lingq_selected_articles.len(),
                old_sel == self.lingq_selected_articles@,
                old_sel.no_duplicates(),
                sel@.no_duplicates(),
                forall|x: i64| sel@.contains(x) <==> (old_sel.take(m as int).contains(x) && x != article_id),
            decreases self.lingq_selected_articles.len() - m,
        {
            let x = self.lingq_selected_articles[m];
            let ghost before = sel@;
            let ghost t = old_sel.take(m as int);
            let ghost t2 = old_sel.take(m + 1);
            proof {
                assert(t2 =~= t.push(x));
                assert(!t.contains(x)) by {
                    if t.contains(x) {
                        let i = choose|i: int| 0 <= i < t.len() && t[i] == x;
                        assert(old_sel[i] == old_sel[m as int]);
                    }
                }
            }
            if x != article_id {
                sel.push(x);
                proof {
                    assert forall|a: int, b: int| 0 <= a < b < sel@.len() implies sel@[a] != sel@[b] by {
                        if b == before.len() {
                            assert(sel@[a] == before[a]);
                            assert(before.contains(before[a]));
                        }
                    }
                }
            }
            proof {
                assert forall|y: i64| sel@.contains(y) <==> (t2.contains(y) && y != article_id) by {
                    if sel@.contains(y) && y != x {
                        let i = choose|i: int| 0 <= i < sel@.len() && sel@[i] == y;
                        assert(before[i] == y);
                        assert(before.contains(y));
                        assert(t.contains(y));
                        let j = choose|j: int| 0 <= j < t.len() && t[j] == y;
                        assert(t2[j] == y);
                    }
                    if sel@.contains(y) && y == x {
                        assert(t2[m as int] == y);
                    }
                    if t2.contains(y) && y != article_id {
                        let i = choose|i: int| 0 <= i < t2.len() && t2[i] == y;
                        if i < m {
                            assert(t[i] == y);
                            assert(t.contains(y));
                            assert(before.contains(y));
                            let j = choose|j: int| 0 <= j < before.len() && before[j] == y;
                            assert(sel@[j] == y);
                        } else {
                            assert(sel@[before.len() as int] == y);
                        }
                    }
                }
            }
            m = m + 1;
        }
        proof {
            assert(old_sel.take(old_sel.len() as int) =~= old_sel);
        }
        self.lingq_selected_articles = sel;
        let detail = self.article_detail.take();
        self.article_detail = match detail {
            Some(a) => if a.id != article_id {
                Some(a)
            } else {
                None
            },
            None => None,
        };
        self.library_stats = Some(compute_local_library_stats(&self.library_articles));
    }
}


/// Adds `u` to a set of URLs held without repetition.
fn insert_url(urls: &mut Vec<String>, u: &str)
    requires
        views(old(urls)@).no_duplicates(),
    ensures
        views(final(urls)@).no_duplicates(),
        forall|w: Seq<char>|
            #![trigger views(final(urls)@).contains(w)]
            views(final(urls)@).contains(w) <==> (views(old(urls)@).contains(w) || w == u@),
{
    if !contains_string(urls, u) {
        let ghost before = views(urls@);
        urls.push(copy_str(u));
        proof {
            assert(views(urls@) =~= before.push(u@));
            assert forall|a: int, b: int| 0 <= a < b < views(urls@).len() implies views(urls@)[a]
                != views(urls@)[b] by {
                if b == before.len() {
                    assert(views(urls@)[a] == before[a]);
                    assert(before.contains(before[a]));
                }
            }
            assert forall|w: Seq<char>| views(urls@).contains(w) <==> (before.contains(w) || w == u@) by {
                if views(urls@).contains(w) && w != u@ {
                    let i = choose|i: int| 0 <= i < views(urls@).len() && views(urls@)[i] == w;
                    assert(before[i] == w);
                }
                if before.contains(w) {
                    let i = choose|i: int| 0 <= i < before.len() && before[i] == w;
                    assert(views(urls@)[i] == w);
                }
                if w == u@ {
                    assert(views(urls@)[before.len() as int] == w);
                }
            }
        }
    }
}

/// Whether an article of `items` has the id `id`.
fn has_id(items: &Vec<ArticleListItem>, id: i64) -> (b: bool)
    ensures
        b == ids_of(items@).contains(id),
{
    let mut k: usize = 0;
    while k < items.len()
        invariant
            k <= items.len(),
            forall|j: int| 0 <= j < k ==> items@[j].id != id,
        decreases items.len() - k,
    {
        if items[k].id == id {
            assert(ids_of(items@)[k as int] == id);
            return true;
        }
        k = k + 1;
    }
    proof {
        if ids_of(items@).contains(id) {
            let j = choose|j: int| 0 <= j < ids_of(items@).len() && ids_of(items@)[j] == id;
            assert(items@[j].id == id);
        }
    }
    false
}

/// Whether an article passes the word-count selection: not yet uploaded
/// (where asked), and within the given bounds.
pub open spec fn word_count_selects(
    a: ArticleListItem,
    min: Option<usize>,
    max: Option<usize>,
    only_not_uploaded: bool,
) -> bool {
    &&& (!only_not_uploaded || !a.uploaded_to_lingq)
    &&& match min {
        Some(m) => a.word_count as usize >= m,
        None => true,
    }
    &&& match max {
        Some(m) => a.word_count as usize <= m,
        None => true,
    }
}

impl LibraryState {
    /// Takes freshly imported articles into the library: their URLs count as
    /// imported, and each replaces any saved article with the same id, the
    /// new ones coming last in the order given.
    pub fn apply_imported_articles(&mut self, saved_articles: Vec<ArticleListItem>)
        requires
            library_wf(*old(self)),
        ensures
            library_wf(*final(self)),
            final(self).library_articles@ == without_ids(
                old(self).library_articles@,
                ids_of(saved_articles@),
            ) + saved_articles@,
            forall|u: Seq<char>|
                #![trigger views(final(self).browse_imported_urls@).contains(u)]
                views(final(self).browse_imported_urls@).contains(u) <==> (views(
                    old(self).browse_imported_urls@,
                ).contains(u) || article_urls(saved_articles@).contains(u)),
            final(self).lingq_selected_articles == old(self).lingq_selected_articles,
            final(self).article_detail == old(self).article_detail,
            final(self).failed_fetches == old(self).failed_fetches,
            final(self).last_failed_uploads == old(self).last_failed_uploads,
            final(self).library_stats == Some(stats_spec(final(self).library_articles@)),
    {
        let ghost old_urls = views(self.browse_imported_urls@);
        let mut k: usize = 0;
        while k < saved_articles.len()
            invariant
                k <= saved_articles.len(),
                views(self.browse_imported_urls@).no_duplicates(),
                self.library_articles == old(self).library_articles,
                self.lingq_selected_articles == old(self).lingq_selected_articles,
                self.article_detail == old(self).article_detail,
                self.failed_fetches == old(self).failed_fetches,
                self.last_failed_uploads == old(self).last_failed_uploads,
                old(self).lingq_selected_articles@.no_duplicates(),
                forall|u: Seq<char>|
                    #![trigger views(self.browse_imported_urls@).contains(u)]
                    views(self.browse_imported_urls@).contains(u) <==> (old_urls.contains(u)
                        || article_urls(saved_articles@).take(k as int).contains(u)),
            decreases saved_articles.len() - k,
        {
            let ghost t = article_urls(saved_articles@).take(k as int);
            let ghost t2 = article_urls(saved_articles@).take(k + 1);
            proof {
                assert(t2 =~= t.push(saved_articles@[k as int].url@));
            }
            insert_url(&mut self.browse_imported_urls, saved_articles[k].url.as_str());
            proof {
                assert forall|u: Seq<char>| views(self.browse_imported_urls@).contains(u) <==> (
                old_urls.contains(u) || t2.contains(u)) by {
                    if t2.contains(u) {
                        let i = choose|i: int| 0 <= i < t2.len() && t2[i] == u;
                        if i < k {
                            assert(t[i] == u);
                        }
                    }
                    if t.contains(u) {
                        let i = choose|i: int| 0 <= i < t.len() && t[i] == u;
                        assert(t2[i] == u);
                    }
                    if u == saved_articles@[k as int].url@ {
                        assert(t2[k as int] == u);
                    }
                }
            }
            k = k + 1;
        }
        proof {
            assert(article_urls(saved_articles@).take(saved_articles.len() as int) =~= article_urls(
                saved_articles@,
            ));
        }
        let ghost old_articles = self.library_articles@;
        let ghost ids = ids_of(saved_articles@);
        let mut kept: Vec<ArticleListItem> = Vec::new();
        let mut j: usize = 0;
        while j < self.library_articles.len()
            invariant
                j <= self.library_articles.len(),
                old_articles == self.library_articles@,
                old_articles == old(self).library_articles@,
                ids == ids_of(saved_articles@),
                kept@ == without_ids(old_articles.take(j as int), ids),
            decreases self.library_articles.len() - j,
        {
            proof {
                assert(old_articles.take(j + 1).drop_last() =~= old_articles.take(j as int));
                assert(old_articles.take(j + 1).last() == old_articles[j as int]);
            }
            let a = &self.library_articles[j];
            if !has_id(&saved_articles, a.id) {
                kept.push(a.duplicate());
            }
            j = j + 1;
        }
        proof {
            assert(old_articles.take(old_articles.len() as int) =~= old_articles);
        }
        let ghost kept_before = kept@;
        let mut saved = saved_articles;
        kept.append(&mut saved);
        assert(kept@ =~= kept_before + saved_articles@);
        self.library_articles = kept;
        self.library_stats = Some(compute_local_library_stats(&self.library_articles));
    }

    /// Marks the articles of successful uploads as uploaded, each with the
    /// lesson it became.
    pub fn apply_uploaded_articles(&mut self, successes: &[UploadSuccess])
        requires
            library_wf(*old(self)),
        ensures
            library_wf(*final(self)),
            final(self).library_articles@ == mark_all_uploaded(
                old(self).library_articles@,
                successes@,
            ),
            final(self).browse_imported_urls == old(self).browse_imported_urls,
            final(self).lingq_selected_articles == old(self).lingq_selected_articles,
            final(self).article_detail == old(self).article_detail,
            final(self).failed_fetches == old(self).failed_fetches,
            final(self).last_failed_uploads == old(self).last_failed_uploads,
            final(self).library_stats == Some(stats_spec(final(self).library_articles@)),
    {
        let mut k: usize = 0;
        while k < successes.len()
            invariant
                k <= successes.len(),
                library_wf(*self),
                self.library_articles@ == mark_all_uploaded(
                    old(self).library_articles@,
                    successes@.take(k as int),
                ),
                self.browse_imported_urls == old(self).browse_imported_urls,
                self.lingq_selected_articles == old(self).lingq_selected_articles,
                self.article_detail == old(self).article_detail,
                self.failed_fetches == old(self).failed_fetches,
                self.last_failed_uploads == old(self).last_failed_uploads,
            decreases successes.len() - k,
        {
            let s = &successes[k];
            proof {
                assert(successes@.take(k + 1).drop_last() =~= successes@.take(k as int));
                assert(successes@.take(k + 1).last() == successes@[k as int]);
            }
            let ghost before = self.library_articles@;
            let mut i: usize = 0;
            while i < self.library_articles.len() && self.library_articles[i].id != s.article_id
                invariant
                    i <= self.library_articles.len(),
                    self.library_articles@ == before,
                    forall|m: int| 0 <= m < i ==> before[m].id != s.article_id,
                decreases self.library_articles.len() - i,
            {
                i = i + 1;
            }
            proof {
                lemma_first_id_index(before, s.article_id, i as int);
            }
            if i < self.library_articles.len() {
                let mut a = self.library_articles[i].duplicate();
                a.uploaded_to_lingq = true;
                a.lingq_lesson_id = Some(s.lesson_id);
                a.lingq_lesson_url = match &s.lesson_url {
                    Some(u) => Some(u.clone()),
                    None => None,
                };
                self.library_articles.set(i, a);
            }
            proof {
                assert(self.library_articles@ =~= mark_uploaded(before, *s));
            }
            k = k + 1;
        }
        proof {
            assert(successes@.take(successes.len() as int) =~= successes@);
        }
        self.library_stats = Some(compute_local_library_stats(&self.library_articles));
    }

    /// Selects for upload every saved article that passes the word-count
    /// selection; gives back how many are selected.
    pub fn select_lingq_articles_by_word_count(
        &mut self,
        min: Option<usize>,
        max: Option<usize>,
        only_not_uploaded: bool,
    ) -> (count: usize)
        requires
            library_wf(*old(self)),
        ensures
            library_wf(*final(self)),
            forall|x: i64|
                final(self).lingq_selected_articles@.contains(x) <==> exists|i: int|
                    0 <= i < old(self).library_articles@.len() && (#[trigger] old(
                        self,
                    ).library_articles@[i]).id == x && word_count_selects(
                        old(self).library_articles@[i],
                        min,
                        max,
                        only_not_uploaded,
                    ),
            count == final(self).lingq_selected_articles@.len(),
            final(self).library_articles == old(self).library_articles,
            final(self).browse_imported_urls == old(self).browse_imported_urls,
            final(self).article_detail == old(self).article_detail,
            final(self).failed_fetches == old(self).failed_fetches,
            final(self).last_failed_uploads == old(self).last_failed_uploads,
            final(self).library_stats == old(self).library_stats,
    {
        let mut ids: Vec<i64> = Vec::new();
        let mut k: usize = 0;
        while k < self.library_articles.len()
            invariant
                k <= self.library_articles.len(),
                forall|x: i64|
                    ids@.contains(x) <==> exists|i: int|
                        0 <= i < k && (#[trigger] self.library_articles@[i]).id == x
                            && word_count_selects(self.library_articles@[i], min, max, only_not_uploaded),
            decreases self.library_articles.len() - k,
        {
            let a = &self.library_articles[k];
            let n = a.word_count as usize;
            let above = match min {
                Some(m) => n >= m,
                None => true,
            };
            let below = match max {
                Some(m) => n <= m,
                None => true,
            };
            let ghost before = ids@;
            if (!only_not_uploaded || !a.uploaded_to_lingq) && above && below {
                ids.push(a.id);
            }
            proof {
                assert forall|x: i64|
                    ids@.contains(x) <==> exists|i: int|
                        0 <= i < k + 1 && (#[trigger] self.library_articles@[i]).id == x
                            && word_count_selects(self.library_articles@[i], min, max, only_not_uploaded) by {
                    if ids@.contains(x) {
                        let j = choose|j: int| 0 <= j < ids@.len() && ids@[j] == x;
                        if j < before.len() {
                            assert(before[j] == x);
                            assert(before.contains(x));
                        } else {
                            assert(self.library_articles@[k as int].id == x);
                        }
                    }
                    if exists|i: int|
                        0 <= i < k + 1 && (#[trigger] self.library_articles@[i]).id == x
                            && word_count_selects(self.library_articles@[i], min, max, only_not_uploaded) {
                        let i = choose|i: int|
                            0 <= i < k + 1 && (#[trigger] self.library_articles@[i]).id == x
                                && word_count_selects(self.library_articles@[i], min, max, only_not_uploaded);
                        if i < k {
                            assert(before.contains(x));
                            let j = choose|j: int| 0 <= j < before.len() && before[j] == x;
                            assert(ids@[j] == x);
                        } else {
                            assert(ids@[before.len() as int] == x);
                        }
                    }
                }
            }
            k = k + 1;
        }
        self.lingq_selected_articles = distinct_of(&ids);
        self.lingq_selected_articles.len()
    }
}

/// Where the search for the first article with id `id` stopped, so its
/// result.
proof fn lemma_first_id_index(items: Seq<ArticleListItem>, id: i64, i: int)
    requires
        0 <= i <= items.len(),
        forall|m: int| 0 <= m < i ==> items[m].id != id,
        i < items.len() ==> items[i].id == id,
    ensures
        first_id_index(items, id) == if i < items.len() { i } else { -1 },
    decreases items.len(),
{
    if items.len() > 0 {
        if items[0].id == id {
        } else {
            lemma_first_id_index(items.drop_first(), id, i - 1);
        }
    }
}

/// `after` is the selection `before` with `id` toggled: `id` is in it
/// exactly when it was not, every other id as before.
pub open spec fn toggled(before: Seq<i64>, after: Seq<i64>, id: i64) -> bool {
    &&& after.contains(id) == !before.contains(id)
    &&& forall|x: i64| x != id ==> (#[trigger] after.contains(x) == before.contains(x))
}

impl LibraryState {
    /// Selects the article `id` for upload, or drops it from the selection
    /// when it is selected already.
    pub fn toggle_article(&mut self, id: i64)
        requires
            library_wf(*old(self)),
        ensures
            library_wf(*final(self)),
            toggled(old(self).lingq_selected_articles@, final(self).lingq_selected_articles@, id),
            final(self).library_articles == old(self).library_articles,
            final(self).browse_imported_urls == old(self).browse_imported_urls,
            final(self).article_detail == old(self).article_detail,
            final(self).failed_fetches == old(self).failed_fetches,
            final(self).last_failed_uploads == old(self).last_failed_uploads,
            final(self).library_stats == old(self).library_stats,
    {
        let ghost old_sel = self.lingq_selected_articles@;
        let mut sel: Vec<i64> = Vec::new();
        let mut found = false;
        let mut m: usize = 0;
        while m < self.lingq_selected_articles.len()
            invariant
                m <= self.lingq_selected_articles.len(),
                old_sel == self.lingq_selected_articles@,
                old_sel.no_duplicates(),
                sel@.no_duplicates(),
                found == old_sel.take(m as int).contains(id),
                forall|x: i64| sel@.contains(x) <==> (old_sel.take(m as int).contains(x) && x != id),
            decreases self.lingq_selected_articles.len() - m,
        {
            let x = self.lingq_selected_articles[m];
            let ghost before = sel@;
            let ghost t = old_sel.take(m as int);
            let ghost t2 = old_sel.take(m + 1);
            proof {
                assert(t2 =~= t.push(x));
                assert(!t.contains(x)) by {
                    if t.contains(x) {
                        let i = choose|i: int| 0 <= i < t.len() && t[i] == x;
                        assert(old_sel[i] == old_sel[m as int]);
                    }
                }
            }
            if x == id {
                found = true;
            } else {
                sel.push(x);
                proof {
                    assert forall|a: int, b: int| 0 <= a < b < sel@.len() implies sel@[a] != sel@[b] by {
                        if b == before.len() {
                            assert(sel@[a] == before[a]);
                            assert(before.contains(before[a]));
                        }
                    }
                }
            }
            proof {
                assert(t2.contains(id) == (t.contains(id) || x == id)) by {
                    if t2.contains(id) {
                        let i = choose|i: int| 0 <= i < t2.len() && t2[i] == id;
                        if i < m {
                            assert(t[i] == id);
                        }
                    }
                    if t.contains(id) {
                        let i = choose|i: int| 0 <= i < t.len() && t[i] == id;
                        assert(t2[i] == id);
                    }
                    if x == id {
                        assert(t2[m as int] == id);
                    }
                }
                assert forall|y: i64| sel@.contains(y) <==> (t2.contains(y) && y != id) by {
                    if sel@.contains(y) && y != x {
                        let i = choose|i: int| 0 <= i < sel@.len() && sel@[i] == y;
                        assert(before[i] == y);
                        assert(before.contains(y));
                        assert(t.contains(y));
                        let j = choose|j: int| 0 <= j < t.len() && t[j] == y;
                        assert(t2[j] == y);
                    }
                    if sel@.contains(y) && y == x {
                        assert(t2[m as int] == y);
                    }
                    if t2.contains(y) && y != id {
                        let i = choose|i: int| 0 <= i < t2.len() && t2[i] == y;
                        if i < m {
                            assert(t[i] == y);
                            assert(t.contains(y));
                            assert(before.contains(y));
                            let j = choose|j: int| 0 <= j < before.len() && before[j] == y;
                            assert(sel@[j] == y);
                        } else {
                            assert(sel@[before.len() as int] == y);
                        }
                    }
                }
            }
            m = m + 1;
        }
        proof {
            assert(old_sel.take(old_sel.len() as int) =~= old_sel);
        }
        if !found {
            let ghost before = sel@;
            sel.push(id);
            proof {
                assert forall|a: int, b: int| 0 <= a < b < sel@.len() implies sel@[a] != sel@[b] by {
                    if b == before.len() {
                        assert(sel@[a] == before[a]);
                        assert(before.contains(before[a]));
                    }
                }
                assert(sel@[before.len() as int] == id);
                assert forall|y: i64| y != id implies (sel@.contains(y) == old_sel.contains(y)) by {
                    if sel@.contains(y) {
                        let i = choose|i: int| 0 <= i < sel@.len() && sel@[i] == y;
                        assert(before[i] == y);
                        assert(before.contains(y));
                    }
                    if old_sel.contains(y) {
                        assert(before.contains(y));
                        let i = choose|i: int| 0 <= i < before.len() && before[i] == y;
                        assert(sel@[i] == y);
                    }
                }
            }
        }
        self.lingq_selected_articles = sel;
    }

    /// Takes in the result of an import job: its saved articles enter the
    /// library, its failures replace the last ones, and the job counts as a
    /// success when nothing failed and it was not canceled.
    pub fn finish_import(
        &mut self,
        saved_articles: Vec<ArticleListItem>,
        failed: Vec<FailedFetchItem>,
        canceled: bool,
    ) -> (job_success: bool)
        requires
            library_wf(*old(self)),
        ensures
            library_wf(*final(self)),
            job_success == (failed@.len() == 0 && !canceled),
            final(self).failed_fetches@ == failed@,
            final(self).library_articles@ == without_ids(
                old(self).library_articles@,
                ids_of(saved_articles@),
            ) + saved_articles@,
            forall|u: Seq<char>|
                #![trigger views(final(self).browse_imported_urls@).contains(u)]
                views(final(self).browse_imported_urls@).contains(u) <==> (views(
                    old(self).browse_imported_urls@,
                ).contains(u) || article_urls(saved_articles@).contains(u)),
            final(self).lingq_selected_articles == old(self).lingq_selected_articles,
            final(self).article_detail == old(self).article_detail,
            final(self).last_failed_uploads == old(self).last_failed_uploads,
            final(self).library_stats == Some(stats_spec(final(self).library_articles@)),
    {
        let job_success = failed.len() == 0 && !canceled;
        self.failed_fetches = failed;
        self.apply_imported_articles(saved_articles);
        job_success
    }

    /// Takes in the result of an upload job: its successes are marked in the
    /// library, the upload selection is emptied, its failures replace the
    /// last ones, and the job counts as a success when nothing failed and it
    /// was not canceled.
    pub fn finish_upload(&mut self, successes: &[UploadSuccess], failed: Vec<UploadFailure>, canceled: bool) -> (job_success: bool)
        requires
            library_wf(*old(self)),
        ensures
            library_wf(*final(self)),
            job_success == (failed@.len() == 0 && !canceled),
            final(self).last_failed_uploads@ == failed@,
            final(self).library_articles@ == mark_all_uploaded(
                old(self).library_articles@,
                successes@,
            ),
            final(self).lingq_selected_articles@.len() == 0,
            final(self).browse_imported_urls == old(self).browse_imported_urls,
            final(self).article_detail == old(self).article_detail,
            final(self).failed_fetches == old(self).failed_fetches,
            final(self).library_stats == Some(stats_spec(final(self).library_articles@)),
    {
        let job_success = failed.len() == 0 && !canceled;
        self.apply_uploaded_articles(successes);
        self.lingq_selected_articles = Vec::new();
        self.last_failed_uploads = failed;
        job_success
    }
}

/// Leaving out articles by id distributes over concatenation.
proof fn lemma_without_ids_concat(x: Seq<ArticleListItem>, y: Seq<ArticleListItem>, ids: Seq<i64>)
    ensures
        without_ids(x + y, ids) == without_ids(x, ids) + without_ids(y, ids),
    decreases y.len(),
{
    if y.len() == 0 {
        assert(x + y =~= x);
        assert(without_ids(x, ids) + without_ids(y, ids) =~= without_ids(x, ids));
    } else {
        lemma_without_ids_concat(x, y.drop_last(), ids);
        assert((x + y).drop_last() =~= x + y.drop_last());
        assert((x + y).last() == y.last());
        let p = without_ids(y.drop_last(), ids);
        assert(without_ids(x, ids) + p.push(y.last()) =~= (without_ids(x, ids) + p).push(y.last()));
    }
}

/// What is left after leaving out articles by id has none of those ids,
/// and every other article is still there.
proof fn lemma_without_ids_members(items: Seq<ArticleListItem>, ids: Seq<i64>)
    ensures
        forall|x: i64| ids.contains(x) ==> !ids_of(without_ids(items, ids)).contains(x),
        forall|i: int|
            0 <= i < items.len() && !ids.contains(#[trigger] items[i].id) ==> without_ids(
                items,
                ids,
            ).contains(items[i]),
        forall|a: ArticleListItem| #[trigger] without_ids(items, ids).contains(a) ==> items.contains(a),
    decreases items.len(),
{
    if items.len() > 0 {
        lemma_without_ids_members(items.drop_last(), ids);
        let p = without_ids(items.drop_last(), ids);
        let r = without_ids(items, ids);
        assert forall|x: i64| ids.contains(x) implies !ids_of(r).contains(x) by {
            if ids_of(r).contains(x) {
                let j = choose|j: int| 0 <= j < ids_of(r).len() && ids_of(r)[j] == x;
                if j < p.len() {
                    assert(ids_of(p)[j] == x);
                }
            }
        }
        assert forall|i: int|
            0 <= i < items.len() && !ids.contains(#[trigger] items[i].id) implies r.contains(items[i]) by {
            if i < items.len() - 1 {
                assert(items.drop_last()[i] == items[i]);
                assert(p.contains(items[i]));
                let j = choose|j: int| 0 <= j < p.len() && p[j] == items[i];
                assert(r[j] == items[i]);
            } else {
                assert(r[p.len() as int] == items[i]);
            }
        }
        assert forall|a: ArticleListItem| #[trigger] r.contains(a) implies items.contains(a) by {
            let j = choose|j: int| 0 <= j < r.len() && r[j] == a;
            if j < p.len() {
                assert(p.contains(a));
                let m = choose|m: int| 0 <= m < items.drop_last().len() && items.drop_last()[m] == a;
                assert(items[m] == a);
            } else {
                assert(items[items.len() - 1] == a);
            }
        }
    }
}

/// Leaving out articles whose ids are all left out already changes nothing.
proof fn lemma_without_ids_noop(items: Seq<ArticleListItem>, ids: Seq<i64>)
    requires
        forall|i: int| 0 <= i < items.len() ==> !ids.contains(#[trigger] items[i].id),
    ensures
        without_ids(items, ids) == items,
    decreases items.len(),
{
    if items.len() > 0 {
        lemma_without_ids_noop(items.drop_last(), ids);
        assert(items.drop_last().push(items.last()) =~= items);
        assert(!ids.contains(items[items.len() - 1].id));
    }
}

/// Leaving out the articles of `saved` by their own ids leaves nothing.
proof fn lemma_without_own_ids(saved: Seq<ArticleListItem>, ids: Seq<i64>)
    requires
        forall|i: int| 0 <= i < saved.len() ==> ids.contains(#[trigger] saved[i].id),
    ensures
        without_ids(saved, ids) == Seq::<ArticleListItem>::empty(),
    decreases saved.len(),
{
    if saved.len() > 0 {
        lemma_without_own_ids(saved.drop_last(), ids);
        assert(ids.contains(saved[saved.len() - 1].id));
    }
}

/// Importing the same articles a second time leaves the library as the
/// first import left it.
pub proof fn law_reimport_changes_nothing(library: Seq<ArticleListItem>, saved: Seq<ArticleListItem>)
    ensures
        without_ids(without_ids(library, ids_of(saved)) + saved, ids_of(saved)) + saved == without_ids(
            library,
            ids_of(saved),
        ) + saved,
{
    let ids = ids_of(saved);
    let kept = without_ids(library, ids);
    lemma_without_ids_concat(kept, saved, ids);
    lemma_without_ids_members(library, ids);
    assert forall|i: int| 0 <= i < kept.len() implies !ids.contains(#[trigger] kept[i].id) by {
        assert(ids_of(kept)[i] == kept[i].id);
        if ids.contains(kept[i].id) {
            assert(ids_of(kept).contains(kept[i].id));
        }
    }
    lemma_without_ids_noop(kept, ids);
    assert forall|i: int| 0 <= i < saved.len() implies ids.contains(#[trigger] saved[i].id) by {
        assert(ids[i] == saved[i].id);
    }
    lemma_without_own_ids(saved, ids);
    assert(kept + Seq::<ArticleListItem>::empty() =~= kept);
}

/// After an article is removed, no article with its id is left, and every
/// other article still is.
pub proof fn law_removed_article_is_gone(library: Seq<ArticleListItem>, article_id: i64)
    ensures
        !ids_of(without_ids(library, seq![article_id])).contains(article_id),
        forall|i: int|
            0 <= i < library.len() && #[trigger] library[i].id != article_id ==> without_ids(
                library,
                seq![article_id],
            ).contains(library[i]),
{
    lemma_without_ids_members(library, seq![article_id]);
    assert(seq![article_id][0] == article_id);
    assert(seq![article_id].contains(article_id));
    assert forall|i: int|
        0 <= i < library.len() && #[trigger] library[i].id != article_id implies without_ids(
            library,
            seq![article_id],
        ).contains(library[i]) by {
        if seq![article_id].contains(library[i].id) {
            let j = choose|j: int| 0 <= j < 1 && seq![article_id][j] == library[i].id;
        }
    }
}

/// Toggling the same article twice leaves the selection as it was.
pub proof fn law_toggle_twice_restores(first: Seq<i64>, second: Seq<i64>, third: Seq<i64>, id: i64)
    requires
        toggled(first, second, id),
        toggled(second, third, id),
    ensures
        forall|x: i64| #[trigger] third.contains(x) == first.contains(x),
{
    assert forall|x: i64| #[trigger] third.contains(x) == first.contains(x) by {
        if x != id {
            assert(third.contains(x) == second.contains(x));
            assert(second.contains(x) == first.contains(x));
        }
    }
}

/// Marking one success changes no id and no URL of the library.
proof fn lemma_mark_uploaded_keeps_ids(items: Seq<ArticleListItem>, s: UploadSuccess)
    ensures
        ids_of(mark_uploaded(items, s)) == ids_of(items),
        article_urls(mark_uploaded(items, s)) == article_urls(items),
        mark_uploaded(items, s).len() == items.len(),
{
    lemma_first_id_index_range(items, s.article_id);
    assert(ids_of(mark_uploaded(items, s)) =~= ids_of(items));
    assert(article_urls(mark_uploaded(items, s)) =~= article_urls(items));
}

/// The first index of `id` is -1 or a position holding `id`.
proof fn lemma_first_id_index_range(items: Seq<ArticleListItem>, id: i64)
    ensures
        -1 <= first_id_index(items, id) < items.len(),
        first_id_index(items, id) >= 0 ==> items[first_id_index(items, id)].id == id,
        first_id_index(items, id) < 0 ==> !ids_of(items).contains(id),
    decreases items.len(),
{
    if items.len() > 0 && items[0].id != id {
        lemma_first_id_index_range(items.drop_first(), id);
        if first_id_index(items, id) < 0 && ids_of(items).contains(id) {
            let j = choose|j: int| 0 <= j < ids_of(items).len() && ids_of(items)[j] == id;
            assert(ids_of(items.drop_first())[j - 1] == id);
        }
    }
}

/// Uploads change no article's id or URL, and each success whose article
/// is saved leaves that article marked as uploaded.
pub proof fn law_uploads_keep_articles(items: Seq<ArticleListItem>, successes: Seq<UploadSuccess>)
    ensures
        ids_of(mark_all_uploaded(items, successes)) == ids_of(items),
        article_urls(mark_all_uploaded(items, successes)) == article_urls(items),
        forall|k: int|
            0 <= k < successes.len() && ids_of(items).contains(#[trigger] successes[k].article_id)
                ==> mark_all_uploaded(items, successes)[first_id_index(
                items,
                successes[k].article_id,
            )].uploaded_to_lingq,
    decreases successes.len(),
{
    if successes.len() > 0 {
        let pre = successes.drop_last();
        law_uploads_keep_articles(items, pre);
        let p = mark_all_uploaded(items, pre);
        let s = successes.last();
        lemma_mark_uploaded_keeps_ids(p, s);
        lemma_first_id_index_range(p, s.article_id);
        assert forall|k: int|
            0 <= k < successes.len() && ids_of(items).contains(#[trigger] successes[k].article_id)
                implies mark_all_uploaded(items, successes)[first_id_index(
                items,
                successes[k].article_id,
            )].uploaded_to_lingq by {
            let id = successes[k].article_id;
            lemma_first_id_index_same(p, items, id);
            lemma_first_id_index_range(items, id);
            if k < successes.len() - 1 {
                assert(pre[k] == successes[k]);
            }
        }
    }
}

/// The first index of an id depends only on the ids.
proof fn lemma_first_id_index_same(a: Seq<ArticleListItem>, b: Seq<ArticleListItem>, id: i64)
    requires
        ids_of(a) == ids_of(b),
    ensures
        first_id_index(a, id) == first_id_index(b, id),
    decreases a.len(),
{
    assert(a.len() == ids_of(a).len());
    assert(b.len() == ids_of(b).len());
    if a.len() > 0 {
        assert(a[0].id == ids_of(a)[0]);
        assert(b[0].id == ids_of(b)[0]);
        assert(ids_of(a.drop_first()) =~= ids_of(a).drop_first());
        assert(ids_of(b.drop_first()) =~= ids_of(b).drop_first());
        lemma_first_id_index_same(a.drop_first(), b.drop_first(), id);
    }
}

/// The slice of the library list that page `page_index` shows with
/// `page_size` articles per page: its offset (the product, or the largest
/// `usize` when that overflows) and its length.
pub fn current_library_page_request(page_index: usize, page_size: usize) -> (w: (usize, usize))
    ensures
        w.0 == if page_index * page_size <= usize::MAX {
            (page_index * page_size) as int
        } else {
            usize::MAX as int
        },
        w.1 == page_size,
{
    let offset = match page_index.checked_mul(page_size) {
        Some(o) => o,
        None => usize::MAX,
    };
    (offset, page_size)
}

/// The page to show instead when page `page_index` came back empty although
/// the query matches `total_count` articles: the last page that has any,
/// with pages of `page_size` (counted as at least one); `None` when the
/// page stands.
pub fn page_index_after_refresh(page_index: usize, total_count: usize, page_was_empty: bool, page_size: usize) -> (r:
    Option<usize>)
    ensures
        r matches Some(i) ==> total_count > 0 && page_was_empty && page_index > 0 && i == (total_count
            - 1) / (if page_size < 1 { 1 } else { page_size as int }),
        r is None ==> !(total_count > 0 && page_was_empty && page_index > 0),
{
    if total_count > 0 && page_was_empty && page_index > 0 {
        let size = if page_size < 1 {
            1
        } else {
            page_size
        };
        Some((total_count - 1) / size)
    } else {
        None
    }
}

/// The error messages of the parts of a content refresh that failed: the
/// imported URLs, the saved articles, the figures, in that order.
pub open spec fn refresh_failures(
    imported_urls: Result<Vec<String>, String>,
    library_articles: Result<Vec<ArticleListItem>, String>,
    library_stats: Result<LibraryStats, String>,
) -> Seq<Seq<char>> {
    let a: Seq<Seq<char>> = match imported_urls {
        Ok(_) => seq![],
        Err(m) => seq![m@],
    };
    let b: Seq<Seq<char>> = match library_articles {
        Ok(_) => seq![],
        Err(m) => seq![m@],
    };
    let c: Seq<Seq<char>> = match library_stats {
        Ok(_) => seq![],
        Err(m) => seq![m@],
    };
    a + b + c
}

/// The notice after a content refresh triggered by `reason`: none when
/// every part came back; else the first failure, as an error when all three
/// parts failed and as news otherwise.
pub open spec fn refresh_notice_spec(reason: Seq<char>, failures: Seq<Seq<char>>) -> Option<(Seq<char>, NoticeKind)> {
    if failures.len() == 0 {
        None
    } else {
        Some((
            "Refresh after "@ + reason + ": "@ + failures[0],
            if failures.len() == 3 {
                NoticeKind::Error
            } else {
                NoticeKind::Info
            },
        ))
    }
}

impl LibraryState {
    /// Takes in a content refresh: each part that came back replaces what the
    /// window held (the imported URLs as a set), each part that failed leaves
    /// it as it was; gives the notice to show.
    pub fn apply_content_refresh(
        &mut self,
        reason: &str,
        imported_urls: Result<Vec<String>, String>,
        library_articles: Result<Vec<ArticleListItem>, String>,
        library_stats: Result<LibraryStats, String>,
    ) -> (notice: Option<(String, NoticeKind)>)
        requires
            library_wf(*old(self)),
        ensures
            library_wf(*final(self)),
            match imported_urls {
                Ok(u) => forall|w: Seq<char>|
                    #![trigger views(final(self).browse_imported_urls@).contains(w)]
                    views(final(self).browse_imported_urls@).contains(w) <==> views(u@).contains(w),
                Err(_) => final(self).browse_imported_urls == old(self).browse_imported_urls,
            },
            match library_articles {
                Ok(a) => final(self).library_articles == a,
                Err(_) => final(self).library_articles == old(self).library_articles,
            },
            match library_stats {
                Ok(st) => final(self).library_stats == Some(st),
                Err(_) => final(self).library_stats == old(self).library_stats,
            },
            final(self).lingq_selected_articles == old(self).lingq_selected_articles,
            final(self).article_detail == old(self).article_detail,
            final(self).failed_fetches == old(self).failed_fetches,
            final(self).last_failed_uploads == old(self).last_failed_uploads,
            match notice {
                Some((t, k)) => refresh_notice_spec(
                    reason@,
                    refresh_failures(imported_urls, library_articles, library_stats),
                ) == Some((t@, k)),
                None => refresh_notice_spec(
                    reason@,
                    refresh_failures(imported_urls, library_articles, library_stats),
                ) is None,
            },
    {
        let ghost fails = refresh_failures(imported_urls, library_articles, library_stats);
        let mut failures: Vec<String> = Vec::new();
        match imported_urls {
            Ok(urls) => {
                let mut set: Vec<String> = Vec::new();
                let mut k: usize = 0;
                while k < urls.len()
                    invariant
                        k <= urls.len(),
                        views(set@).no_duplicates(),
                        forall|w: Seq<char>|
                            #![trigger views(set@).contains(w)]
                            views(set@).contains(w) <==> views(urls@).take(k as int).contains(w),
                    decreases urls.len() - k,
                {
                    let ghost t = views(urls@).take(k as int);
                    let ghost t2 = views(urls@).take(k + 1);
                    proof {
                        assert(t2 =~= t.push(urls@[k as int]@));
                    }
                    insert_url(&mut set, urls[k].as_str());
                    proof {
                        assert forall|w: Seq<char>| views(set@).contains(w) <==> t2.contains(w) by {
                            if t2.contains(w) {
                                let i = choose|i: int| 0 <= i < t2.len() && t2[i] == w;
                                if i < k {
                                    assert(t[i] == w);
                                }
                            }
                            if t.contains(w) {
                                let i = choose|i: int| 0 <= i < t.len() && t[i] == w;
                                assert(t2[i] == w);
                            }
                            if w == urls@[k as int]@ {
                                assert(t2[k as int] == w);
                            }
                        }
                    }
                    k = k + 1;
                }
                proof {
                    assert(views(urls@).take(urls.len() as int) =~= views(urls@));
                }
                self.browse_imported_urls = set;
            },
            Err(m) => failures.push(m),
        }
        match library_articles {
            Ok(a) => self.library_articles = a,
            Err(m) => failures.push(m),
        }
        match library_stats {
            Ok(st) => self.library_stats = Some(st),
            Err(m) => failures.push(m),
        }
        proof {
            assert(views(failures@) =~= fails);
        }
        if failures.len() == 0 {
            return None;
        }
        let mut text = copy_str("Refresh after ");
        push_str(&mut text, reason);
        push_str(&mut text, ": ");
        push_str(&mut text, failures[0].as_str());
        let kind = if failures.len() == 3 {
            NoticeKind::Error
        } else {
            NoticeKind::Info
        };
        Some((text, kind))
    }
}

/// Selecting by word count selects exactly the articles within every bound
/// given: at least `min` words when a minimum is given, at most `max` when
/// a maximum is given, each bound on its own, and not uploaded yet when
/// only those are asked for.
pub proof fn law_word_count_selection_respects_bounds(
    items: Seq<ArticleListItem>,
    selected: Seq<i64>,
    min: Option<usize>,
    max: Option<usize>,
    only_not_uploaded: bool,
)
    requires
        forall|x: i64|
            selected.contains(x) <==> exists|i: int|
                0 <= i < items.len() && (#[trigger] items[i]).id == x && word_count_selects(
                    items[i],
                    min,
                    max,
                    only_not_uploaded,
                ),
    ensures
        forall|x: i64|
            selected.contains(x) ==> exists|i: int|
                0 <= i < items.len() && (#[trigger] items[i]).id == x && (max matches Some(m) ==> items[i].word_count
                    as usize <= m) && (min matches Some(m) ==> items[i].word_count as usize >= m) && (
                only_not_uploaded ==> !items[i].uploaded_to_lingq),
        forall|i: int|
            0 <= i < items.len() && (max matches Some(m) ==> (#[trigger] items[i]).word_count as usize <= m) && (
            min matches Some(m) ==> items[i].word_count as usize >= m) && (only_not_uploaded
                ==> !items[i].uploaded_to_lingq) ==> selected.contains(items[i].id),
{
    assert forall|i: int|
        0 <= i < items.len() && (max matches Some(m) ==> (#[trigger] items[i]).word_count as usize <= m) && (
        min matches Some(m) ==> items[i].word_count as usize >= m) && (only_not_uploaded
            ==> !items[i].uploaded_to_lingq) implies selected.contains(items[i].id) by {
        assert(word_count_selects(items[i], min, max, only_not_uploaded));
    }
}

} // verus!
