//! The scraper's data model and its bookkeeping: article summaries found on
//! listing pages, the discovery counters, the de-duplicating collection of
//! summaries, the merge of per-section browse results, and the limits that
//! bound browsing work.
use vstd::prelude::*;
use crate::text::{copy_str, views};

verus! {

/// Upper bound on the number of sections browsed at the same time.
pub const MAX_BROWSE_SECTION_WORKERS: usize = 4;

/// Upper bound on the number of listing pages visited in one section.
pub const MAX_SECTION_PAGE_DEPTH: usize = 80;

/// Where a summary was discovered.
#[derive(Clone, Copy, Debug, PartialEq, Eq, Structural)]
pub enum DiscoverySourceKind {
    Section,
}

/// A section of the site: its identifier, display label and listing URL.
#[derive(Debug)]
pub struct Section {
    pub id: String,
    pub label: String,
    pub url: String,
}

/// The first section of `sections` with identifier `id`.
pub fn section_by_id<'a>(sections: &'a [Section], id: &str) -> (r: Option<&'a Section>)
    ensures
        r matches Some(s) ==> exists|k: int|
            0 <= k < sections@.len() && sections@[k] == *s && s.id@ == id@ && forall|j: int|
                0 <= j < k ==> sections@[j].id@ != id@,
        r is None ==> forall|j: int| 0 <= j < sections@.len() ==> sections@[j].id@ != id@,
{
    let mut k: usize = 0;
    while k < sections.len()
        invariant
            k <= sections@.len(),
            forall|j: int| 0 <= j < k ==> sections@[j].id@ != id@,
        decreases sections.len() - k,
    {
        if crate::text::str_equals(sections[k].id.as_str(), id) {
            return Some(&sections[k]);
        }
        k = k + 1;
    }
    None
}

/// An article as it appears on a listing page.
#[derive(Debug)]
pub struct ArticleSummary {
    pub url: String,
    pub title: String,
    pub teaser: String,
    pub author: String,
    pub date: String,
    pub section: String,
    pub source_kind: DiscoverySourceKind,
    pub source_label: String,
}

impl ArticleSummary {
    /// A field-by-field copy.
    pub fn duplicate(&self) -> (r: ArticleSummary)
        ensures
            r == *self,
    {
        ArticleSummary {
            url: self.url.clone(),
            title: self.title.clone(),
            teaser: self.teaser.clone(),
            author: self.author.clone(),
            date: self.date.clone(),
            section: self.section.clone(),
            source_kind: self.source_kind,
            source_label: self.source_label.clone(),
        }
    }
}

/// A fully extracted article.
#[derive(Debug)]
pub struct Article {
    pub url: String,
    pub title: String,
    pub subtitle: String,
    pub teaser: String,
    pub author: String,
    pub date: String,
    pub published_at: String,
    pub section: String,
    pub source_kind: String,
    pub source_label: String,
    pub body_text: String,
    pub clean_text: String,
    pub word_count: usize,
    pub fetched_at: String,
}

/// The identifying metadata of an article.
#[derive(Debug)]
pub struct ArticleMetadata {
    pub url: String,
    pub title: String,
    pub date: String,
    pub section: String,
}

/// Counters of a discovery run: listing pages visited, summaries taken,
/// and summaries dropped because their URL had been seen already.
#[derive(Clone, Copy, Debug, PartialEq, Eq, Structural)]
pub struct DiscoveryReport {
    pub section_pages: usize,
    pub section_articles: usize,
    pub deduped_articles: usize,
}

/// The counters as mathematical integers.
pub open spec fn report_view(r: DiscoveryReport) -> (int, int, int) {
    (r.section_pages as int, r.section_articles as int, r.deduped_articles as int)
}

/// Sum of two counter triples.
pub open spec fn report_sum(a: (int, int, int), b: (int, int, int)) -> (int, int, int) {
    (a.0 + b.0, a.1 + b.1, a.2 + b.2)
}

/// All counters are at most `bound`.
pub open spec fn report_within(r: (int, int, int), bound: int) -> bool {
    r.0 <= bound && r.1 <= bound && r.2 <= bound
}

impl DiscoveryReport {
    /// A report with every counter at zero.
    pub fn new() -> (r: DiscoveryReport)
        ensures
            report_view(r) == (0int, 0int, 0int),
    {
        DiscoveryReport { section_pages: 0, section_articles: 0, deduped_articles: 0 }
    }

    /// Counts one visited listing page.
    pub fn record_source_visit(&mut self, kind: DiscoverySourceKind)
        requires
            old(self).section_pages < usize::MAX,
        ensures
            report_view(*final(self)) == report_sum(report_view(*old(self)), (1int, 0int, 0int)),
    {
        match kind {
            DiscoverySourceKind::Section => {
                self.section_pages = self.section_pages + 1;
            },
        }
    }

    /// Counts one summary taken.
    pub fn record_article(&mut self, kind: DiscoverySourceKind)
        requires
            old(self).section_articles < usize::MAX,
        ensures
            report_view(*final(self)) == report_sum(report_view(*old(self)), (0int, 1int, 0int)),
    {
        match kind {
            DiscoverySourceKind::Section => {
                self.section_articles = self.section_articles + 1;
            },
        }
    }

    /// Adds the counters of `other`.
    pub fn merge(&mut self, other: &DiscoveryReport)
        requires
            report_within(report_sum(report_view(*old(self)), report_view(*other)), usize::MAX as int),
        ensures
            report_view(*final(self)) == report_sum(report_view(*old(self)), report_view(*other)),
    {
        self.section_pages = self.section_pages + other.section_pages;
        self.section_articles = self.section_articles + other.section_articles;
        self.deduped_articles = self.deduped_articles + other.deduped_articles;
    }
}

/// The outcome of browsing: summaries in discovery order, counters, and
/// whether no listing page is left to visit.
#[derive(Debug)]
pub struct BrowseSectionResult {
    pub articles: Vec<ArticleSummary>,
    pub report: DiscoveryReport,
    pub exhausted: bool,
}

/// The number of sections browsed at once: the section count, clamped to
/// between one and `MAX_BROWSE_SECTION_WORKERS`.
pub fn browse_section_worker_count(section_count: usize) -> (n: usize)
    ensures
        n == if section_count < 1 {
            1
        } else if section_count > MAX_BROWSE_SECTION_WORKERS {
            MAX_BROWSE_SECTION_WORKERS
        } else {
            section_count
        },
        1 <= n <= MAX_BROWSE_SECTION_WORKERS,
{
    if section_count < 1 {
        1
    } else if section_count > MAX_BROWSE_SECTION_WORKERS {
        MAX_BROWSE_SECTION_WORKERS
    } else {
        section_count
    }
}

/// `a / b` rounded up.
pub open spec fn ceil_div(a: int, b: int) -> int {
    if a % b == 0 {
        a / b
    } else {
        a / b + 1
    }
}

/// `x` limited to `[lo, hi]`.
pub open spec fn clamp(x: int, lo: int, hi: int) -> int {
    if x < lo {
        lo
    } else if x > hi {
        hi
    } else {
        x
    }
}

/// The number of listing pages worth visiting to find `target_limit`
/// summaries: one page per ten summaries, at least two and at most
/// `MAX_SECTION_PAGE_DEPTH`.
pub fn desired_section_page_count(target_limit: usize) -> (n: usize)
    ensures
        n == clamp(ceil_div(target_limit as int, 10), 2, MAX_SECTION_PAGE_DEPTH as int),
{
    let pages = target_limit / 10 + if target_limit % 10 == 0 {
        0
    } else {
        1
    };
    if pages < 2 {
        2
    } else if pages > MAX_SECTION_PAGE_DEPTH {
        MAX_SECTION_PAGE_DEPTH
    } else {
        pages
    }
}

/// A larger target never asks for fewer listing pages.
pub proof fn law_page_count_grows_with_target(smaller: usize, larger: usize)
    requires
        smaller <= larger,
    ensures
        clamp(ceil_div(smaller as int, 10), 2, MAX_SECTION_PAGE_DEPTH as int) <= clamp(
            ceil_div(larger as int, 10),
            2,
            MAX_SECTION_PAGE_DEPTH as int,
        ),
{
    vstd::arithmetic::div_mod::lemma_div_is_ordered(smaller as int, larger as int, 10);
    assert(ceil_div(smaller as int, 10) <= ceil_div(larger as int, 10));
}

/// The per-section target when `total_limit` summaries are wanted from
/// `section_count` sections (counted as at least one): an even share,
/// rounded up, and at least eight.
pub fn per_section_limit(total_limit: usize, section_count: usize) -> (n: usize)
    ensures
        n == if ceil_div(total_limit as int, if section_count < 1 { 1int } else { section_count as int }) < 8 {
            8
        } else {
            ceil_div(total_limit as int, if section_count < 1 { 1int } else { section_count as int })
        },
{
    let count = if section_count < 1 {
        1
    } else {
        section_count
    };
    proof {
        if count >= 2 {
            vstd::arithmetic::div_mod::lemma_div_is_ordered_by_denominator(total_limit as int, 2, count as int);
        }
    }
    let share = total_limit / count + if total_limit % count == 0 {
        0
    } else {
        1
    };
    if share < 8 {
        8
    } else {
        share
    }
}

// ---------------------------------------------------------------------------
// Collecting summaries
// ---------------------------------------------------------------------------

/// URL `u` has been seen.
pub open spec fn seen_url(seen: Seq<Seq<char>>, u: Seq<char>) -> bool {
    exists|k: int| 0 <= k < seen.len() && seen[k] == u
}

/// State of a collection: summaries taken, URLs seen, counters.
pub type CollectState = (Seq<ArticleSummary>, Seq<Seq<char>>, (int, int, int));

/// One candidate offered to a collection with room for `limit` summaries:
/// ignored when full, counted as a duplicate when its URL was seen, else
/// taken.
pub open spec fn collect_step(acc: CollectState, s: ArticleSummary, limit: int) -> CollectState {
    if acc.0.len() >= limit {
        acc
    } else if seen_url(acc.1, s.url@) {
        (acc.0, acc.1, (acc.2.0, acc.2.1, acc.2.2 + 1))
    } else {
        (acc.0.push(s), acc.1.push(s.url@), (acc.2.0, acc.2.1 + 1, acc.2.2))
    }
}

/// The candidates offered in order.
pub open spec fn collect_all(acc: CollectState, cands: Seq<ArticleSummary>, limit: int) -> CollectState
    decreases cands.len(),
{
    if cands.len() == 0 {
        acc
    } else {
        collect_step(collect_all(acc, cands.drop_last(), limit), cands.last(), limit)
    }
}

/// Offers the `candidates` of one listing page to a collection: each is
/// taken unless the collection already holds `limit` summaries or its URL
/// was seen before, in which case it is counted as a duplicate.
pub fn collect_articles(
    candidates: &Vec<ArticleSummary>,
    source_kind: DiscoverySourceKind,
    limit: usize,
    seen: &mut Vec<String>,
    articles: &mut Vec<ArticleSummary>,
    report: &mut DiscoveryReport,
)
    requires
        report_within(
            report_sum(report_view(*old(report)), (0int, candidates.len() as int, candidates.len() as int)),
            usize::MAX as int,
        ),
    ensures
        (final(articles)@, views(final(seen)@), report_view(*final(report))) == collect_all(
            (old(articles)@, views(old(seen)@), report_view(*old(report))),
            candidates@,
            limit as int,
        ),
{
    let ghost start = (articles@, views(seen@), report_view(*report));
    let ghost r0 = report_view(*report);
    let mut i: usize = 0;
    while i < candidates.len()
        invariant
            i <= candidates.len(),
            (articles@, views(seen@), report_view(*report)) == collect_all(
                start,
                candidates@.take(i as int),
                limit as int,
            ),
            report.section_articles <= r0.1 + i,
            report.deduped_articles <= r0.2 + i,
            report.section_pages == r0.0,
            r0.1 + candidates.len() <= usize::MAX,
            r0.2 + candidates.len() <= usize::MAX,
        decreases candidates.len() - i,
    {
        proof {
            assert(candidates@.take(i + 1).drop_last() =~= candidates@.take(i as int));
        }
        let s = &candidates[i];
        if articles.len() < limit {
            let mut found = false;
            let mut k: usize = 0;
            while k < seen.len()
                invariant
                    k <= seen.len(),
                    found ==> seen_url(views(seen@), s.url@),
                    !found ==> forall|m: int| 0 <= m < k ==> seen@[m]@ != s.url@,
                decreases seen.len() - k,
            {
                if seen[k] == s.url {
                    found = true;
                    assert(views(seen@)[k as int] == s.url@);
                }
                k = k + 1;
            }
            proof {
                if !found {
                    assert forall|m: int| 0 <= m < views(seen@).len() implies views(seen@)[m] != s.url@ by {
                        assert(views(seen@)[m] == seen@[m]@);
                    }
                }
            }
            if found {
                report.deduped_articles = report.deduped_articles + 1;
            } else {
                let u = s.url.clone();
                proof {
                    assert(views(seen@.push(u)) =~= views(seen@).push(s.url@));
                }
                seen.push(u);
                articles.push(s.duplicate());
                report.record_article(source_kind);
            }
        }
        i = i + 1;
    }
    proof {
        assert(candidates@.take(candidates.len() as int) =~= candidates@);
    }
}

} // verus!

verus! {

/// The browse state of one section: summaries and counters so far, whether
/// its listing pages are used up, and the page and URL bookkeeping.
#[derive(Debug)]
pub struct SectionBrowseState {
    pub articles: Vec<ArticleSummary>,
    pub report: DiscoveryReport,
    pub exhausted: bool,
    pub section: Section,
    pub pending_page_urls: std::collections::VecDeque<String>,
    pub discovered_page_urls: Vec<String>,
    pub seen_article_urls: Vec<String>,
    pub visited_page_urls: Vec<String>,
}

/// The URLs of a sequence of summaries.
pub open spec fn urls_of(arts: Seq<ArticleSummary>) -> Seq<Seq<char>> {
    arts.map_values(|a: ArticleSummary| a.url@)
}

/// Merged summaries and counters.
pub type MergeState = (Seq<ArticleSummary>, (int, int, int));

/// One summary offered to the merge: ignored once `limit` summaries are
/// held, counted as a duplicate when its URL is held already, else taken.
pub open spec fn merge_article_step(acc: MergeState, a: ArticleSummary, limit: int) -> MergeState {
    if acc.0.len() >= limit {
        acc
    } else if seen_url(urls_of(acc.0), a.url@) {
        (acc.0, (acc.1.0, acc.1.1, acc.1.2 + 1))
    } else {
        (acc.0.push(a), acc.1)
    }
}

pub open spec fn merge_articles(acc: MergeState, arts: Seq<ArticleSummary>, limit: int) -> MergeState
    decreases arts.len(),
{
    if arts.len() == 0 {
        acc
    } else {
        merge_article_step(merge_articles(acc, arts.drop_last(), limit), arts.last(), limit)
    }
}

/// The merge of the section states in order: each section's counters are
/// added and its summaries offered, until a section leaves `limit`
/// summaries merged; later sections are not looked at.
pub open spec fn merge_states(states: Seq<SectionBrowseState>, limit: int) -> MergeState
    decreases states.len(),
{
    if states.len() == 0 {
        (seq![], (0int, 0int, 0int))
    } else {
        let a = merge_states(states.drop_last(), limit);
        if states.len() > 1 && a.0.len() >= limit {
            a
        } else {
            merge_articles(
                (a.0, report_sum(a.1, report_view(states.last().report))),
                states.last().articles@,
                limit,
            )
        }
    }
}

/// Componentwise sum of the counters of all states.
pub open spec fn reports_total(states: Seq<SectionBrowseState>) -> (int, int, int)
    decreases states.len(),
{
    if states.len() == 0 {
        (0int, 0int, 0int)
    } else {
        report_sum(reports_total(states.drop_last()), report_view(states.last().report))
    }
}

/// Number of summaries held by all states.
pub open spec fn articles_total(states: Seq<SectionBrowseState>) -> int
    decreases states.len(),
{
    if states.len() == 0 {
        0
    } else {
        articles_total(states.drop_last()) + states.last().articles@.len()
    }
}

/// Every state has used up its listing pages.
pub open spec fn all_exhausted(states: Seq<SectionBrowseState>) -> bool {
    forall|i: int| 0 <= i < states.len() ==> #[trigger] states[i].exhausted
}

/// Offering summaries to a merge keeps its URLs distinct and never takes it
/// past `limit` summaries.
proof fn lemma_merge_articles_distinct(acc: MergeState, arts: Seq<ArticleSummary>, limit: int)
    requires
        urls_of(acc.0).no_duplicates(),
    ensures
        urls_of(merge_articles(acc, arts, limit).0).no_duplicates(),
        acc.0.len() <= limit ==> merge_articles(acc, arts, limit).0.len() <= limit,
    decreases arts.len(),
{
    if arts.len() > 0 {
        lemma_merge_articles_distinct(acc, arts.drop_last(), limit);
        let p = merge_articles(acc, arts.drop_last(), limit);
        let a = arts.last();
        if p.0.len() < limit && !seen_url(urls_of(p.0), a.url@) {
            let q = urls_of(p.0.push(a));
            assert(q =~= urls_of(p.0).push(a.url@));
            assert forall|i: int, j: int| 0 <= i < j < q.len() implies q[i] != q[j] by {
                if j == p.0.len() {
                    assert(q[i] == urls_of(p.0)[i]);
                    if q[i] == q[j] {
                        assert(seen_url(urls_of(p.0), a.url@));
                    }
                }
            }
        }
    }
}

/// Merging the sections' summaries holds each URL at most once, and never
/// more than `total_limit` summaries.
pub proof fn law_merge_is_distinct_and_bounded(states: Seq<SectionBrowseState>, total_limit: usize)
    ensures
        urls_of(merge_states(states, total_limit as int).0).no_duplicates(),
        merge_states(states, total_limit as int).0.len() <= total_limit,
    decreases states.len(),
{
    if states.len() > 0 {
        law_merge_is_distinct_and_bounded(states.drop_last(), total_limit);
        let a = merge_states(states.drop_last(), total_limit as int);
        lemma_merge_articles_distinct(
            (a.0, report_sum(a.1, report_view(states.last().report))),
            states.last().articles@,
            total_limit as int,
        );
    } else {
        assert(urls_of(seq![]) =~= Seq::<Seq<char>>::empty());
    }
}

proof fn lemma_merge_articles_bounds(acc: MergeState, arts: Seq<ArticleSummary>, limit: int)
    ensures
        merge_articles(acc, arts, limit).1.0 == acc.1.0,
        merge_articles(acc, arts, limit).1.1 == acc.1.1,
        acc.1.2 <= merge_articles(acc, arts, limit).1.2 <= acc.1.2 + arts.len(),
        acc.0.len() <= merge_articles(acc, arts, limit).0.len() <= acc.0.len() + arts.len(),
    decreases arts.len(),
{
    if arts.len() > 0 {
        lemma_merge_articles_bounds(acc, arts.drop_last(), limit);
    }
}

proof fn lemma_merge_states_bounds(states: Seq<SectionBrowseState>, limit: int)
    ensures
        merge_states(states, limit).1.0 <= reports_total(states).0,
        merge_states(states, limit).1.1 <= reports_total(states).1,
        merge_states(states, limit).1.2 <= reports_total(states).2 + articles_total(states),
        merge_states(states, limit).0.len() <= articles_total(states),
        0 <= merge_states(states, limit).1.0,
        0 <= merge_states(states, limit).1.1,
        0 <= merge_states(states, limit).1.2,
        0 <= articles_total(states),
    decreases states.len(),
{
    if states.len() > 0 {
        lemma_merge_states_bounds(states.drop_last(), limit);
        let a = merge_states(states.drop_last(), limit);
        lemma_merge_articles_bounds(
            (a.0, report_sum(a.1, report_view(states.last().report))),
            states.last().articles@,
            limit,
        );
    }
}

proof fn lemma_totals_prefix(states: Seq<SectionBrowseState>, i: int)
    requires
        0 <= i <= states.len(),
    ensures
        reports_total(states.take(i)).0 <= reports_total(states).0,
        reports_total(states.take(i)).1 <= reports_total(states).1,
        reports_total(states.take(i)).2 <= reports_total(states).2,
        articles_total(states.take(i)) <= articles_total(states),
    decreases states.len() - i,
{
    if i < states.len() {
        lemma_totals_prefix(states, i + 1);
        assert(states.take(i + 1).drop_last() =~= states.take(i));
    } else {
        assert(states.take(i) =~= states);
    }
}

/// The summaries of all sections merged in section order, each URL once
/// and at most `total_limit` of them, with summed counters; exhausted when
/// every section is.
pub fn merge_all_sections_states(section_states: &[SectionBrowseState], total_limit: usize) -> (r:
    BrowseSectionResult)
    requires
        report_within(
            report_sum(reports_total(section_states@), (0int, 0int, articles_total(section_states@))),
            usize::MAX as int,
        ),
    ensures
        (r.articles@, report_view(r.report)) == merge_states(section_states@, total_limit as int),
        r.exhausted == all_exhausted(section_states@),
{
    let ghost states = section_states@;
    let mut merged: Vec<ArticleSummary> = Vec::new();
    let mut report = DiscoveryReport::new();
    let mut seen: Vec<String> = Vec::new();
    let mut i: usize = 0;
    while i < section_states.len()
        invariant
            i <= section_states.len(),
            states == section_states@,
            (merged@, report_view(report)) == merge_states(states.take(i as int), total_limit as int),
            views(seen@) == urls_of(merged@),
            report_within(
                report_sum(reports_total(states), (0int, 0int, articles_total(states))),
                usize::MAX as int,
            ),
        decreases section_states.len() - i,
    {
        let ghost pre = states.take(i as int);
        let ghost post = states.take(i + 1);
        proof {
            assert(post.drop_last() =~= pre);
            assert(post.last() == states[i as int]);
        }
        if i > 0 && merged.len() >= total_limit {
        } else {
            let st = &section_states[i];
            proof {
                lemma_merge_states_bounds(pre, total_limit as int);
                lemma_totals_prefix(states, i as int);
                lemma_totals_prefix(states, i + 1);
                assert(reports_total(post) == report_sum(reports_total(pre), report_view(st.report)));
                assert(articles_total(post) == articles_total(pre) + st.articles@.len());
            }
            report.merge(&st.report);
            let ghost acc0: MergeState = (merged@, report_view(report));
            let ghost arts = st.articles@;
            let mut j: usize = 0;
            while j < st.articles.len()
                invariant
                    j <= st.articles.len(),
                    arts == st.articles@,
                    (merged@, report_view(report)) == merge_articles(acc0, arts.take(j as int), total_limit as int),
                    views(seen@) == urls_of(merged@),
                    report.deduped_articles + (arts.len() - j) <= usize::MAX,
                decreases st.articles.len() - j,
            {
                proof {
                    assert(arts.take(j + 1).drop_last() =~= arts.take(j as int));
                    assert(arts.take(j + 1).last() == arts[j as int]);
                }
                let a = &st.articles[j];
                if merged.len() < total_limit {
                    let mut found = false;
                    let mut k: usize = 0;
                    while k < seen.len()
                        invariant
                            k <= seen.len(),
                            found ==> seen_url(views(seen@), a.url@),
                            !found ==> forall|m: int| 0 <= m < k ==> seen@[m]@ != a.url@,
                        decreases seen.len() - k,
                    {
                        if seen[k] == a.url {
                            found = true;
                            assert(views(seen@)[k as int] == a.url@);
                        }
                        k = k + 1;
                    }
                    proof {
                        if !found {
                            assert forall|m: int| 0 <= m < views(seen@).len() implies views(seen@)[m]
                                != a.url@ by {
                                assert(views(seen@)[m] == seen@[m]@);
                            }
                        }
                    }
                    if found {
                        report.deduped_articles = report.deduped_articles + 1;
                    } else {
                        let u = a.url.clone();
                        proof {
                            assert(views(seen@.push(u)) =~= views(seen@).push(a.url@));
                            assert(urls_of(merged@.push(*a)) =~= urls_of(merged@).push(a.url@));
                        }
                        seen.push(u);
                        merged.push(a.duplicate());
                    }
                }
                j = j + 1;
            }
            proof {
                assert(arts.take(arts.len() as int) =~= arts);
            }
        }
        i = i + 1;
    }
    proof {
        assert(states.take(states.len() as int) =~= states);
    }
    let mut exhausted = true;
    let mut e: usize = 0;
    while e < section_states.len()
        invariant
            e <= section_states.len(),
            exhausted == (forall|m: int| 0 <= m < e ==> #[trigger] section_states@[m].exhausted),
        decreases section_states.len() - e,
    {
        exhausted = exhausted && section_states[e].exhausted;
        e = e + 1;
    }
    BrowseSectionResult { articles: merged, report, exhausted }
}

} // verus!
