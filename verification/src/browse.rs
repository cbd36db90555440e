//! Paging through a section's listing: which page to fetch next, what a
//! fetched page adds to the browse state, and when the section is used up.
//! Fetching the pages is left to the caller, which alternates between
//! `next_section_page` and `absorb_section_page`.
use vstd::prelude::*;
use crate::soziopolis::{
    ceil_div, clamp, collect_all, collect_articles, MAX_SECTION_PAGE_DEPTH, desired_section_page_count, report_sum, report_view,
    report_within, urls_of, ArticleSummary, DiscoveryReport, DiscoverySourceKind, Section,
    SectionBrowseState,
};
use crate::text::{contains_string, views};

verus! {

/// What to do next while growing a section's browse state.
#[derive(Debug)]
pub enum PageStep {
    /// Fetch this listing page, then hand it to `absorb_section_page`.
    Fetch(String),
    /// The page taken from the queue was visited already; ask again.
    Skip,
    /// Stop growing.
    Stop,
}

/// The bookkeeping of a browse state is consistent: no page visited twice,
/// no page discovered twice, no article URL seen twice, every queued page
/// discovered, and the held summaries have distinct URLs, all seen.
pub open spec fn browse_wf(s: SectionBrowseState) -> bool {
    &&& views(s.visited_page_urls@).no_duplicates()
    &&& views(s.discovered_page_urls@).no_duplicates()
    &&& views(s.seen_article_urls@).no_duplicates()
    &&& urls_of(s.articles@).no_duplicates()
    &&& forall|i: int| 0 <= i < s.articles@.len() ==> views(s.seen_article_urls@).contains(
        #[trigger] s.articles@[i].url@,
    )
    &&& forall|i: int| 0 <= i < s.pending_page_urls@.len() ==> views(s.discovered_page_urls@).contains(
        #[trigger] s.pending_page_urls@[i]@,
    )
}

/// The number of listing pages a section may have visited while growing
/// towards `target` summaries.
pub open spec fn page_budget(target: int) -> int {
    clamp(ceil_div(target, 10), 2, MAX_SECTION_PAGE_DEPTH as int)
}

/// The summaries wanted: the requested number, and never fewer than are
/// held already.
pub fn browse_target(state: &SectionBrowseState, target_limit: usize) -> (t: usize)
    ensures
        t == if target_limit >= state.articles@.len() {
            target_limit as int
        } else {
            state.articles@.len() as int
        },
{
    if target_limit >= state.articles.len() {
        target_limit
    } else {
        state.articles.len()
    }
}

/// What one call of `next_section_page` does to a browse state `o`,
/// giving `n` and `step`, while growing towards `target` summaries.
pub open spec fn next_page_effect(o: SectionBrowseState, n: SectionBrowseState, target: usize, step: PageStep) -> bool {
    &&& n.articles == o.articles
    &&& n.report == o.report
    &&& n.section == o.section
    &&& n.discovered_page_urls == o.discovered_page_urls
    &&& n.seen_article_urls == o.seen_article_urls
    &&& o.articles@.len() >= target ==> (step is Stop && n == o)
    &&& o.articles@.len() < target && o.pending_page_urls@.len() == 0 ==> (step is Stop && n.exhausted
        && n.pending_page_urls@ == o.pending_page_urls@ && n.visited_page_urls == o.visited_page_urls)
    &&& o.articles@.len() < target && o.pending_page_urls@.len() > 0 ==> ({
        let u = o.pending_page_urls@[0]@;
        let visited = views(o.visited_page_urls@);
        &&& views(n.pending_page_urls@) == views(o.pending_page_urls@).drop_first()
        &&& (visited.len() >= page_budget(target as int) ==> (step is Stop && n.exhausted == (
            n.pending_page_urls@.len() == 0) && n.visited_page_urls == o.visited_page_urls))
        &&& (visited.len() < page_budget(target as int) && visited.contains(u) ==> (step is Skip
            && n.exhausted == o.exhausted && n.visited_page_urls == o.visited_page_urls))
        &&& (visited.len() < page_budget(target as int) && !visited.contains(u) ==> (step matches PageStep::Fetch(
            p,
        ) && p@ == u && n.exhausted == o.exhausted && views(n.visited_page_urls@) == visited.push(u)))
    })
}

/// The next step of growing `state` towards `target` summaries: stop when
/// enough are held, when no page is queued (the section is then used up),
/// or when the page budget for `target` is spent; else take the next queued
/// page and fetch it unless it was visited before.
pub fn next_section_page(state: &mut SectionBrowseState, target: usize) -> (step: PageStep)
    requires
        browse_wf(*old(state)),
    ensures
        browse_wf(*final(state)),
        next_page_effect(*old(state), *final(state), target, step),

{
    if state.articles.len() >= target {
        return PageStep::Stop;
    }
    let ghost old_pending = state.pending_page_urls@;
    let page_url = match state.pending_page_urls.pop_front() {
        Some(u) => u,
        None => {
            state.exhausted = true;
            return PageStep::Stop;
        },
    };
    proof {
        assert(views(state.pending_page_urls@) =~= views(old_pending).drop_first());
        assert forall|i: int| 0 <= i < state.pending_page_urls@.len() implies views(
            state.discovered_page_urls@,
        ).contains(#[trigger] state.pending_page_urls@[i]@) by {
            assert(state.pending_page_urls@[i] == old_pending[i + 1]);
        }
    }
    let max_pages = desired_section_page_count(target);
    if state.visited_page_urls.len() >= max_pages {
        state.exhausted = state.pending_page_urls.len() == 0;
        return PageStep::Stop;
    }
    if contains_string(&state.visited_page_urls, page_url.as_str()) {
        return PageStep::Skip;
    }
    let ghost old_visited = views(state.visited_page_urls@);
    state.visited_page_urls.push(page_url.clone());
    proof {
        assert(views(state.visited_page_urls@) =~= old_visited.push(page_url@));
        assert forall|i: int, j: int|
            0 <= i < j < views(state.visited_page_urls@).len() implies views(state.visited_page_urls@)[i]
            != views(state.visited_page_urls@)[j] by {
            if j == old_visited.len() {
                assert(old_visited[i] == views(state.visited_page_urls@)[i]);
            }
        }
    }
    PageStep::Fetch(page_url)
}

/// `pending` and `discovered` after offering `urls` in order: each URL not
/// discovered yet is discovered and queued.
pub open spec fn queue_new(
    pending: Seq<Seq<char>>,
    discovered: Seq<Seq<char>>,
    urls: Seq<Seq<char>>,
) -> (Seq<Seq<char>>, Seq<Seq<char>>)
    decreases urls.len(),
{
    if urls.len() == 0 {
        (pending, discovered)
    } else {
        let p = queue_new(pending, discovered, urls.drop_last());
        if p.1.contains(urls.last()) {
            p
        } else {
            (p.0.push(urls.last()), p.1.push(urls.last()))
        }
    }
}

/// What one call of `absorb_section_page` does to a browse state `o`,
/// giving `n`: the candidates offered up to `target`, one more page
/// counted, the linked pages queued unless discovered before.
pub open spec fn absorb_effect(
    o: SectionBrowseState,
    n: SectionBrowseState,
    candidates: Seq<ArticleSummary>,
    page_urls: Seq<Seq<char>>,
    target: usize,
) -> bool {
    &&& (n.articles@, views(n.seen_article_urls@), report_view(n.report)) == collect_all(
        (o.articles@, views(o.seen_article_urls@), report_sum(report_view(o.report), (1int, 0int, 0int))),
        candidates,
        target as int,
    )
    &&& (views(n.pending_page_urls@), views(n.discovered_page_urls@)) == queue_new(
        views(o.pending_page_urls@),
        views(o.discovered_page_urls@),
        page_urls,
    )
    &&& n.visited_page_urls == o.visited_page_urls
    &&& n.exhausted == o.exhausted
    &&& n.section == o.section
}

/// What `finish_section_browse` does to a browse state `o`, giving `n`:
/// used up once no page is queued, all else kept.
pub open spec fn finish_effect(o: SectionBrowseState, n: SectionBrowseState) -> bool {
    &&& n.exhausted == (o.exhausted || o.pending_page_urls@.len() == 0)
    &&& n.articles == o.articles
    &&& n.report == o.report
    &&& n.pending_page_urls == o.pending_page_urls
    &&& n.visited_page_urls == o.visited_page_urls
    &&& n.discovered_page_urls == o.discovered_page_urls
    &&& n.seen_article_urls == o.seen_article_urls
    &&& n.section == o.section
}

/// Records a fetched listing page of `state`: one visited page, its
/// `candidates` offered to the state's summaries up to `target`, and the
/// listing pages it links to (`page_urls`) queued unless discovered before.
pub fn absorb_section_page(
    state: &mut SectionBrowseState,
    candidates: &Vec<ArticleSummary>,
    page_urls: &Vec<String>,
    target: usize,
)
    requires
        browse_wf(*old(state)),
        report_within(
            report_sum(
                report_view(old(state).report),
                (1int, candidates.len() as int, candidates.len() as int),
            ),
            usize::MAX as int,
        ),
    ensures
        browse_wf(*final(state)),
        absorb_effect(*old(state), *final(state), candidates@, views(page_urls@), target),
{
    state.report.record_source_visit(DiscoverySourceKind::Section);
    let ghost seen0 = views(state.seen_article_urls@);
    collect_articles(
        candidates,
        DiscoverySourceKind::Section,
        target,
        &mut state.seen_article_urls,
        &mut state.articles,
        &mut state.report,
    );
    proof {
        law_collect_keeps_seen_urls_distinct(
            (old(state).articles@, seen0, report_sum(report_view(old(state).report), (1int, 0int, 0int))),
            candidates@,
            target as int,
        );
        law_collect_keeps_summaries_recorded(
            (old(state).articles@, seen0, report_sum(report_view(old(state).report), (1int, 0int, 0int))),
            candidates@,
            target as int,
        );
    }
    let ghost a1 = state.articles;
    let ghost s1 = state.seen_article_urls;
    let ghost r1 = state.report;
    let ghost v1 = state.visited_page_urls;
    let ghost e1 = state.exhausted;
    let ghost sec1 = state.section;
    let ghost pv = views(page_urls@);
    let ghost p0 = views(state.pending_page_urls@);
    let ghost d0 = views(state.discovered_page_urls@);
    let mut k: usize = 0;
    while k < page_urls.len()
        invariant
            k <= page_urls.len(),
            pv == views(page_urls@),
            (views(state.pending_page_urls@), views(state.discovered_page_urls@)) == queue_new(
                p0,
                d0,
                pv.take(k as int),
            ),
            views(state.discovered_page_urls@).no_duplicates(),
            state.articles == a1,
            state.seen_article_urls == s1,
            state.report == r1,
            state.visited_page_urls == v1,
            state.exhausted == e1,
            state.section == sec1,
            forall|i: int| 0 <= i < state.pending_page_urls@.len() ==> views(state.discovered_page_urls@).contains(
                #[trigger] state.pending_page_urls@[i]@,
            ),
        decreases page_urls.len() - k,
    {
        proof {
            assert(pv.take(k + 1).drop_last() =~= pv.take(k as int));
            assert(pv.take(k + 1).last() == page_urls@[k as int]@);
        }
        let u = &page_urls[k];
        if !contains_string(&state.discovered_page_urls, u.as_str()) {
            let ghost dv = views(state.discovered_page_urls@);
            let ghost qv = state.pending_page_urls@;
            state.discovered_page_urls.push(u.clone());
            state.pending_page_urls.push_back(u.clone());
            proof {
                assert(views(state.discovered_page_urls@) =~= dv.push(u@));
                assert(views(state.pending_page_urls@) =~= views(qv).push(u@));
                assert forall|i: int, j: int|
                    0 <= i < j < views(state.discovered_page_urls@).len() implies views(
                    state.discovered_page_urls@,
                )[i] != views(state.discovered_page_urls@)[j] by {
                    if j == dv.len() {
                        assert(dv[i] == views(state.discovered_page_urls@)[i]);
                    }
                }
                assert forall|i: int| 0 <= i < state.pending_page_urls@.len() implies views(
                    state.discovered_page_urls@,
                ).contains(#[trigger] state.pending_page_urls@[i]@) by {
                    if i < qv.len() {
                        assert(state.pending_page_urls@[i] == qv[i]);
                        let j = choose|j: int| 0 <= j < dv.len() && dv[j] == qv[i]@;
                        assert(views(state.discovered_page_urls@)[j] == dv[j]);
                    } else {
                        assert(views(state.discovered_page_urls@)[dv.len() as int] == u@);
                    }
                }
            }
        }
        k = k + 1;
    }
    proof {
        assert(pv.take(page_urls.len() as int) =~= pv);
    }
}

/// Offering candidates keeps the held summaries' URLs distinct and each
/// among the seen URLs.
pub proof fn law_collect_keeps_summaries_recorded(
    acc: (Seq<ArticleSummary>, Seq<Seq<char>>, (int, int, int)),
    cands: Seq<ArticleSummary>,
    limit: int,
)
    requires
        urls_of(acc.0).no_duplicates(),
        forall|i: int| 0 <= i < acc.0.len() ==> acc.1.contains(#[trigger] acc.0[i].url@),
    ensures
        urls_of(collect_all(acc, cands, limit).0).no_duplicates(),
        forall|i: int|
            0 <= i < collect_all(acc, cands, limit).0.len() ==> collect_all(acc, cands, limit).1.contains(
                #[trigger] collect_all(acc, cands, limit).0[i].url@,
            ),
    decreases cands.len(),
{
    if cands.len() > 0 {
        law_collect_keeps_summaries_recorded(acc, cands.drop_last(), limit);
        let p = collect_all(acc, cands.drop_last(), limit);
        let s = cands.last();
        if p.0.len() < limit && !crate::soziopolis::seen_url(p.1, s.url@) {
            let q = urls_of(p.0.push(s));
            assert(q =~= urls_of(p.0).push(s.url@));
            assert forall|i: int, j: int| 0 <= i < j < q.len() implies q[i] != q[j] by {
                if j == p.0.len() {
                    assert(q[i] == p.0[i].url@);
                    assert(p.1.contains(p.0[i].url@));
                    if q[i] == q[j] {
                        let k = choose|k: int| 0 <= k < p.1.len() && p.1[k] == p.0[i].url@;
                        assert(crate::soziopolis::seen_url(p.1, s.url@));
                    }
                } else {
                    assert(q[i] == urls_of(p.0)[i] && q[j] == urls_of(p.0)[j]);
                }
            }
            let np = p.0.push(s);
            let n1 = p.1.push(s.url@);
            assert forall|i: int| 0 <= i < np.len() implies n1.contains(#[trigger] np[i].url@) by {
                if i < p.0.len() {
                    assert(np[i] == p.0[i]);
                    let k = choose|k: int| 0 <= k < p.1.len() && p.1[k] == p.0[i].url@;
                    assert(n1[k] == p.1[k]);
                } else {
                    assert(n1[p.1.len() as int] == s.url@);
                }
            }
        }
    }
}

/// Offering candidates never makes the seen URLs repeat.
pub proof fn law_collect_keeps_seen_urls_distinct(
    acc: (Seq<ArticleSummary>, Seq<Seq<char>>, (int, int, int)),
    cands: Seq<ArticleSummary>,
    limit: int,
)
    requires
        acc.1.no_duplicates(),
    ensures
        collect_all(acc, cands, limit).1.no_duplicates(),
    decreases cands.len(),
{
    if cands.len() > 0 {
        law_collect_keeps_seen_urls_distinct(acc, cands.drop_last(), limit);
        let p = collect_all(acc, cands.drop_last(), limit);
        let s = cands.last();
        if p.0.len() < limit && !crate::soziopolis::seen_url(p.1, s.url@) {
            let q = p.1.push(s.url@);
            assert forall|i: int, j: int| 0 <= i < j < q.len() implies q[i] != q[j] by {
                if j == p.1.len() {
                    assert(q[i] == p.1[i]);
                }
            }
        }
    }
}

/// Offering candidates never takes a collection past `limit` summaries,
/// nor drops any it held.
pub proof fn law_collect_stays_within_limit(
    acc: (Seq<ArticleSummary>, Seq<Seq<char>>, (int, int, int)),
    cands: Seq<ArticleSummary>,
    limit: int,
)
    requires
        acc.0.len() <= limit,
    ensures
        acc.0.len() <= collect_all(acc, cands, limit).0.len() <= limit,
        collect_all(acc, cands, limit).0.take(acc.0.len() as int) == acc.0,
    decreases cands.len(),
{
    if cands.len() > 0 {
        law_collect_stays_within_limit(acc, cands.drop_last(), limit);
        let p = collect_all(acc, cands.drop_last(), limit);
        if p.0.len() < limit && !crate::soziopolis::seen_url(p.1, cands.last().url@) {
            assert(p.0.push(cands.last()).take(acc.0.len() as int) =~= p.0.take(acc.0.len() as int));
        }
    } else {
        assert(acc.0.take(acc.0.len() as int) =~= acc.0);
    }
}

/// Marks `state` as used up when no listing page is queued.
pub fn finish_section_browse(state: &mut SectionBrowseState)
    ensures
        finish_effect(*old(state), *final(state)),
{
    if state.pending_page_urls.len() == 0 {
        state.exhausted = true;
    }
}

/// The browse state of `section` after its first listing page
/// (`first_page_url`): the page's `candidates` collected, one page
/// visited, and the listing pages it links to (`page_urls`) queued.
pub fn start_section_state(
    section: Section,
    first_page_url: String,
    candidates: &Vec<ArticleSummary>,
    page_urls: &Vec<String>,
) -> (state: SectionBrowseState)
    requires
        candidates.len() < usize::MAX,
    ensures
        browse_wf(state),
        (state.articles@, views(state.seen_article_urls@), report_view(state.report)) == collect_all(
            (seq![], seq![], (1int, 0int, 0int)),
            candidates@,
            usize::MAX as int,
        ),
        (views(state.pending_page_urls@), views(state.discovered_page_urls@)) == queue_new(
            seq![],
            seq![],
            views(page_urls@),
        ),
        views(state.visited_page_urls@) == seq![first_page_url@],
        state.exhausted == (state.pending_page_urls@.len() == 0),
        state.section == section,
{
    let mut state = SectionBrowseState {
        articles: Vec::new(),
        report: DiscoveryReport::new(),
        exhausted: false,
        section,
        pending_page_urls: std::collections::VecDeque::new(),
        discovered_page_urls: Vec::new(),
        seen_article_urls: Vec::new(),
        visited_page_urls: Vec::new(),
    };
    proof {
        assert(views(state.visited_page_urls@) =~= Seq::<Seq<char>>::empty());
        assert(views(state.seen_article_urls@) =~= Seq::<Seq<char>>::empty());
        assert(views(state.discovered_page_urls@) =~= Seq::<Seq<char>>::empty());
        assert(views(state.pending_page_urls@) =~= Seq::<Seq<char>>::empty());
    }
    absorb_section_page(&mut state, candidates, page_urls, usize::MAX);
    state.visited_page_urls.push(first_page_url);
    proof {
        assert(views(state.visited_page_urls@) =~= seq![first_page_url@]);
    }
    state.exhausted = state.pending_page_urls.len() == 0;
    state
}

/// A browse state counts as used up only when no listing page is queued.
pub open spec fn exhausted_only_when_drained(s: SectionBrowseState) -> bool {
    s.exhausted ==> s.pending_page_urls@.len() == 0
}

/// Taking the next listing page keeps "used up" meaning "nothing queued",
/// leaves a fetched state not used up, keeps the summaries, and only ever
/// adds to the visited pages.
pub proof fn law_next_page_keeps_exhausted_drained(
    o: SectionBrowseState,
    n: SectionBrowseState,
    target: usize,
    step: PageStep,
)
    requires
        exhausted_only_when_drained(o),
        next_page_effect(o, n, target, step),
    ensures
        exhausted_only_when_drained(n),
        step is Fetch ==> !n.exhausted,
        n.articles == o.articles,
        views(o.visited_page_urls@).len() <= views(n.visited_page_urls@).len(),
        views(n.visited_page_urls@).take(views(o.visited_page_urls@).len() as int) == views(
            o.visited_page_urls@,
        ),
{
    let ov = views(o.visited_page_urls@);
    let nv = views(n.visited_page_urls@);
    assert(ov.take(ov.len() as int) =~= ov);
    if o.articles@.len() < target && o.pending_page_urls@.len() > 0 {
        assert(views(n.pending_page_urls@).len() == n.pending_page_urls@.len());
        assert(views(o.pending_page_urls@).len() == o.pending_page_urls@.len());
        let u = o.pending_page_urls@[0]@;
        if ov.len() < page_budget(target as int) && !ov.contains(u) {
            assert(nv.take(ov.len() as int) =~= ov);
        }
    }
}

/// Absorbing a fetched page leaves a state that was not used up still not
/// used up.
pub proof fn law_absorb_keeps_exhausted_drained(
    o: SectionBrowseState,
    n: SectionBrowseState,
    candidates: Seq<ArticleSummary>,
    page_urls: Seq<Seq<char>>,
    target: usize,
)
    requires
        !o.exhausted,
        absorb_effect(o, n, candidates, page_urls, target),
    ensures
        !n.exhausted,
        exhausted_only_when_drained(n),
{
}

/// Finishing a browse whose steps kept "used up" meaning "nothing queued"
/// makes the two the same: the state is used up exactly when no listing
/// page is queued.
pub proof fn law_finish_makes_exhausted_mean_drained(o: SectionBrowseState, n: SectionBrowseState)
    requires
        exhausted_only_when_drained(o),
        finish_effect(o, n),
    ensures
        n.exhausted == (n.pending_page_urls@.len() == 0),
{
}

/// A collection that is full takes nothing more.
proof fn lemma_collect_when_full(
    acc: (Seq<ArticleSummary>, Seq<Seq<char>>, (int, int, int)),
    cands: Seq<ArticleSummary>,
    limit: int,
)
    requires
        acc.0.len() >= limit,
    ensures
        collect_all(acc, cands, limit) == acc,
    decreases cands.len(),
{
    if cands.len() > 0 {
        lemma_collect_when_full(acc, cands.drop_last(), limit);
    }
}

/// Absorbing a fetched page keeps the summaries held before as the start of
/// the list, and grows it to at most the larger of `target` and what was
/// held.
pub proof fn law_absorb_keeps_earlier_summaries(
    o: SectionBrowseState,
    n: SectionBrowseState,
    candidates: Seq<ArticleSummary>,
    page_urls: Seq<Seq<char>>,
    target: usize,
)
    requires
        absorb_effect(o, n, candidates, page_urls, target),
    ensures
        o.articles@.len() <= n.articles@.len(),
        n.articles@.take(o.articles@.len() as int) == o.articles@,
        n.articles@.len() <= (if target >= o.articles@.len() { target as int } else { o.articles@.len() as int }),
{
    let acc = (o.articles@, views(o.seen_article_urls@), report_sum(report_view(o.report), (1int, 0int, 0int)));
    if o.articles@.len() <= target {
        law_collect_stays_within_limit(acc, candidates, target as int);
    } else {
        lemma_collect_when_full(acc, candidates, target as int);
        assert(o.articles@.take(o.articles@.len() as int) =~= o.articles@);
    }
}

/// Whether a finished browse (or refresh) with request id `got` still
/// answers the latest request `current`; older results are dropped.
pub fn accept_browse_result(current: u64, got: u64) -> (b: bool)
    ensures
        b == (current == got),
{
    current == got
}

/// One move while growing a section's browse state towards `target`: a
/// call of `next_section_page`, or a call of `absorb_section_page` on a
/// state that is not used up (one right after a fetch).
pub open spec fn browse_move(o: SectionBrowseState, n: SectionBrowseState, target: usize) -> bool {
    ||| exists|step: PageStep| next_page_effect(o, n, target, step)
    ||| (!o.exhausted && exists|c: Seq<ArticleSummary>, p: Seq<Seq<char>>| absorb_effect(o, n, c, p, target))
}

/// `states` is the run of growing a section towards `target`: moves from
/// one state to the next, then `finish_section_browse` last.
pub open spec fn grow_run(states: Seq<SectionBrowseState>, target: usize) -> bool {
    &&& states.len() >= 2
    &&& forall|i: int| 0 <= i < states.len() - 2 ==> browse_move(#[trigger] states[i], states[i + 1], target)
    &&& finish_effect(states[states.len() - 2], states[states.len() - 1])
}

/// The held summaries have distinct URLs, each among the seen URLs.
pub open spec fn summaries_recorded(s: SectionBrowseState) -> bool {
    &&& urls_of(s.articles@).no_duplicates()
    &&& forall|i: int| 0 <= i < s.articles@.len() ==> views(s.seen_article_urls@).contains(
        #[trigger] s.articles@[i].url@,
    )
}

/// What a run keeps from its first state up to state `k`.
pub open spec fn run_keeps(s0: SectionBrowseState, sk: SectionBrowseState, target: usize) -> bool {
    &&& exhausted_only_when_drained(s0) ==> exhausted_only_when_drained(sk)
    &&& summaries_recorded(s0) ==> summaries_recorded(sk)
    &&& s0.articles@.len() <= sk.articles@.len()
    &&& sk.articles@.take(s0.articles@.len() as int) == s0.articles@
    &&& sk.articles@.len() <= (if target >= s0.articles@.len() { target as int } else { s0.articles@.len() as int })
    &&& sk.section == s0.section
    &&& views(s0.visited_page_urls@).len() <= views(sk.visited_page_urls@).len()
    &&& views(sk.visited_page_urls@).take(views(s0.visited_page_urls@).len() as int) == views(
        s0.visited_page_urls@,
    )
}

/// One move keeps what a run keeps.
proof fn lemma_move_keeps(o: SectionBrowseState, n: SectionBrowseState, target: usize)
    requires
        browse_move(o, n, target),
    ensures
        run_keeps(o, n, target),
{
    let ov = views(o.visited_page_urls@);
    assert(ov.take(ov.len() as int) =~= ov);
    assert(o.articles@.take(o.articles@.len() as int) =~= o.articles@);
    if exists|step: PageStep| next_page_effect(o, n, target, step) {
        let step = choose|step: PageStep| next_page_effect(o, n, target, step);
        if exhausted_only_when_drained(o) {
            law_next_page_keeps_exhausted_drained(o, n, target, step);
        } else {
            law_next_page_visits_grow(o, n, target, step);
        }
    } else {
        let (c, p) = choose|c: Seq<ArticleSummary>, p: Seq<Seq<char>>| absorb_effect(o, n, c, p, target);
        law_absorb_keeps_exhausted_drained(o, n, c, p, target);
        law_absorb_keeps_earlier_summaries(o, n, c, p, target);
        let acc = (o.articles@, views(o.seen_article_urls@), report_sum(report_view(o.report), (1int, 0int, 0int)));
        if summaries_recorded(o) {
            law_collect_keeps_summaries_recorded(acc, c, target as int);
        }
    }
}

/// Taking the next listing page only ever adds to the visited pages.
proof fn law_next_page_visits_grow(o: SectionBrowseState, n: SectionBrowseState, target: usize, step: PageStep)
    requires
        next_page_effect(o, n, target, step),
    ensures
        views(o.visited_page_urls@).len() <= views(n.visited_page_urls@).len(),
        views(n.visited_page_urls@).take(views(o.visited_page_urls@).len() as int) == views(
            o.visited_page_urls@,
        ),
{
    let ov = views(o.visited_page_urls@);
    let nv = views(n.visited_page_urls@);
    assert(ov.take(ov.len() as int) =~= ov);
    if o.articles@.len() < target && o.pending_page_urls@.len() > 0 {
        let u = o.pending_page_urls@[0]@;
        if ov.len() < page_budget(target as int) && !ov.contains(u) {
            assert(nv.take(ov.len() as int) =~= ov);
        }
    }
}

/// What a run keeps composes: from the first state to `a`, then a move.
proof fn lemma_keeps_compose(
    s0: SectionBrowseState,
    a: SectionBrowseState,
    b: SectionBrowseState,
    target: usize,
)
    requires
        run_keeps(s0, a, target),
        run_keeps(a, b, target),
        a.articles@.len() <= (if target >= s0.articles@.len() { target as int } else { s0.articles@.len() as int }),
    ensures
        run_keeps(s0, b, target),
{
    let n0 = s0.articles@.len() as int;
    assert(b.articles@.take(n0) =~= b.articles@.take(a.articles@.len() as int).take(n0));
    let v0 = views(s0.visited_page_urls@).len() as int;
    let va = views(a.visited_page_urls@).len() as int;
    assert(views(b.visited_page_urls@).take(v0) =~= views(b.visited_page_urls@).take(va).take(v0));
}

/// The states of a run up to `k` keep what a run keeps.
proof fn lemma_run_prefix(states: Seq<SectionBrowseState>, target: usize, k: int)
    requires
        grow_run(states, target),
        0 <= k <= states.len() - 2,
    ensures
        run_keeps(states[0], states[k], target),
    decreases k,
{
    let s0 = states[0];
    if k == 0 {
        let ov = views(s0.visited_page_urls@);
        assert(ov.take(ov.len() as int) =~= ov);
        assert(s0.articles@.take(s0.articles@.len() as int) =~= s0.articles@);
    } else {
        lemma_run_prefix(states, target, k - 1);
        let a = states[k - 1];
        let b = states[k];
        assert(browse_move(states[k - 1], states[k], target));
        lemma_move_keeps(a, b, target);
        lemma_keeps_compose(s0, a, b, target);
    }
}

/// Growing a section from a state that counts as used up exactly when
/// nothing is queued ends the same way: used up exactly when no listing
/// page is queued.
pub proof fn law_grow_run_exhausted_means_drained(states: Seq<SectionBrowseState>, target: usize)
    requires
        grow_run(states, target),
        states[0].exhausted == (states[0].pending_page_urls@.len() == 0),
    ensures
        states.last().exhausted == (states.last().pending_page_urls@.len() == 0),
{
    let k = states.len() - 2;
    lemma_run_prefix(states, target, k);
    law_finish_makes_exhausted_mean_drained(states[k], states[k + 1]);
}

/// Growing a section keeps the summaries held at the start as the start of
/// the list, holds at most the larger of `target` and what was held, keeps
/// the summaries' URLs distinct and recorded as seen, keeps the section, and
/// only ever adds to the visited pages.
pub proof fn law_grow_run_keeps_earlier_summaries(states: Seq<SectionBrowseState>, target: usize)
    requires
        grow_run(states, target),
        summaries_recorded(states[0]),
    ensures
        states[0].articles@.len() <= states.last().articles@.len(),
        states.last().articles@.take(states[0].articles@.len() as int) == states[0].articles@,
        states.last().articles@.len() <= (if target >= states[0].articles@.len() {
            target as int
        } else {
            states[0].articles@.len() as int
        }),
        summaries_recorded(states.last()),
        states.last().section == states[0].section,
        views(states.last().visited_page_urls@).take(views(states[0].visited_page_urls@).len() as int) == views(
            states[0].visited_page_urls@,
        ),
{
    let k = states.len() - 2;
    lemma_run_prefix(states, target, k);
    let a = states[k];
    let b = states[k + 1];
    assert(b.articles == a.articles && b.visited_page_urls == a.visited_page_urls && b.section == a.section
        && b.seen_article_urls == a.seen_article_urls);
}

} // verus!
