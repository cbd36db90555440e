//! What the reader window queues and reports: which articles an import job
//! takes, which failures can be retried, and how a finished job is
//! announced.
use vstd::prelude::*;
use crate::library::{FailedFetchItem, UploadFailure};
use crate::soziopolis::{ArticleSummary, DiscoverySourceKind};
use crate::text::{contains_string, copy_str, decimal, decimal_string, opt_view, push_str, str_equals, trim, trim_ws, views};

verus! {

/// How a notice is shown.
#[derive(Debug, Clone, Copy, PartialEq, Eq, Structural)]
pub enum NoticeKind {
    Info,
    Success,
    Error,
}

/// Whether `a` is a bare summary for `url` and `title`: every other text
/// empty, found through a section.
pub open spec fn is_placeholder(a: ArticleSummary, url: Seq<char>, title: Seq<char>) -> bool {
    &&& a.url@ == url
    &&& a.title@ == title
    &&& a.teaser@ == Seq::<char>::empty()
    &&& a.author@ == Seq::<char>::empty()
    &&& a.date@ == Seq::<char>::empty()
    &&& a.section@ == Seq::<char>::empty()
    &&& a.source_kind == DiscoverySourceKind::Section
    &&& a.source_label@ == Seq::<char>::empty()
}

/// A bare summary for `url` and `title`.
fn placeholder(url: &str, title: &str) -> (a: ArticleSummary)
    ensures
        is_placeholder(a, url@, title@),
{
    ArticleSummary {
        url: copy_str(url),
        title: copy_str(title),
        teaser: String::new(),
        author: String::new(),
        date: String::new(),
        section: String::new(),
        source_kind: DiscoverySourceKind::Section,
        source_label: String::new(),
    }
}

/// The articles an import of the selected URLs takes: the listed articles
/// whose URL is selected, in listing order, then a bare summary for each
/// selected URL that no listed article has, in selection order; `None`
/// when that comes to nothing.
pub fn articles_for_import(browse_articles: &Vec<ArticleSummary>, selected: &Vec<String>) -> (r:
    Option<Vec<ArticleSummary>>)
    ensures
        match r {
            None => browse_selection(browse_articles@, views(selected@)).len() == 0
                && unlisted(browse_articles@, views(selected@)).len() == 0,
            Some(v) => {
                &&& v@.len() > 0
                &&& v@.len() == browse_selection(browse_articles@, views(selected@)).len() + unlisted(
                    browse_articles@,
                    views(selected@),
                ).len()
                &&& forall|i: int|
                    0 <= i < browse_selection(browse_articles@, views(selected@)).len() ==> v@[i]
                        == #[trigger] browse_selection(browse_articles@, views(selected@))[i]
                &&& forall|j: int|
                    0 <= j < unlisted(browse_articles@, views(selected@)).len() ==> is_placeholder(
                        #[trigger] v@[browse_selection(browse_articles@, views(selected@)).len() + j],
                        unlisted(browse_articles@, views(selected@))[j],
                        Seq::<char>::empty(),
                    )
            },
        },
{
    let ghost sel = views(selected@);
    let ghost arts = browse_articles@;
    let mut out: Vec<ArticleSummary> = Vec::new();
    let mut k: usize = 0;
    while k < browse_articles.len()
        invariant
            k <= browse_articles.len(),
            sel == views(selected@),
            arts == browse_articles@,
            out@ == browse_selection(arts.take(k as int), sel),
        decreases browse_articles.len() - k,
    {
        proof {
            assert(arts.take(k + 1).drop_last() =~= arts.take(k as int));
            assert(arts.take(k + 1).last() == arts[k as int]);
        }
        if contains_string(selected, browse_articles[k].url.as_str()) {
            out.push(browse_articles[k].duplicate());
        }
        k = k + 1;
    }
    proof {
        assert(arts.take(arts.len() as int) =~= arts);
    }
    let ghost listed = out@;
    let mut listed_urls: Vec<String> = Vec::new();
    let mut m: usize = 0;
    while m < browse_articles.len()
        invariant
            m <= browse_articles.len(),
            arts == browse_articles@,
            views(listed_urls@) == arts.take(m as int).map_values(|a: ArticleSummary| a.url@),
        decreases browse_articles.len() - m,
    {
        let ghost before = views(listed_urls@);
        listed_urls.push(browse_articles[m].url.clone());
        proof {
            assert(views(listed_urls@) =~= before.push(arts[m as int].url@));
            assert(arts.take(m + 1).map_values(|a: ArticleSummary| a.url@) =~= arts.take(
                m as int,
            ).map_values(|a: ArticleSummary| a.url@).push(arts[m as int].url@));
        }
        m = m + 1;
    }
    proof {
        assert(arts.take(arts.len() as int) =~= arts);
    }
    let mut j: usize = 0;
    while j < selected.len()
        invariant
            j <= selected.len(),
            sel == views(selected@),
            arts == browse_articles@,
            views(listed_urls@) == arts.map_values(|a: ArticleSummary| a.url@),
            out@.len() == listed.len() + unlisted(arts, sel.take(j as int)).len(),
            forall|i: int| 0 <= i < listed.len() ==> out@[i] == #[trigger] listed[i],
            forall|t: int|
                0 <= t < unlisted(arts, sel.take(j as int)).len() ==> is_placeholder(
                    #[trigger] out@[listed.len() + t],
                    unlisted(arts, sel.take(j as int))[t],
                    Seq::<char>::empty(),
                ),
        decreases selected.len() - j,
    {
        proof {
            assert(sel.take(j + 1).drop_last() =~= sel.take(j as int));
            assert(sel.take(j + 1).last() == sel[j as int]);
        }
        let u = selected[j].as_str();
        let ghost before = out@;
        let ghost prev = unlisted(arts, sel.take(j as int));
        proof {
            reveal_strlit("");
            assert(""@ =~= Seq::<char>::empty());
            assert(sel[j as int] == u@);
        }
        if !contains_string(&listed_urls, u) {
            let p = placeholder(u, "");
            let ghost pv = p;
            out.push(p);
            proof {
                assert(out@ == before.push(pv));
                assert(unlisted(arts, sel.take(j + 1)) == prev.push(u@));
                assert forall|t: int|
                    0 <= t < unlisted(arts, sel.take(j + 1)).len() implies is_placeholder(
                        #[trigger] out@[listed.len() + t],
                        unlisted(arts, sel.take(j + 1))[t],
                        Seq::<char>::empty(),
                    ) by {
                    if t < prev.len() {
                        assert(out@[listed.len() + t] == before[listed.len() + t]);
                        assert(is_placeholder(before[listed.len() + t], prev[t], Seq::<char>::empty()));
                    } else {
                        assert(out@[listed.len() + t] == pv);
                        assert(unlisted(arts, sel.take(j + 1))[t] == u@);
                        assert(is_placeholder(pv, u@, ""@));
                    }
                }
            }
        } else {
            proof {
                assert(unlisted(arts, sel.take(j + 1)) == prev);
            }
        }
        j = j + 1;
    }
    proof {
        assert(sel.take(sel.len() as int) =~= sel);
    }
    if out.len() == 0 {
        None
    } else {
        Some(out)
    }
}

/// The listed articles whose URL is among `sel`, in listing order.
pub open spec fn browse_selection(arts: Seq<ArticleSummary>, sel: Seq<Seq<char>>) -> Seq<ArticleSummary>
    decreases arts.len(),
{
    if arts.len() == 0 {
        arts
    } else {
        let p = browse_selection(arts.drop_last(), sel);
        if sel.contains(arts.last().url@) {
            p.push(arts.last())
        } else {
            p
        }
    }
}

/// The selected URLs that no listed article has, in selection order.
pub open spec fn unlisted(arts: Seq<ArticleSummary>, sel: Seq<Seq<char>>) -> Seq<Seq<char>>
    decreases sel.len(),
{
    if sel.len() == 0 {
        sel
    } else {
        let p = unlisted(arts, sel.drop_last());
        if arts.map_values(|a: ArticleSummary| a.url@).contains(sel.last()) {
            p
        } else {
            p.push(sel.last())
        }
    }
}

/// The failed imports that can be retried: those with a URL that is not
/// blank, in order.
pub open spec fn retryable_imports(failed: Seq<FailedFetchItem>) -> Seq<FailedFetchItem>
    decreases failed.len(),
{
    if failed.len() == 0 {
        failed
    } else {
        let p = retryable_imports(failed.drop_last());
        if trim(failed.last().url@).len() > 0 {
            p.push(failed.last())
        } else {
            p
        }
    }
}

/// A bare summary for each failed import that can be retried, carrying its
/// URL and title, in order.
pub fn retry_import_articles(failed: &Vec<FailedFetchItem>) -> (r: Vec<ArticleSummary>)
    ensures
        r@.len() == retryable_imports(failed@).len(),
        forall|i: int|
            0 <= i < r@.len() ==> is_placeholder(
                #[trigger] r@[i],
                retryable_imports(failed@)[i].url@,
                retryable_imports(failed@)[i].title@,
            ),
{
    let ghost f = failed@;
    let mut out: Vec<ArticleSummary> = Vec::new();
    let mut k: usize = 0;
    while k < failed.len()
        invariant
            k <= failed.len(),
            f == failed@,
            out@.len() == retryable_imports(f.take(k as int)).len(),
            forall|i: int|
                0 <= i < out@.len() ==> is_placeholder(
                    #[trigger] out@[i],
                    retryable_imports(f.take(k as int))[i].url@,
                    retryable_imports(f.take(k as int))[i].title@,
                ),
        decreases failed.len() - k,
    {
        proof {
            assert(f.take(k + 1).drop_last() =~= f.take(k as int));
            assert(f.take(k + 1).last() == f[k as int]);
        }
        let item = &failed[k];
        let trimmed = trim_ws(item.url.as_str());
        if !trimmed.as_str().is_empty() {
            out.push(placeholder(item.url.as_str(), item.title.as_str()));
        }
        k = k + 1;
    }
    proof {
        assert(f.take(f.len() as int) =~= f);
    }
    out
}

/// The ids of the failed uploads that can be retried: those above zero,
/// in order.
pub open spec fn retryable_uploads(failed: Seq<UploadFailure>) -> Seq<i64>
    decreases failed.len(),
{
    if failed.len() == 0 {
        Seq::empty()
    } else {
        let p = retryable_uploads(failed.drop_last());
        if failed.last().article_id > 0 {
            p.push(failed.last().article_id)
        } else {
            p
        }
    }
}

/// The article ids of the failed uploads that can be retried.
pub fn retry_upload_ids(failed: &Vec<UploadFailure>) -> (ids: Vec<i64>)
    ensures
        ids@ == retryable_uploads(failed@),
{
    let ghost f = failed@;
    let mut ids: Vec<i64> = Vec::new();
    let mut k: usize = 0;
    while k < failed.len()
        invariant
            k <= failed.len(),
            f == failed@,
            ids@ == retryable_uploads(f.take(k as int)),
        decreases failed.len() - k,
    {
        proof {
            assert(f.take(k + 1).drop_last() =~= f.take(k as int));
            assert(f.take(k + 1).last() == f[k as int]);
        }
        if failed[k].article_id > 0 {
            ids.push(failed[k].article_id);
        }
        k = k + 1;
    }
    proof {
        assert(f.take(f.len() as int) =~= f);
    }
    ids
}

/// How the end of an import job is announced: a success when nothing
/// failed and it ran to the end, news when it was canceled or saved
/// something despite failures, an error when it saved nothing and failed.
pub open spec fn import_notice_spec(saved_count: int, failed_count: int, canceled: bool) -> NoticeKind {
    if failed_count == 0 {
        if canceled {
            NoticeKind::Info
        } else {
            NoticeKind::Success
        }
    } else if saved_count > 0 {
        NoticeKind::Info
    } else {
        NoticeKind::Error
    }
}

/// The kind of notice that announces the end of an import job.
pub fn import_notice_kind(saved_count: usize, failed_count: usize, canceled: bool) -> (k: NoticeKind)
    ensures
        k == import_notice_spec(saved_count as int, failed_count as int, canceled),
{
    if failed_count == 0 {
        if canceled {
            NoticeKind::Info
        } else {
            NoticeKind::Success
        }
    } else if saved_count > 0 {
        NoticeKind::Info
    } else {
        NoticeKind::Error
    }
}

/// The text and kind of the notice that announces the end of an upload job.
pub open spec fn upload_notice_spec(uploaded: nat, failed: Seq<UploadFailure>, canceled: bool) -> (
    Seq<char>,
    NoticeKind,
) {
    if failed.len() == 0 {
        if canceled {
            ("Upload canceled after "@ + decimal(uploaded) + " article(s)."@, NoticeKind::Info)
        } else {
            ("Uploaded "@ + decimal(uploaded) + " article(s)."@, NoticeKind::Success)
        }
    } else {
        (
            "Uploaded "@ + decimal(uploaded) + ", "@ + decimal(failed.len()) + " failed. "@
                + failed[0].message@,
            if uploaded > 0 {
                NoticeKind::Info
            } else {
                NoticeKind::Error
            },
        )
    }
}

/// The notice that announces the end of an upload job.
pub fn upload_notice(uploaded: u64, failed: &Vec<UploadFailure>, canceled: bool) -> (r: (
    String,
    NoticeKind,
))
    ensures
        (r.0@, r.1) == upload_notice_spec(uploaded as nat, failed@, canceled),
{
    let count = decimal_string(uploaded);
    if failed.len() == 0 {
        if canceled {
            let mut s = copy_str("Upload canceled after ");
            push_str(&mut s, count.as_str());
            push_str(&mut s, " article(s).");
            (s, NoticeKind::Info)
        } else {
            let mut s = copy_str("Uploaded ");
            push_str(&mut s, count.as_str());
            push_str(&mut s, " article(s).");
            (s, NoticeKind::Success)
        }
    } else {
        let mut s = copy_str("Uploaded ");
        push_str(&mut s, count.as_str());
        push_str(&mut s, ", ");
        let n = decimal_string(failed.len() as u64);
        push_str(&mut s, n.as_str());
        push_str(&mut s, " failed. ");
        push_str(&mut s, failed[0].message.as_str());
        let kind = if uploaded > 0 {
            NoticeKind::Info
        } else {
            NoticeKind::Error
        };
        (s, kind)
    }
}

/// The message of an import job's internal failure: its first failure,
/// when that one is in the "internal" category.
pub open spec fn internal_import_failure_spec(failed: Seq<FailedFetchItem>) -> Option<Seq<char>> {
    if failed.len() > 0 && failed[0].category@ == "internal"@ {
        Some(failed[0].message@)
    } else {
        None
    }
}

/// The message of an import job's internal failure, if it had one.
pub fn internal_import_failure(failed: &Vec<FailedFetchItem>) -> (m: Option<String>)
    ensures
        opt_view(m) == internal_import_failure_spec(failed@),
{
    if failed.len() > 0 && str_equals(failed[0].category.as_str(), "internal") {
        Some(failed[0].message.clone())
    } else {
        None
    }
}

/// The message of an upload job's internal failure: its first failure,
/// when that one names no article (id 0) and is titled "Internal task".
pub open spec fn internal_upload_failure_spec(failed: Seq<UploadFailure>) -> Option<Seq<char>> {
    if failed.len() > 0 && failed[0].article_id == 0 && failed[0].title@ == "Internal task"@ {
        Some(failed[0].message@)
    } else {
        None
    }
}

/// The message of an upload job's internal failure, if it had one.
pub fn internal_upload_failure(failed: &Vec<UploadFailure>) -> (m: Option<String>)
    ensures
        opt_view(m) == internal_upload_failure_spec(failed@),
{
    if failed.len() > 0 && failed[0].article_id == 0 && str_equals(failed[0].title.as_str(), "Internal task") {
        Some(failed[0].message.clone())
    } else {
        None
    }
}

// ---------------------------------------------------------------------------
// The job queue
// ---------------------------------------------------------------------------

/// What a job does.
#[derive(Debug, Clone, Copy, PartialEq, Eq, Structural)]
pub enum JobKind {
    Import,
    Upload,
}

/// What a queued job asks for.
#[derive(Debug)]
pub enum JobRequest {
    /// Fetch and save these articles.
    Import { articles: Vec<ArticleSummary> },
    /// Upload these saved articles, into the collection if one is given.
    Upload { ids: Vec<i64>, collection_id: Option<i64> },
}

/// A job waiting in the queue.
#[derive(Debug)]
pub struct QueuedJob {
    pub id: u64,
    pub kind: JobKind,
    pub label: String,
    pub total: usize,
    pub request: JobRequest,
}

/// The job being run.
#[derive(Debug)]
pub struct ActiveJob {
    pub id: u64,
    pub kind: JobKind,
    pub label: String,
}

/// A finished job as the history records it.
#[derive(Debug)]
pub struct CompletedJob {
    pub id: u64,
    pub kind: JobKind,
    pub label: String,
    pub summary: String,
    pub success: bool,
}

/// The job queue of the reader window: jobs waiting in order, the job
/// being run, whether the queue is paused, the finished jobs (latest
/// first), and the id the next job gets.
#[derive(Debug)]
pub struct JobQueue {
    pub queued: Vec<QueuedJob>,
    pub active: Option<ActiveJob>,
    pub paused: bool,
    pub completed: Vec<CompletedJob>,
    pub next_job_id: u64,
}

/// The queue as values: the running job and the history as plain tuples
/// (id, kind, label) and (id, kind, label, summary, success).
pub struct JobQueueView {
    pub queued: Seq<QueuedJob>,
    pub active: Option<(u64, JobKind, Seq<char>)>,
    pub paused: bool,
    pub completed: Seq<(u64, JobKind, Seq<char>, Seq<char>, bool)>,
    pub next_job_id: u64,
}

pub open spec fn completed_view(c: CompletedJob) -> (u64, JobKind, Seq<char>, Seq<char>, bool) {
    (c.id, c.kind, c.label@, c.summary@, c.success)
}

impl View for JobQueue {
    type V = JobQueueView;

    open spec fn view(&self) -> JobQueueView {
        JobQueueView {
            queued: self.queued@,
            active: match self.active {
                Some(a) => Some((a.id, a.kind, a.label@)),
                None => None,
            },
            paused: self.paused,
            completed: self.completed@.map_values(|c: CompletedJob| completed_view(c)),
            next_job_id: self.next_job_id,
        }
    }
}

impl JobQueue {
    /// Queued jobs carry increasing ids, all below the next id; so do the
    /// running job's.
    pub open spec fn wf(&self) -> bool {
        &&& forall|i: int, j: int|
            0 <= i < j < self.queued@.len() ==> (#[trigger] self.queued@[i]).id < (#[trigger] self.queued@[j]).id
        &&& forall|i: int| 0 <= i < self.queued@.len() ==> (#[trigger] self.queued@[i]).id < self.next_job_id
        &&& self.active matches Some(a) ==> a.id < self.next_job_id
    }
}

/// What happens to the queue.
#[derive(Debug)]
pub enum JobEvent {
    /// A new job is asked for; it gets the next id.
    Enqueue { kind: JobKind, label: String, total: usize, request: JobRequest },
    Pause,
    Resume,
    /// Start the first queued upload at once, paused or not.
    RunQueuedUploadNow,
    ClearQueued,
    CancelActive,
    /// The running job ended with `summary`.
    Finished { job_id: u64, kind: JobKind, summary: String, success: bool },
}

/// What the window is to do after a queue event.
#[derive(Debug)]
pub enum JobAction {
    Nothing,
    /// Run this job (it is now the running one).
    Start(QueuedJob),
    /// Ask the running job with this id to stop.
    Cancel(u64),
    /// A job is running already.
    AlreadyRunning,
    /// No upload is queued.
    NoQueuedUpload,
}

/// The label a finished job gets in the history when no running job is
/// known.
pub open spec fn default_job_label(kind: JobKind) -> Seq<char> {
    match kind {
        JobKind::Import => "Import job"@,
        JobKind::Upload => "Upload job"@,
    }
}

/// The position of the first queued upload, or -1.
pub open spec fn first_upload(queued: Seq<QueuedJob>) -> int
    decreases queued.len(),
{
    if queued.len() == 0 {
        -1
    } else if queued[0].kind == JobKind::Upload {
        0
    } else {
        let r = first_upload(queued.drop_first());
        if r < 0 {
            -1
        } else {
            r + 1
        }
    }
}

/// Starts the first queued job when the queue runs, nothing runs yet and a
/// job waits.
pub open spec fn try_start_next(q: JobQueueView) -> (JobQueueView, JobAction) {
    if !q.paused && q.active is None && q.queued.len() > 0 {
        let j = q.queued[0];
        (JobQueueView { queued: q.queued.drop_first(), active: Some((j.id, j.kind, j.label@)), ..q }, JobAction::Start(j))
    } else {
        (q, JobAction::Nothing)
    }
}

/// The queue and the action after event `e`.
pub open spec fn job_queue_step(q: JobQueueView, e: JobEvent) -> (JobQueueView, JobAction) {
    match e {
        JobEvent::Enqueue { kind, label, total, request } => try_start_next(
            JobQueueView {
                queued: q.queued.push(QueuedJob { id: q.next_job_id, kind, label, total, request }),
                next_job_id: (q.next_job_id + 1) as u64,
                ..q
            },
        ),
        JobEvent::Pause => (JobQueueView { paused: true, ..q }, JobAction::Nothing),
        JobEvent::Resume => try_start_next(JobQueueView { paused: false, ..q }),
        JobEvent::RunQueuedUploadNow => if q.active is Some {
            (q, JobAction::AlreadyRunning)
        } else if first_upload(q.queued) < 0 {
            (q, JobAction::NoQueuedUpload)
        } else {
            let i = first_upload(q.queued);
            let j = q.queued[i];
            (
                JobQueueView { queued: q.queued.remove(i), active: Some((j.id, j.kind, j.label@)), ..q },
                JobAction::Start(j),
            )
        },
        JobEvent::ClearQueued => (JobQueueView { queued: Seq::empty(), ..q }, JobAction::Nothing),
        JobEvent::CancelActive => match q.active {
            Some(a) => (q, JobAction::Cancel(a.0)),
            None => (q, JobAction::Nothing),
        },
        JobEvent::Finished { job_id, kind, summary, success } => {
            let label = match q.active {
                Some(a) => a.2,
                None => default_job_label(kind),
            };
            try_start_next(
                JobQueueView {
                    active: None,
                    completed: seq![(job_id, kind, label, summary@, success)] + q.completed,
                    ..q
                },
            )
        },
    }
}

/// Where the first queued upload stands, or -1.
proof fn lemma_first_upload(queued: Seq<QueuedJob>, i: int)
    requires
        0 <= i <= queued.len(),
        forall|m: int| 0 <= m < i ==> queued[m].kind != JobKind::Upload,
        i < queued.len() ==> queued[i].kind == JobKind::Upload,
    ensures
        first_upload(queued) == if i < queued.len() { i } else { -1 },
    decreases queued.len(),
{
    if queued.len() > 0 && queued[0].kind != JobKind::Upload {
        lemma_first_upload(queued.drop_first(), i - 1);
    }
}

impl JobQueue {
    /// An empty, running queue whose first job gets id `next_job_id`.
    pub fn new(next_job_id: u64) -> (q: JobQueue)
        ensures
            q.wf(),
            q@.queued.len() == 0,
            q@.active is None,
            !q@.paused,
            q@.completed.len() == 0,
            q@.next_job_id == next_job_id,
    {
        let q = JobQueue { queued: Vec::new(), active: None, paused: false, completed: Vec::new(), next_job_id };
        assert(q@.completed =~= Seq::<(u64, JobKind, Seq<char>, Seq<char>, bool)>::empty());
        q
    }

    /// Starts the first queued job when the queue runs and nothing runs.
    fn start_next(&mut self) -> (a: JobAction)
        requires
            old(self).wf(),
        ensures
            final(self).wf(),
            (final(self)@, a) == try_start_next(old(self)@),
    {
        if !self.paused && self.active.is_none() && self.queued.len() > 0 {
            let ghost before = self.queued@;
            let job = self.queued.remove(0);
            self.active = Some(ActiveJob { id: job.id, kind: job.kind, label: job.label.clone() });
            proof {
                assert(self.queued@ =~= before.drop_first());
                assert forall|i: int, j: int| 0 <= i < j < self.queued@.len() implies (#[trigger] self.queued@[i]).id
                    < (#[trigger] self.queued@[j]).id by {
                    assert(self.queued@[i] == before[i + 1] && self.queued@[j] == before[j + 1]);
                }
                assert forall|i: int| 0 <= i < self.queued@.len() implies (#[trigger] self.queued@[i]).id < self.next_job_id by {
                    assert(self.queued@[i] == before[i + 1]);
                }
                assert(self@.completed =~= old(self)@.completed);
            }
            JobAction::Start(job)
        } else {
            proof {
                assert(self@.completed =~= old(self)@.completed);
            }
            JobAction::Nothing
        }
    }
}

/// Applies the queue event `e` and says what to do next.
pub fn step_job_queue(q: &mut JobQueue, e: JobEvent) -> (a: JobAction)
    requires
        old(q).wf(),
        e is Enqueue ==> old(q).next_job_id < u64::MAX,
    ensures
        final(q).wf(),
        (final(q)@, a) == job_queue_step(old(q)@, e),
{
    let ghost e0 = e;
    match e {
        JobEvent::Enqueue { kind, label, total, request } => {
            let id = q.next_job_id;
            let ghost before = q.queued@;
            q.queued.push(QueuedJob { id, kind, label, total, request });
            q.next_job_id = id + 1;
            proof {
                assert forall|i: int, j: int| 0 <= i < j < q.queued@.len() implies (#[trigger] q.queued@[i]).id
                    < (#[trigger] q.queued@[j]).id by {
                    if j == before.len() {
                        assert(q.queued@[i] == before[i]);
                    } else {
                        assert(q.queued@[i] == before[i] && q.queued@[j] == before[j]);
                    }
                }
                assert forall|i: int| 0 <= i < q.queued@.len() implies (#[trigger] q.queued@[i]).id < q.next_job_id by {
                    if i < before.len() {
                        assert(q.queued@[i] == before[i]);
                    }
                }
                assert(q@.completed =~= old(q)@.completed);
            }
            q.start_next()
        },
        JobEvent::Pause => {
            q.paused = true;
            proof {
                assert(q@.completed =~= old(q)@.completed);
            }
            JobAction::Nothing
        },
        JobEvent::Resume => {
            q.paused = false;
            proof {
                assert(q@.completed =~= old(q)@.completed);
            }
            q.start_next()
        },
        JobEvent::RunQueuedUploadNow => {
            if q.active.is_some() {
                return JobAction::AlreadyRunning;
            }
            let mut i: usize = 0;
            while i < q.queued.len() && q.queued[i].kind != JobKind::Upload
                invariant
                    i <= q.queued@.len(),
                    q.queued@ == old(q).queued@,
                    forall|m: int| 0 <= m < i ==> q.queued@[m].kind != JobKind::Upload,
                decreases q.queued.len() - i,
            {
                i = i + 1;
            }
            proof {
                lemma_first_upload(q.queued@, i as int);
            }
            if i == q.queued.len() {
                return JobAction::NoQueuedUpload;
            }
            let ghost before = q.queued@;
            let job = q.queued.remove(i);
            q.active = Some(ActiveJob { id: job.id, kind: job.kind, label: job.label.clone() });
            proof {
                assert forall|a: int, b: int| 0 <= a < b < q.queued@.len() implies (#[trigger] q.queued@[a]).id
                    < (#[trigger] q.queued@[b]).id by {
                    let a0 = if a < i { a } else { a + 1 };
                    let b0 = if b < i { b } else { b + 1 };
                    assert(q.queued@[a] == before[a0] && q.queued@[b] == before[b0]);
                }
                assert forall|a: int| 0 <= a < q.queued@.len() implies (#[trigger] q.queued@[a]).id < q.next_job_id by {
                    let a0 = if a < i { a } else { a + 1 };
                    assert(q.queued@[a] == before[a0]);
                }
                assert(q@.completed =~= old(q)@.completed);
            }
            JobAction::Start(job)
        },
        JobEvent::ClearQueued => {
            q.queued = Vec::new();
            proof {
                assert(q@.completed =~= old(q)@.completed);
                assert(q@.queued =~= Seq::<QueuedJob>::empty());
            }
            JobAction::Nothing
        },
        JobEvent::CancelActive => {
            match &q.active {
                Some(a) => JobAction::Cancel(a.id),
                None => JobAction::Nothing,
            }
        },
        JobEvent::Finished { job_id, kind, summary, success } => {
            let label = match &q.active {
                Some(a) => a.label.clone(),
                None => match kind {
                    JobKind::Import => copy_str("Import job"),
                    JobKind::Upload => copy_str("Upload job"),
                },
            };
            proof {
                reveal_strlit("Import job");
                reveal_strlit("Upload job");
            }
            let ghost before = q@.completed;
            let ghost sv = summary@;
            q.completed.insert(0, CompletedJob { id: job_id, kind, label, summary, success });
            q.active = None;
            proof {
                assert(q@.completed =~= seq![(job_id, kind, q.completed@[0].label@, sv, success)] + before);
            }
            q.start_next()
        },
    }
}

/// A finished job goes to the front of the history with its own id, kind,
/// summary and outcome, and the earlier history follows unchanged.
pub proof fn law_finished_job_recorded_with_its_outcome(
    q: JobQueueView,
    job_id: u64,
    kind: JobKind,
    summary: String,
    success: bool,
)
    ensures
        ({
            let r = job_queue_step(q, JobEvent::Finished { job_id, kind, summary, success }).0;
            &&& r.completed.len() == q.completed.len() + 1
            &&& r.completed[0].0 == job_id
            &&& r.completed[0].1 == kind
            &&& r.completed[0].3 == summary@
            &&& r.completed[0].4 == success
            &&& r.completed.drop_first() == q.completed
        }),
{
    let r = job_queue_step(q, JobEvent::Finished { job_id, kind, summary, success }).0;
    assert(r.completed.drop_first() =~= q.completed);
}

} // verus!
