use soziopolis_lingq_tool::jobs::{
    articles_for_import, import_notice_kind, internal_import_failure, internal_upload_failure, retry_import_articles, retry_upload_ids, step_job_queue,
    upload_notice, JobAction, JobEvent, JobKind, JobQueue, JobRequest, NoticeKind,
};
use soziopolis_lingq_tool::library::{FailedFetchItem, UploadFailure};
use soziopolis_lingq_tool::soziopolis::{ArticleSummary, DiscoverySourceKind};

fn summary(url: &str, title: &str) -> ArticleSummary {
    ArticleSummary {
        url: url.to_owned(),
        title: title.to_owned(),
        teaser: "teaser".to_owned(),
        author: "author".to_owned(),
        date: "date".to_owned(),
        section: "Essay".to_owned(),
        source_kind: DiscoverySourceKind::Section,
        source_label: "Essays".to_owned(),
    }
}

fn strings(items: &[&str]) -> Vec<String> {
    items.iter().map(|s| s.to_string()).collect()
}

#[test]
fn import_takes_listed_selection_then_bare_unlisted_urls() {
    let listed = vec![summary("u1", "One"), summary("u2", "Two"), summary("u3", "Three")];
    let selected = strings(&["u3", "u9", "u1"]);
    let articles = articles_for_import(&listed, &selected).expect("something to import");
    assert_eq!(articles.len(), 3);
    assert_eq!(articles[0].url, "u1");
    assert_eq!(articles[0].title, "One");
    assert_eq!(articles[1].url, "u3");
    assert_eq!(articles[2].url, "u9");
    assert_eq!(articles[2].title, "");
    assert_eq!(articles[2].teaser, "");
    assert_eq!(articles[2].source_label, "");
}

#[test]
fn import_of_an_empty_selection_is_refused() {
    let listed = vec![summary("u1", "One")];
    assert!(articles_for_import(&listed, &Vec::new()).is_none());
}

#[test]
fn retries_skip_blank_urls_and_internal_uploads() {
    let failed = vec![
        FailedFetchItem { url: "https://x/1".to_owned(), title: "T1".to_owned(), category: "network".to_owned(), message: "m".to_owned() },
        FailedFetchItem { url: "   ".to_owned(), title: "Internal".to_owned(), category: "internal".to_owned(), message: "m".to_owned() },
    ];
    let retry = retry_import_articles(&failed);
    assert_eq!(retry.len(), 1);
    assert_eq!(retry[0].url, "https://x/1");
    assert_eq!(retry[0].title, "T1");
    assert_eq!(retry[0].author, "");

    let uploads = vec![
        UploadFailure { article_id: 0, title: "Internal task".to_owned(), message: "m".to_owned() },
        UploadFailure { article_id: 7, title: "A".to_owned(), message: "m".to_owned() },
        UploadFailure { article_id: -1, title: "B".to_owned(), message: "m".to_owned() },
    ];
    assert_eq!(retry_upload_ids(&uploads), vec![7]);
}

#[test]
fn import_notices_follow_failures_and_savings() {
    assert_eq!(import_notice_kind(3, 0, false), NoticeKind::Success);
    assert_eq!(import_notice_kind(3, 0, true), NoticeKind::Info);
    assert_eq!(import_notice_kind(3, 1, false), NoticeKind::Info);
    assert_eq!(import_notice_kind(0, 1, false), NoticeKind::Error);
}

#[test]
fn upload_notices_report_counts_and_first_failure() {
    assert_eq!(upload_notice(4, &Vec::new(), false), ("Uploaded 4 article(s).".to_owned(), NoticeKind::Success));
    assert_eq!(
        upload_notice(2, &Vec::new(), true),
        ("Upload canceled after 2 article(s).".to_owned(), NoticeKind::Info)
    );
    let failed = vec![
        UploadFailure { article_id: 5, title: "A".to_owned(), message: "quota exceeded".to_owned() },
        UploadFailure { article_id: 6, title: "B".to_owned(), message: "other".to_owned() },
    ];
    assert_eq!(
        upload_notice(1, &failed, false),
        ("Uploaded 1, 2 failed. quota exceeded".to_owned(), NoticeKind::Info)
    );
    assert_eq!(upload_notice(0, &failed, false).1, NoticeKind::Error);
}

fn upload_job(label: &str) -> JobEvent {
    JobEvent::Enqueue {
        kind: JobKind::Upload,
        label: label.to_owned(),
        total: 1,
        request: JobRequest::Upload { ids: vec![1], collection_id: None },
    }
}

fn import_job(label: &str) -> JobEvent {
    JobEvent::Enqueue {
        kind: JobKind::Import,
        label: label.to_owned(),
        total: 1,
        request: JobRequest::Import { articles: vec![summary("u1", "One")] },
    }
}

#[test]
fn queue_starts_jobs_in_order_and_records_results() {
    let mut q = JobQueue::new(1);
    match step_job_queue(&mut q, import_job("Import 1 article(s)")) {
        JobAction::Start(job) => assert_eq!(job.id, 1),
        other => panic!("expected a start, got {other:?}"),
    }
    assert!(matches!(step_job_queue(&mut q, upload_job("Upload 1 article(s) to LingQ")), JobAction::Nothing));
    assert_eq!(q.queued.len(), 1);
    assert_eq!(q.queued[0].id, 2);
    assert!(matches!(step_job_queue(&mut q, JobEvent::CancelActive), JobAction::Cancel(1)));
    match step_job_queue(&mut q, JobEvent::Finished { job_id: 1, kind: JobKind::Import, summary: "Saved 1".to_owned(), success: true }) {
        JobAction::Start(job) => assert_eq!(job.id, 2),
        other => panic!("expected the next job, got {other:?}"),
    }
    assert_eq!(q.completed[0].id, 1);
    assert_eq!(q.completed[0].label, "Import 1 article(s)");
    assert!(q.completed[0].success);
    assert!(q.queued.is_empty());
}

#[test]
fn paused_queue_waits_until_resumed() {
    let mut q = JobQueue::new(5);
    step_job_queue(&mut q, JobEvent::Pause);
    assert!(matches!(step_job_queue(&mut q, import_job("a")), JobAction::Nothing));
    assert!(q.active.is_none());
    assert!(matches!(step_job_queue(&mut q, JobEvent::Resume), JobAction::Start(_)));
    assert_eq!(q.active.as_ref().map(|a| a.id), Some(5));
    assert!(matches!(step_job_queue(&mut q, JobEvent::CancelActive), JobAction::Cancel(5)));
}

#[test]
fn run_upload_now_skips_queued_imports() {
    let mut q = JobQueue::new(1);
    step_job_queue(&mut q, JobEvent::Pause);
    step_job_queue(&mut q, import_job("a"));
    step_job_queue(&mut q, upload_job("b"));
    match step_job_queue(&mut q, JobEvent::RunQueuedUploadNow) {
        JobAction::Start(job) => assert_eq!((job.id, job.kind), (2, JobKind::Upload)),
        other => panic!("expected the upload, got {other:?}"),
    }
    assert!(matches!(step_job_queue(&mut q, JobEvent::RunQueuedUploadNow), JobAction::AlreadyRunning));
    step_job_queue(&mut q, JobEvent::Finished { job_id: 2, kind: JobKind::Upload, summary: String::new(), success: false });
    assert!(matches!(step_job_queue(&mut q, JobEvent::RunQueuedUploadNow), JobAction::NoQueuedUpload));
    step_job_queue(&mut q, JobEvent::ClearQueued);
    assert!(q.queued.is_empty());
    step_job_queue(&mut q, JobEvent::Finished { job_id: 9, kind: JobKind::Upload, summary: String::new(), success: false });
    assert_eq!(q.completed[0].label, "Upload job");
    assert_eq!(q.completed.len(), 2);
}

#[test]
fn internal_failures_are_told_apart() {
    let internal = vec![FailedFetchItem { url: String::new(), title: "Internal".to_owned(), category: "internal".to_owned(), message: "worker stopped".to_owned() }];
    assert_eq!(internal_import_failure(&internal).as_deref(), Some("worker stopped"));
    let network = vec![FailedFetchItem { url: "u".to_owned(), title: "T".to_owned(), category: "network".to_owned(), message: "m".to_owned() }];
    assert_eq!(internal_import_failure(&network), None);
    assert_eq!(internal_import_failure(&Vec::new()), None);
    let uploads = vec![UploadFailure { article_id: 0, title: "Internal task".to_owned(), message: "lost".to_owned() }];
    assert_eq!(internal_upload_failure(&uploads).as_deref(), Some("lost"));
    let uploads = vec![UploadFailure { article_id: 3, title: "Internal task".to_owned(), message: "lost".to_owned() }];
    assert_eq!(internal_upload_failure(&uploads), None);
}
