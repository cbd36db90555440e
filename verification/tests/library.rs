use soziopolis_lingq_tool::jobs::{step_job_queue, JobEvent, JobKind, JobQueue};
use soziopolis_lingq_tool::library::{
    compute_local_library_stats, current_library_page_request, LibraryStats, page_index_after_refresh, redact_failed_fetch_item,
    redact_upload_failure, ArticleListItem, FailedFetchItem, LibraryState, UploadFailure,
    UploadSuccess,
};

fn item(id: i64, url: &str, words: i64, uploaded: bool) -> ArticleListItem {
    ArticleListItem {
        id,
        url: url.to_owned(),
        title: format!("Article {id}"),
        word_count: words,
        uploaded_to_lingq: uploaded,
        lingq_lesson_id: None,
        lingq_lesson_url: None,
    }
}

fn fetch_failure(url: &str, message: &str) -> FailedFetchItem {
    FailedFetchItem {
        url: url.to_owned(),
        title: "Failed import".to_owned(),
        category: "network".to_owned(),
        message: message.to_owned(),
    }
}

fn upload_failure(id: i64, message: &str) -> UploadFailure {
    UploadFailure { article_id: id, title: "Upload".to_owned(), message: message.to_owned() }
}

fn state(articles: Vec<ArticleListItem>) -> LibraryState {
    LibraryState {
        library_articles: articles,
        browse_imported_urls: Vec::new(),
        lingq_selected_articles: Vec::new(),
        article_detail: None,
        failed_fetches: Vec::new(),
        last_failed_uploads: Vec::new(),
        library_stats: None,
    }
}

fn ids(s: &LibraryState) -> Vec<i64> {
    s.library_articles.iter().map(|a| a.id).collect()
}

fn sorted(mut v: Vec<i64>) -> Vec<i64> {
    v.sort();
    v
}

#[test]
fn successful_retry_results_clear_failed_import_and_upload_state() {
    let mut s = state(vec![item(1, "https://x/1", 100, false)]);
    s.failed_fetches = vec![fetch_failure("https://x/2", "network: timeout")];
    s.last_failed_uploads = vec![upload_failure(1, "quota")];
    let mut queue = JobQueue::new(8);
    assert_eq!(s.failed_fetches.len(), 1);
    assert_eq!(s.last_failed_uploads.len(), 1);

    let import_ok = s.finish_import(Vec::new(), Vec::new(), false);
    step_job_queue(&mut queue, JobEvent::Finished { job_id: 8, kind: JobKind::Import, summary: "Saved 1".to_owned(), success: import_ok });
    assert!(s.failed_fetches.is_empty());
    assert!(queue.completed.first().is_some_and(|job| job.kind == JobKind::Import && job.success));

    let upload_ok = s.finish_upload(&[], Vec::new(), false);
    step_job_queue(&mut queue, JobEvent::Finished { job_id: 9, kind: JobKind::Upload, summary: "Uploaded 1".to_owned(), success: upload_ok });
    assert!(s.last_failed_uploads.is_empty());
    assert!(queue.completed.first().is_some_and(|job| job.kind == JobKind::Upload && job.success));
}

#[test]
fn failed_or_canceled_jobs_are_not_successes() {
    let mut s = state(Vec::new());
    assert!(!s.finish_import(Vec::new(), vec![fetch_failure("u", "m")], false));
    assert_eq!(s.failed_fetches.len(), 1);
    assert!(!s.finish_import(Vec::new(), Vec::new(), true));
    assert!(s.failed_fetches.is_empty());
    assert!(!s.finish_upload(&[], vec![upload_failure(3, "m")], false));
    assert_eq!(s.last_failed_uploads.len(), 1);
}

#[test]
fn imported_articles_replace_same_ids_and_count_as_imported() {
    let mut s = state(vec![item(1, "https://x/1", 10, false), item(2, "https://x/2", 20, false)]);
    s.browse_imported_urls = vec!["https://x/1".to_owned()];
    s.apply_imported_articles(vec![item(2, "https://x/2b", 25, false), item(3, "https://x/3", 30, false)]);
    assert_eq!(ids(&s), vec![1, 2, 3]);
    assert_eq!(s.library_articles[1].url, "https://x/2b");
    let mut urls = s.browse_imported_urls.clone();
    urls.sort();
    assert_eq!(urls, vec!["https://x/1", "https://x/2b", "https://x/3"]);
}

#[test]
fn importing_the_same_articles_twice_changes_nothing_more() {
    let saved = || vec![item(2, "https://x/2", 25, false), item(3, "https://x/3", 30, false)];
    let mut s = state(vec![item(1, "https://x/1", 10, false), item(2, "https://x/2", 20, false)]);
    s.apply_imported_articles(saved());
    let once: Vec<(i64, String, i64)> =
        s.library_articles.iter().map(|a| (a.id, a.url.clone(), a.word_count)).collect();
    let urls_once = s.browse_imported_urls.len();
    s.apply_imported_articles(saved());
    let twice: Vec<(i64, String, i64)> =
        s.library_articles.iter().map(|a| (a.id, a.url.clone(), a.word_count)).collect();
    assert_eq!(once, twice);
    assert_eq!(s.browse_imported_urls.len(), urls_once);
}

#[test]
fn uploads_mark_articles_with_their_lessons() {
    let mut s = state(vec![item(1, "https://x/1", 10, false), item(2, "https://x/2", 20, false)]);
    s.lingq_selected_articles = vec![1, 2];
    let successes = [
        UploadSuccess { article_id: 2, lesson_id: 77, lesson_url: Some("https://lingq/77".to_owned()) },
        UploadSuccess { article_id: 9, lesson_id: 88, lesson_url: None },
    ];
    s.apply_uploaded_articles(&successes);
    assert!(!s.library_articles[0].uploaded_to_lingq);
    assert!(s.library_articles[1].uploaded_to_lingq);
    assert_eq!(s.library_articles[1].lingq_lesson_id, Some(77));
    assert_eq!(s.library_articles[1].lingq_lesson_url.as_deref(), Some("https://lingq/77"));
    assert_eq!(ids(&s), vec![1, 2]);
    assert_eq!(s.lingq_selected_articles, vec![1, 2]);

    s.finish_upload(&[], Vec::new(), false);
    assert!(s.lingq_selected_articles.is_empty());
}

#[test]
fn removing_an_article_forgets_it_everywhere() {
    let mut s = state(vec![item(1, "https://x/1", 10, false), item(2, "https://x/2", 20, false)]);
    s.browse_imported_urls = vec!["https://x/1".to_owned(), "https://x/2".to_owned()];
    s.lingq_selected_articles = vec![2, 1];
    s.article_detail = Some(item(2, "https://x/2", 20, false));
    s.remove_article_from_local_state(2);
    assert_eq!(ids(&s), vec![1]);
    assert_eq!(s.browse_imported_urls, vec!["https://x/1"]);
    assert_eq!(s.lingq_selected_articles, vec![1]);
    assert!(s.article_detail.is_none());

    s.article_detail = Some(item(1, "https://x/1", 10, false));
    s.remove_article_from_local_state(5);
    assert_eq!(ids(&s), vec![1]);
    assert!(s.article_detail.is_some());
}

#[test]
fn select_all_visible_prefers_the_cached_page() {
    let mut s = state(vec![item(1, "a", 1, false), item(2, "b", 1, false), item(3, "c", 1, false)]);
    s.select_all_visible_articles(Some(vec![3, 3, 2]));
    assert_eq!(sorted(s.lingq_selected_articles.clone()), vec![2, 3]);
    s.select_all_visible_articles(None);
    assert_eq!(sorted(s.lingq_selected_articles.clone()), vec![1, 2, 3]);
}

#[test]
fn toggling_an_article_twice_restores_the_selection() {
    let mut s = state(vec![item(1, "a", 1, false)]);
    s.lingq_selected_articles = vec![4, 5];
    s.toggle_article(1);
    assert_eq!(sorted(s.lingq_selected_articles.clone()), vec![1, 4, 5]);
    s.toggle_article(1);
    assert_eq!(sorted(s.lingq_selected_articles.clone()), vec![4, 5]);
    s.toggle_article(4);
    assert_eq!(sorted(s.lingq_selected_articles.clone()), vec![5]);
}

#[test]
fn word_count_selection_applies_bounds_and_upload_state() {
    let mut s = state(vec![
        item(1, "a", 100, false),
        item(2, "b", 500, true),
        item(3, "c", 900, false),
        item(4, "d", 1500, false),
    ]);
    let n = s.select_lingq_articles_by_word_count(Some(400), Some(1000), false);
    assert_eq!(n, 2);
    assert_eq!(sorted(s.lingq_selected_articles.clone()), vec![2, 3]);
    let n = s.select_lingq_articles_by_word_count(Some(400), None, true);
    assert_eq!(n, 2);
    assert_eq!(sorted(s.lingq_selected_articles.clone()), vec![3, 4]);
    let n = s.select_lingq_articles_by_word_count(None, None, false);
    assert_eq!(n, 4);
}

#[test]
fn page_window_saturates_and_empty_pages_fall_back() {
    assert_eq!(current_library_page_request(3, 25), (75, 25));
    assert_eq!(current_library_page_request(usize::MAX, 2), (usize::MAX, 2));
    assert_eq!(page_index_after_refresh(5, 51, true, 25), Some(2));
    assert_eq!(page_index_after_refresh(5, 51, false, 25), None);
    assert_eq!(page_index_after_refresh(0, 51, true, 25), None);
    assert_eq!(page_index_after_refresh(4, 0, true, 25), None);
    assert_eq!(page_index_after_refresh(4, 3, true, 0), Some(2));
}

#[test]
fn failure_records_are_redacted_for_support_bundles() {
    let f = fetch_failure("https://x/?token=SECRET_TOKEN_123", "Authorization: Token SECRET_TOKEN_123");
    let r = redact_failed_fetch_item(&f);
    assert!(!r.url.contains("SECRET_TOKEN_123"));
    assert!(!r.message.contains("SECRET_TOKEN_123"));
    assert!(r.message.contains("[REDACTED]"));
    assert_eq!(r.title, "Failed import");
    let u = redact_upload_failure(&upload_failure(4, "password=SECRET_PASSWORD_123"));
    assert_eq!(u.article_id, 4);
    assert_eq!(u.message, "password=[REDACTED]");
}

#[test]
fn library_stats_follow_every_change() {
    assert_eq!(
        compute_local_library_stats(&vec![item(1, "a", 1200, false)]),
        LibraryStats { total_articles: 1, average_word_count: 1200 }
    );
    assert_eq!(compute_local_library_stats(&Vec::new()), LibraryStats { total_articles: 0, average_word_count: 0 });
    assert_eq!(
        compute_local_library_stats(&vec![item(1, "a", 100, false), item(2, "b", 201, false)]).average_word_count,
        150
    );
    let mut s = state(vec![item(1, "a", 100, false)]);
    s.apply_imported_articles(vec![item(2, "b", 300, false)]);
    assert_eq!(s.library_stats, Some(LibraryStats { total_articles: 2, average_word_count: 200 }));
    s.remove_article_from_local_state(1);
    assert_eq!(s.library_stats, Some(LibraryStats { total_articles: 1, average_word_count: 300 }));
    s.apply_uploaded_articles(&[]);
    assert_eq!(s.library_stats, Some(LibraryStats { total_articles: 1, average_word_count: 300 }));
}

#[test]
fn content_refresh_replaces_what_came_back() {
    let mut s = state(vec![item(1, "a", 10, false)]);
    let notice = s.apply_content_refresh(
        "manual library refresh",
        Ok(vec!["u1".to_owned(), "u2".to_owned(), "u1".to_owned()]),
        Err("database locked".to_owned()),
        Ok(LibraryStats { total_articles: 1, average_word_count: 10 }),
    );
    let mut urls = s.browse_imported_urls.clone();
    urls.sort();
    assert_eq!(urls, vec!["u1", "u2"]);
    assert_eq!(ids(&s), vec![1]);
    assert_eq!(s.library_stats, Some(LibraryStats { total_articles: 1, average_word_count: 10 }));
    let (text, kind) = notice.expect("a failure to report");
    assert_eq!(text, "Refresh after manual library refresh: database locked");
    assert_eq!(kind, soziopolis_lingq_tool::jobs::NoticeKind::Info);

    let notice = s.apply_content_refresh("x", Err("a".to_owned()), Err("b".to_owned()), Err("c".to_owned()));
    assert_eq!(notice.map(|n| n.1), Some(soziopolis_lingq_tool::jobs::NoticeKind::Error));
    assert!(s.apply_content_refresh("x", Ok(Vec::new()), Ok(Vec::new()), Ok(LibraryStats { total_articles: 0, average_word_count: 0 })).is_none());
    assert!(s.library_articles.is_empty());
}
