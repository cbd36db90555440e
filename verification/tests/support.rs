use soziopolis_lingq_tool::support::{
    bundle_dir_name, support_readme, task_failures_text, SupportSummary, TaskFailureRecord,
};

#[test]
fn bundle_folders_are_named_after_the_clock() {
    assert_eq!(bundle_dir_name(Some(1712345678)), "support-bundle-1712345678");
    assert_eq!(bundle_dir_name(None), "support-bundle-now");
}

#[test]
fn readme_lists_the_figures_line_by_line() {
    let summary = SupportSummary {
        version: "0.1.0".to_owned(),
        current_view: "browse".to_owned(),
        library_articles: 12,
        browse_articles: 40,
        queued_jobs: 1,
        completed_jobs: 3,
        recent_task_failures: 0,
    };
    assert_eq!(
        support_readme(&summary),
        "Soziopolis Reader 0.1.0\r\nCurrent view: browse\r\nLibrary articles: 12\r\nBrowse articles: 40\r\nQueued jobs: 1\r\nCompleted jobs in memory: 3\r\nRecent task failures: 0"
    );
}

#[test]
fn task_failures_are_listed_without_secret_values() {
    assert!(task_failures_text(&Vec::new()).is_none());
    let failures = vec![
        TaskFailureRecord {
            kind_label: "Internal".to_owned(),
            operation: "import".to_owned(),
            message: "Authorization: Token SECRET_TOKEN_123".to_owned(),
            details: Some("credential=SECRET_PASSWORD_123".to_owned()),
        },
        TaskFailureRecord {
            kind_label: "Network".to_owned(),
            operation: "upload".to_owned(),
            message: "timeout".to_owned(),
            details: None,
        },
    ];
    let text = task_failures_text(&failures).expect("failures to report");
    assert!(text.contains("[REDACTED]"));
    assert!(!text.contains("SECRET_TOKEN_123"));
    assert!(!text.contains("SECRET_PASSWORD_123"));
    assert_eq!(
        text,
        "[Internal] import: Authorization: Token [REDACTED] credential=[REDACTED]\r\n[Network] upload: timeout "
    );
}
