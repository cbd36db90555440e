use soziopolis_lingq_tool::logging::{error, format_timestamp, info, log_line, panic_description, sanitize_message, timestamp_string, warn, PanicLocation};

#[test]
fn sanitize_message_redacts_common_secret_patterns() {
    let message = "Authorization: Token abc123 password=secret api_key:\"xyz\" token=mytoken credential=stored";
    let sanitized = sanitize_message(message);
    assert!(!sanitized.contains("abc123"));
    assert!(!sanitized.contains("secret"));
    assert!(!sanitized.contains("xyz"));
    assert!(!sanitized.contains("mytoken"));
    assert!(!sanitized.contains("stored"));
    assert!(sanitized.contains("[REDACTED]"));
}

#[test]
fn sanitize_keeps_ordinary_text() {
    let message = "fetched 3 articles from https://www.soziopolis.de/texte/essay.html";
    assert_eq!(sanitize_message(message), message);
}

#[test]
fn sanitize_keeps_the_key_and_redacts_the_value() {
    assert_eq!(sanitize_message("token=abc"), "token=[REDACTED]");
    assert_eq!(sanitize_message("Authorization: Token abc.def"), "Authorization: Token [REDACTED]");
}

#[test]
fn sanitize_is_stable_on_redacted_text() {
    let once = sanitize_message("api_key=SECRET_TOKEN_123 rejected");
    assert_eq!(sanitize_message(&once), once);
}

#[test]
fn timestamps_have_three_millisecond_digits() {
    assert_eq!(format_timestamp(Some((1710000000, 5))), "1710000000.005");
    assert_eq!(format_timestamp(Some((0, 999))), "0.999");
    assert_eq!(format_timestamp(Some((12, 40))), "12.040");
    assert_eq!(format_timestamp(None), "time-error");
    let now = timestamp_string();
    let (secs, millis) = now.split_once('.').expect("dot");
    assert!(secs.chars().all(|c| c.is_ascii_digit()));
    assert_eq!(millis.len(), 3);
}

#[test]
fn log_lines_carry_level_and_sanitized_message() {
    assert_eq!(log_line("1.000", "INFO", "hello"), "[1.000] [INFO] hello\n");
    assert_eq!(log_line("2.000", "WARN", "password=hunter2"), "[2.000] [WARN] password=[REDACTED]\n");
    assert!(info("started").ends_with("] [INFO] started\n"));
    assert!(warn("slow").contains("] [WARN] slow"));
    assert!(error("token=abc").ends_with("] [ERROR] token=[REDACTED]\n"));
}

#[test]
fn panics_are_described_with_their_location() {
    let at = PanicLocation { file: "src/main.rs".to_owned(), line: 12, column: 5 };
    assert_eq!(
        panic_description(Some("boom".to_owned()), Some(at)),
        "panic at src/main.rs:12:5: boom"
    );
    assert_eq!(panic_description(None, None), "panic: non-string panic payload");
}
