//! The texts of a support bundle: the name of its folder, its README
//! summary, and the list of recent task failures with secrets redacted.
//! Copying files into the bundle is left to the program around the library.
use vstd::prelude::*;
use crate::logging::{sanitize_message, sanitize_spec};
use crate::text::{copy_str, decimal, decimal_string, join, join_strings, push_str, views};

verus! {

/// The name of a bundle folder made at `seconds` since the Unix epoch
/// ("now" when the clock could not be read).
pub open spec fn bundle_dir_name_spec(seconds: Option<u64>) -> Seq<char> {
    "support-bundle-"@ + match seconds {
        Some(s) => decimal(s as nat),
        None => "now"@,
    }
}

/// The folder name of a support bundle made at `seconds`.
pub fn bundle_dir_name(seconds: Option<u64>) -> (name: String)
    ensures
        name@ == bundle_dir_name_spec(seconds),
{
    let mut name = copy_str("support-bundle-");
    match seconds {
        Some(s) => {
            let d = decimal_string(s);
            push_str(&mut name, d.as_str());
        },
        None => push_str(&mut name, "now"),
    }
    name
}

/// What the README of a support bundle reports.
pub struct SupportSummary {
    pub version: String,
    pub current_view: String,
    pub library_articles: usize,
    pub browse_articles: usize,
    pub queued_jobs: usize,
    pub completed_jobs: usize,
    pub recent_task_failures: usize,
}

/// The README lines of a support bundle.
pub open spec fn readme_lines(s: SupportSummary) -> Seq<Seq<char>> {
    seq![
        "Soziopolis Reader "@ + s.version@,
        "Current view: "@ + s.current_view@,
        "Library articles: "@ + decimal(s.library_articles as nat),
        "Browse articles: "@ + decimal(s.browse_articles as nat),
        "Queued jobs: "@ + decimal(s.queued_jobs as nat),
        "Completed jobs in memory: "@ + decimal(s.completed_jobs as nat),
        "Recent task failures: "@ + decimal(s.recent_task_failures as nat),
    ]
}

/// `label` followed by `n` in decimal.
fn labeled_count(label: &str, n: usize) -> (s: String)
    ensures
        s@ == label@ + decimal(n as nat),
{
    let mut s = copy_str(label);
    let d = decimal_string(n as u64);
    push_str(&mut s, d.as_str());
    s
}

/// The README of a support bundle: one line per figure, separated by CRLF.
pub fn support_readme(summary: &SupportSummary) -> (text: String)
    ensures
        text@ == join(readme_lines(*summary), "\r\n"@),
{
    let mut lines: Vec<String> = Vec::new();
    let mut first = copy_str("Soziopolis Reader ");
    push_str(&mut first, summary.version.as_str());
    lines.push(first);
    let mut view = copy_str("Current view: ");
    push_str(&mut view, summary.current_view.as_str());
    lines.push(view);
    lines.push(labeled_count("Library articles: ", summary.library_articles));
    lines.push(labeled_count("Browse articles: ", summary.browse_articles));
    lines.push(labeled_count("Queued jobs: ", summary.queued_jobs));
    lines.push(labeled_count("Completed jobs in memory: ", summary.completed_jobs));
    lines.push(labeled_count("Recent task failures: ", summary.recent_task_failures));
    assert(views(lines@) =~= readme_lines(*summary));
    join_strings(&lines, "\r\n")
}

/// A task failure as the diagnostics list it.
pub struct TaskFailureRecord {
    pub kind_label: String,
    pub operation: String,
    pub message: String,
    pub details: Option<String>,
}

/// The line of one task failure: kind, operation, then message and details
/// with secrets redacted.
pub open spec fn failure_line(f: TaskFailureRecord) -> Seq<char> {
    "["@ + f.kind_label@ + "] "@ + f.operation@ + ": "@ + sanitize_spec(f.message@) + " "@ + sanitize_spec(
        match f.details {
            Some(d) => d@,
            None => ""@,
        },
    )
}

/// The lines of a sequence of task failures.
pub open spec fn failure_lines(fs: Seq<TaskFailureRecord>) -> Seq<Seq<char>> {
    fs.map_values(|f: TaskFailureRecord| failure_line(f))
}

/// The task-failure file of a support bundle: one line per failure,
/// separated by CRLF; `None` when there is no failure to report.
pub fn task_failures_text(failures: &Vec<TaskFailureRecord>) -> (text: Option<String>)
    ensures
        failures@.len() == 0 ==> text is None,
        failures@.len() > 0 ==> (text matches Some(t) && t@ == join(failure_lines(failures@), "\r\n"@)),
{
    if failures.len() == 0 {
        return None;
    }
    let mut lines: Vec<String> = Vec::new();
    let mut k: usize = 0;
    while k < failures.len()
        invariant
            k <= failures.len(),
            views(lines@) == failure_lines(failures@).take(k as int),
        decreases failures.len() - k,
    {
        let f = &failures[k];
        let mut line = copy_str("[");
        push_str(&mut line, f.kind_label.as_str());
        push_str(&mut line, "] ");
        push_str(&mut line, f.operation.as_str());
        push_str(&mut line, ": ");
        let m = sanitize_message(f.message.as_str());
        push_str(&mut line, m.as_str());
        push_str(&mut line, " ");
        let details = match &f.details {
            Some(d) => sanitize_message(d.as_str()),
            None => sanitize_message(""),
        };
        push_str(&mut line, details.as_str());
        proof {
            assert(line@ =~= failure_line(*f));
        }
        let ghost before = views(lines@);
        let ghost lv = line@;
        lines.push(line);
        proof {
            assert(views(lines@) =~= before.push(lv));
            assert(failure_lines(failures@).take(k + 1) =~= failure_lines(failures@).take(k as int).push(
                failure_line(failures@[k as int]),
            ));
        }
        k = k + 1;
    }
    proof {
        assert(failure_lines(failures@).take(failures.len() as int) =~= failure_lines(failures@));
    }
    Some(join_strings(&lines, "\r\n"))
}

} // verus!
