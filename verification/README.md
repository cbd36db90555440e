# Soziopolis Reader library

The logic of a desktop tool that saves Soziopolis articles locally and
uploads them to LingQ, written in Verus: each function states its behaviour
in `requires` / `ensures` and Verus proves it.

## Layout

- `src/text.rs` – character-level text handling (whitespace classes, words,
  joining, trimming, substring search) with specifications over `Seq<char>`.
- `src/pattern.rs`, `src/html.rs` – the edges to the `regex` and `scraper`
  crates; their results are named, not re-specified.
- `src/clean.rs` – canonical comparison form, block filtering and
  de-duplication, URL classification, the reader text sent to LingQ.
- `src/extract.rs`, `src/article.rs` – article pages: metadata, body, dates.
- `src/listing.rs` – listing pages: teaser, author, date and section of an
  entry.
- `src/soziopolis.rs`, `src/browse.rs` – collecting summaries, paging through
  a section's listing, merging sections.
- `src/fetch.rs` – the retry policy of page requests.
- `src/library.rs`, `src/jobs.rs` – the reader window's library state, its
  job queue, and what finished jobs report.
- `src/logging.rs`, `src/support.rs`, `src/app_paths.rs` – log lines with
  secrets redacted, support-bundle texts, where the data lives.
- `app/` – the program around the library: files, network, threads, the
  panic hook.

Laws that relate several calls are public proof functions named `law_*`.

Two rules are this project's own choice rather than something read from
the site or from LingQ: the library figures (`LibraryStats`: the number of
saved articles and their mean word count, rounded toward zero) and which
response statuses are retried (`fetch::is_retryable_status`: 429 and the
5xx range). The site's sections are passed in by the caller. Reading a
listing page's entries and pagination links is left to the caller as well
(`ListingReader` in `app/`).
