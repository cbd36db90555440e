pub mod text;
pub mod pattern;
pub mod clean;
pub mod logging;
pub mod app_paths;
pub mod soziopolis;
pub mod html;
pub mod extract;
pub mod article;
pub mod listing;
pub mod browse;
pub mod library;
pub mod jobs;
pub mod support;
pub mod fetch;
