//! Changelog generation tools: a commit-log parser, a commit classifier,
//! a message shortener, a Markdown section formatter and a changelog
//! document inserter, together with helpers for release announcements
//! and tarball inspection.

pub mod changelog;
pub mod classify;
pub mod commit;
pub mod dates;
pub mod insert;
pub mod mail;
pub mod project;
pub mod render;
pub mod rules;
pub mod shorten;
pub mod text;
