//! Detection of broken links in Markdown documents.
//!
//! The crate turns a stream of parsed Markdown events into verdicts about each
//! link: whether its target exists, whether a link to a directory is allowed,
//! and whether a `#fragment` names a heading of the target file.  Heading
//! anchors are derived by a slug rule and memoized per target file in a shared
//! cache.  All filesystem probing is done by the caller, which hands the
//! answers to the checker as plain values; every decision made from those
//! answers lives here and is verified.

pub mod strutil;
pub mod paths;
pub mod events;
pub mod slug;
pub mod classify;
pub mod checker;

pub use checker::{
    check_broken_links_in_dir, Checker, CheckerError, CheckerOptions, DetectedBrokenLink,
    EntryInfo, FileLinksCache, LinkJob, SlugNeed, TargetFacts, WalkAction,
};
pub use classify::{classify_link, LinkTarget};
pub use events::{BrokenRef, MdEvent};
pub use paths::simplify_path;
pub use slug::{generate_slugs, slugify};
