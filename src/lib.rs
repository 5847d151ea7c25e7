//! Inventories a codebase's reusable units ("capabilities"), attributes them
//! to authors from per-line blame, and ranks them against external needs.
//!
//! - `syntax`: the language families, the syntax tree the extractor reads,
//!   and parsing through tree-sitter.
//! - `shredder`: the per-language extraction rules and the tree walk.
//! - `authorship`: aggregation of per-line blame into authorship.
//! - `matchmaker`: scoring, reasons, and ranking of matches.
//! - `scraper`: turning scraped bounties into needs.
//! - `text`: character-level string helpers.

pub mod authorship;
pub mod matchmaker;
pub mod scraper;
pub mod shredder;
pub mod syntax;
pub mod text;
