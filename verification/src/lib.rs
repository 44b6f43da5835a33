//! Extraction and canonicalization of hyperlinks found in HTML or free text.
//!
//! The library scans a text buffer for link-like substrings (`href`
//! attribute values, bare `http(s)://` URLs and bare `www.` URLs),
//! canonicalizes each candidate into an absolute form (optionally joining
//! relative links with a configured base URL), removes duplicates that
//! differ only by scheme, and optionally filters the survivors by a literal
//! substring. Every step of the pipeline carries a contract describing its
//! result exactly.

pub mod canon;
pub mod dedup;
pub mod extractor;
pub mod filtering;
pub mod laws;
pub mod pipeline;
pub mod scan;
