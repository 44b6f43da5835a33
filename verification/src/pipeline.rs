//! The whole pipeline: discover, canonicalize, deduplicate, filter.

use vstd::prelude::*;

use crate::dedup::{dedup_spec, unique_links};
use crate::extractor::{canon_all, extract_spec, LinkExtractor};
use crate::filtering::{filter_spec, filtered_links};

verus! {

/// The view of an optional filter string.
pub open spec fn opt_view(o: Option<&str>) -> Option<Seq<char>> {
    match o {
        Some(f) => Some(f@),
        None => None,
    }
}

/// What one pipeline run emits: every candidate of `text`, canonicalized
/// under `base`, deduplicated by scheme-agnostic key with the first
/// occurrence winning, and — after deduplication — kept only if it
/// contains the configured filter.
pub open spec fn pipeline_spec(
    text: Seq<char>,
    full: bool,
    base: Option<Seq<char>>,
    filt: Option<Seq<char>>,
) -> Seq<Seq<char>> {
    let unique = dedup_spec(canon_all(extract_spec(text, full), base));
    match filt {
        Some(f) => filter_spec(unique, f),
        None => unique,
    }
}

/// Runs the pipeline once over `content` under the extractor's
/// configuration and an optional substring filter.
pub fn collect_links(extractor: &LinkExtractor, content: &str, filter: Option<&str>) -> (out: Vec<
    String,
>)
    ensures
        out.deep_view() == pipeline_spec(
            content@,
            extractor.is_full(),
            extractor.base_view(),
            opt_view(filter),
        ),
{
    let links = extractor.extract_links(content);
    let unique = unique_links(&links);
    match filter {
        Some(f) => filtered_links(&unique, f),
        None => unique,
    }
}

}
