//! The extractor: configuration, candidate discovery and canonicalization.

use vstd::prelude::*;

use crate::canon::{
    canon_matches, canon_spec, lemma_canon_matches_render, normalize_base, Canonization,
};
use crate::scan::{
    href_candidates_from, http_candidates_from, scan_href, scan_http, scan_www,
    www_candidates_from,
};

verus! {

/// Which discovery patterns an extraction run applies.
#[derive(Clone, Copy, Debug, PartialEq, Eq, Structural)]
pub enum ExtractionMode {
    /// Only `href` attribute values are discovered.
    HrefOnly,
    /// `href` attribute values, then bare `http(s)://` URLs, then bare
    /// `www.` URLs.
    FullText,
}

/// The candidates discovered in `s`: the `href` attribute values alone, or,
/// in full-text mode, the `href` values followed by the bare `http(s)://`
/// URLs followed by the bare `www.` URLs, each pass in left-to-right order
/// over the whole text.
pub open spec fn extract_spec(s: Seq<char>, full: bool) -> Seq<Seq<char>> {
    if full {
        href_candidates_from(s, 0) + http_candidates_from(s, 0) + www_candidates_from(s, 0)
    } else {
        href_candidates_from(s, 0)
    }
}

/// Every candidate canonicalized under the same optional base URL, in order.
pub open spec fn canon_all(cands: Seq<Seq<char>>, base: Option<Seq<char>>) -> Seq<Seq<char>> {
    Seq::new(cands.len(), |i: int| canon_spec(cands[i], base))
}

/// Collects the candidates of `content` in discovery order.
pub fn extract_candidates(content: &str, full: bool) -> (out: Vec<String>)
    ensures
        out.deep_view() == extract_spec(content@, full),
{
    let mut out = scan_href(content);
    if full {
        let mut h = scan_http(content);
        let mut w = scan_www(content);
        let ghost hrefs = out.deep_view();
        out.append(&mut h);
        let ghost with_http = out.deep_view();
        proof {
            assert(with_http =~= hrefs + http_candidates_from(content@, 0));
        }
        out.append(&mut w);
        proof {
            assert(out.deep_view() =~= with_http + www_candidates_from(content@, 0));
        }
    }
    out
}

/// Scans text for link candidates and canonicalizes each against an
/// optional base URL.
pub struct LinkExtractor {
    /// The configured base URL, already stripped of one trailing `/`.
    pub base_url: Option<String>,
    /// Which discovery patterns apply.
    pub mode: ExtractionMode,
}

impl LinkExtractor {
    /// The configured base URL as an optional character sequence.
    pub open spec fn base_view(&self) -> Option<Seq<char>> {
        match self.base_url {
            Some(b) => Some(b@),
            None => None,
        }
    }

    /// Whether full-text discovery is configured.
    pub open spec fn is_full(&self) -> bool {
        self.mode is FullText
    }

    /// An extractor with no base URL, discovering `href` values only.
    pub fn new() -> (r: Self)
        ensures
            r.base_view() is None,
            r.mode == ExtractionMode::HrefOnly,
    {
        LinkExtractor { base_url: None, mode: ExtractionMode::HrefOnly }
    }

    /// An extractor joining relative links to `url`, with one trailing `/`
    /// stripped from it.
    pub fn with_base_url(url: String) -> (r: Self)
        ensures
            r.base_view() == Some(normalize_base(url@)),
            r.mode == ExtractionMode::HrefOnly,
    {
        let len = url.as_str().unicode_len();
        let base = if len > 0 && url.as_str().get_char(len - 1) == '/' {
            url.as_str().substring_char(0, len - 1).to_owned()
        } else {
            url
        };
        LinkExtractor { base_url: Some(base), mode: ExtractionMode::HrefOnly }
    }

    /// The same configuration with another extraction mode.
    pub fn with_mode(self, mode: ExtractionMode) -> (r: Self)
        ensures
            r.mode == mode,
            r.base_view() == self.base_view(),
    {
        LinkExtractor { base_url: self.base_url, mode }
    }

    /// Decides the canonical form of one candidate, by the first matching
    /// rule: `www` prefixing, then keeping absolute links or links without a
    /// configured base, then base joining.
    pub fn canonize(&self, url: &str) -> (c: Canonization)
        ensures
            canon_matches(&c, url@, self.base_view()),
    {
        let len = url.unicode_len();
        if len >= 3 && url.get_char(0) == 'w' && url.get_char(1) == 'w' && url.get_char(2) == 'w' {
            return Canonization::AddHttp(url.to_owned());
        }
        match &self.base_url {
            None => Canonization::Original(url.to_owned()),
            Some(base) => {
                if len >= 4 && url.get_char(0) == 'h' && url.get_char(1) == 't' && url.get_char(2)
                    == 't' && url.get_char(3) == 'p' {
                    Canonization::Original(url.to_owned())
                } else {
                    Canonization::AddBase(url.to_owned(), base.clone())
                }
            },
        }
    }

    /// Discovers every candidate of `content` and pairs each with its
    /// canonical form, in discovery order.
    pub fn extract(&self, content: &str) -> (out: Vec<Canonization>)
        ensures
            out@.len() == extract_spec(content@, self.is_full()).len(),
            forall|i: int|
                0 <= i < out@.len() ==> canon_matches(
                    &out@[i],
                    extract_spec(content@, self.is_full())[i],
                    self.base_view(),
                ),
    {
        let full = match self.mode {
            ExtractionMode::FullText => true,
            ExtractionMode::HrefOnly => false,
        };
        let cands = extract_candidates(content, full);
        let mut out: Vec<Canonization> = Vec::new();
        let mut i: usize = 0;
        while i < cands.len()
            invariant
                i <= cands@.len(),
                out@.len() == i,
                cands.deep_view() == extract_spec(content@, self.is_full()),
                forall|j: int|
                    0 <= j < i ==> canon_matches(
                        &out@[j],
                        extract_spec(content@, self.is_full())[j],
                        self.base_view(),
                    ),
            decreases cands@.len() - i,
        {
            let c = self.canonize(cands[i].as_str());
            out.push(c);
            i = i + 1;
        }
        out
    }

    /// Discovers every candidate of `content` and renders each canonical
    /// form to a string, in discovery order.
    pub fn extract_links(&self, content: &str) -> (out: Vec<String>)
        ensures
            out.deep_view() == canon_all(
                extract_spec(content@, self.is_full()),
                self.base_view(),
            ),
    {
        let canons = self.extract(content);
        let ghost cands = extract_spec(content@, self.is_full());
        let mut out: Vec<String> = Vec::new();
        let mut i: usize = 0;
        while i < canons.len()
            invariant
                i <= canons@.len(),
                out@.len() == i,
                canons@.len() == cands.len(),
                cands == extract_spec(content@, self.is_full()),
                forall|j: int|
                    0 <= j < canons@.len() ==> canon_matches(
                        &canons@[j],
                        cands[j],
                        self.base_view(),
                    ),
                forall|j: int| 0 <= j < i ==> out.deep_view()[j] == canon_spec(
                    cands[j],
                    self.base_view(),
                ),
            decreases canons@.len() - i,
        {
            let r = canons[i].render();
            proof {
                lemma_canon_matches_render(&canons@[i as int], cands[i as int], self.base_view());
            }
            let ghost prev = out.deep_view();
            out.push(r);
            proof {
                assert(out.deep_view() =~= prev.push(r@));
            }
            i = i + 1;
        }
        proof {
            assert(out.deep_view() =~= canon_all(cands, self.base_view()));
        }
        out
    }
}

impl Default for LinkExtractor {
    /// The same configuration as an extractor freshly made: no base URL,
    /// `href` discovery only.
    fn default() -> (r: Self)
        ensures
            r.base_view() is None,
            r.mode == ExtractionMode::HrefOnly,
    {
        LinkExtractor::new()
    }
}

}
