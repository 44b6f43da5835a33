use linkex::canon::Canonization;
use linkex::dedup::{protocol_agnostic, strip_protocol, unique_links};
use linkex::extractor::{extract_candidates, ExtractionMode, LinkExtractor};
use linkex::filtering::{contains_substring, filtered_links};
use linkex::pipeline::collect_links;
use linkex::scan::{scan_href, scan_http, scan_www};

fn strings(v: &[&str]) -> Vec<String> {
    v.iter().map(|s| s.to_string()).collect()
}

#[test]
fn href_values_in_document_order() {
    let doc = r#"<a href="/one">x</a> <a href="http://two">y</a> <a href="www.three">z</a>"#;
    let found = scan_href(doc);
    assert_eq!(found, strings(&["/one", "http://two", "www.three"]));
}

#[test]
fn href_empty_value_is_not_a_candidate() {
    let doc = r#"<a href="">empty</a> <a href="/kept">x</a>"#;
    assert_eq!(scan_href(doc), strings(&["/kept"]));
}

#[test]
fn href_unterminated_quote_is_not_a_candidate() {
    let doc = r#"<a href="/fine"> and then href="broken"#;
    assert_eq!(scan_href(doc), strings(&["/fine"]));
}

#[test]
fn bare_http_urls_in_document_order() {
    let doc = "see http://a.com/x and https://b.org/y, done";
    assert_eq!(scan_http(doc), strings(&["http://a.com/x", "https://b.org/y,"]));
}

#[test]
fn bare_www_urls_in_document_order() {
    let doc = "visit www.first.com or www.second.org today";
    assert_eq!(scan_www(doc), strings(&["www.first.com", "www.second.org"]));
}

#[test]
fn bare_url_keeps_trailing_punctuation() {
    // Known, accepted imprecision: `.` and `)` belong to the URL character
    // class, so punctuation glued to a URL in prose is captured with it.
    let doc = "read www.example.com. then stop";
    assert_eq!(scan_www(doc), strings(&["www.example.com."]));
}

#[test]
fn bare_url_stops_at_excluded_characters() {
    let doc = "<http://a.com/x> \"http://b.com\"";
    assert_eq!(scan_http(doc), strings(&["http://a.com/x", "http://b.com"]));
}

#[test]
fn full_text_passes_are_concatenated_in_fixed_order() {
    let doc = r#"text www.late.com <a href="/first"> http://middle.com <a href="/second">"#;
    let found = extract_candidates(doc, true);
    assert_eq!(
        found,
        strings(&["/first", "/second", "http://middle.com", "www.late.com"])
    );
}

#[test]
fn href_only_mode_ignores_bare_urls() {
    let doc = r#"http://bare.com www.bare.com <a href="/kept">"#;
    assert_eq!(extract_candidates(doc, false), strings(&["/kept"]));
}

#[test]
fn absolute_link_is_unchanged_with_or_without_base() {
    let with_base = LinkExtractor::with_base_url("http://site.com".to_string());
    let without = LinkExtractor::new();
    for ex in [&with_base, &without] {
        let c = ex.canonize("http://x.com/a");
        assert_eq!(c.render(), "http://x.com/a");
        assert!(matches!(c, Canonization::Original(_)));
    }
}

#[test]
fn www_link_gets_http_prefix() {
    let ex = LinkExtractor::new();
    let c = ex.canonize("www.example.com");
    assert_eq!(c.render(), "http://www.example.com");
    assert!(matches!(c, Canonization::AddHttp(_)));
}

#[test]
fn base_join_with_and_without_trailing_slash() {
    for base in ["http://host", "http://host/"] {
        let ex = LinkExtractor::with_base_url(base.to_string());
        let c = ex.canonize("/a/b");
        assert_eq!(c.render(), "http://host/a/b");
        assert!(matches!(c, Canonization::AddBase(_, _)));
    }
}

#[test]
fn base_join_without_leading_slash() {
    let ex = LinkExtractor::with_base_url("http://host".to_string());
    assert_eq!(ex.canonize("a/b").render(), "http://host/a/b");
}

#[test]
fn base_join_strips_only_one_leading_slash() {
    let ex = LinkExtractor::with_base_url("http://host".to_string());
    assert_eq!(ex.canonize("//a").render(), "http://host//a");
}

#[test]
fn relative_link_without_base_is_unchanged() {
    let ex = LinkExtractor::new();
    assert_eq!(ex.canonize("/a/b").render(), "/a/b");
}

#[test]
fn strip_protocol_drops_through_first_colon() {
    assert_eq!(strip_protocol("http://x.com/a"), "//x.com/a");
    assert_eq!(strip_protocol("https://x.com/a"), "//x.com/a");
    assert_eq!(strip_protocol("mailto:me@host"), "me@host");
}

#[test]
fn strip_protocol_without_colon_keeps_the_link() {
    assert_eq!(strip_protocol("no-scheme/here"), "no-scheme/here");
    assert_eq!(protocol_agnostic("no-scheme/here"), "no-scheme/here");
}

#[test]
fn duplicate_schemes_collapse_to_first_occurrence() {
    let links = strings(&["http://x.com/a", "https://x.com/a"]);
    assert_eq!(unique_links(&links), strings(&["http://x.com/a"]));
    let links = strings(&["https://x.com/a", "http://x.com/a"]);
    assert_eq!(unique_links(&links), strings(&["https://x.com/a"]));
}

#[test]
fn dedup_keeps_distinct_links_in_order() {
    let links = strings(&["http://b.com", "http://a.com", "http://b.com"]);
    assert_eq!(unique_links(&links), strings(&["http://b.com", "http://a.com"]));
}

#[test]
fn filter_is_case_sensitive() {
    let links = strings(&["http://a.com/Foo", "http://a.com/bar"]);
    assert_eq!(filtered_links(&links, "Foo"), strings(&["http://a.com/Foo"]));
    assert_eq!(filtered_links(&links, "foo"), strings(&[]));
}

#[test]
fn empty_filter_keeps_everything() {
    let links = strings(&["a", "b"]);
    assert_eq!(filtered_links(&links, ""), strings(&["a", "b"]));
}

#[test]
fn contains_substring_is_literal() {
    assert!(contains_substring("http://a.com/Foo", "Foo"));
    assert!(!contains_substring("http://a.com/Foo", "foo"));
    assert!(!contains_substring("ab", "abc"));
    assert!(contains_substring("", ""));
}

#[test]
fn filter_applies_after_deduplication() {
    // The second link shares a key with the first, so it is dropped before
    // the filter runs: filtering for "https" finds nothing, even though the
    // dropped duplicate would have matched.
    let ex = LinkExtractor::new().with_mode(ExtractionMode::FullText);
    let doc = "http://x.com/a https://x.com/a";
    let out = collect_links(&ex, doc, Some("https"));
    assert_eq!(out, strings(&[]));
}

#[test]
fn end_to_end_scenario() {
    let doc = r#"<a href="/topics/rust">rust</a> <a href="http://foo.bar">foo</a> and the plain text www.google.com"#;
    let ex = LinkExtractor::with_base_url("http://site.com".to_string())
        .with_mode(ExtractionMode::FullText);
    let out = collect_links(&ex, doc, None);
    assert_eq!(
        out,
        strings(&["http://site.com/topics/rust", "http://foo.bar", "http://www.google.com"])
    );
}

#[test]
fn cross_pass_duplicates_collapse() {
    // A bare absolute URL that carries a `www.` host is discovered by both
    // bare passes; canonicalization maps both spellings to the same string
    // key, so a single line survives.
    let ex = LinkExtractor::new().with_mode(ExtractionMode::FullText);
    let out = collect_links(&ex, "go to http://www.google.com now", None);
    assert_eq!(out, strings(&["http://www.google.com"]));
}

#[test]
fn empty_input_gives_empty_output() {
    let ex = LinkExtractor::new().with_mode(ExtractionMode::FullText);
    assert_eq!(collect_links(&ex, "", None), strings(&[]));
}

#[test]
fn extract_pairs_each_candidate_with_its_form() {
    let ex = LinkExtractor::with_base_url("http://site.com".to_string());
    let doc = r#"<a href="/a"> <a href="http://b"> <a href="www.c">"#;
    let forms = ex.extract(doc);
    assert_eq!(forms.len(), 3);
    assert!(matches!(&forms[0], Canonization::AddBase(l, b)
        if l.as_str() == "/a" && b.as_str() == "http://site.com"));
    assert!(matches!(&forms[1], Canonization::Original(l) if l.as_str() == "http://b"));
    assert!(matches!(&forms[2], Canonization::AddHttp(l) if l.as_str() == "www.c"));
}

#[test]
fn extract_links_renders_in_discovery_order() {
    let ex = LinkExtractor::with_base_url("http://site.com".to_string());
    let doc = r#"<a href="/a"> <a href="/a"> "#;
    // No deduplication yet at this stage: both occurrences are rendered.
    assert_eq!(
        ex.extract_links(doc),
        strings(&["http://site.com/a", "http://site.com/a"])
    );
}
