//! Canonicalization: turning a raw candidate into its absolute form.
//!
//! The decision rules, in order of precedence:
//!
//! 1. a candidate starting with `www` is prefixed with `http://`;
//! 2. a candidate is kept unchanged when no base URL is configured or when
//!    it already starts with `http`;
//! 3. otherwise the candidate is relative: a single leading `/` is stripped
//!    from it and it is joined to the base URL with an explicit `/`.
//!
//! The base URL loses one trailing `/` at configuration time, so rule 3
//! never doubles the separator.

use vstd::prelude::*;

verus! {

/// The candidate begins with the literal `www`.
pub open spec fn starts_www(link: Seq<char>) -> bool {
    link.len() >= 3 && link[0] == 'w' && link[1] == 'w' && link[2] == 'w'
}

/// The candidate begins with the literal `http`.
pub open spec fn starts_http(link: Seq<char>) -> bool {
    link.len() >= 4 && link[0] == 'h' && link[1] == 't' && link[2] == 't' && link[3] == 'p'
}

/// The candidate with one leading `/` removed, if it carries one.
pub open spec fn strip_one_slash(link: Seq<char>) -> Seq<char> {
    if link.len() > 0 && link[0] == '/' {
        link.subrange(1, link.len() as int)
    } else {
        link
    }
}

/// A base URL as held by the configuration: one trailing `/` removed, if
/// the configured string carried one.
pub open spec fn normalize_base(url: Seq<char>) -> Seq<char> {
    if url.len() > 0 && url[url.len() - 1] == '/' {
        url.subrange(0, url.len() - 1)
    } else {
        url
    }
}

/// The canonical rendering of candidate `link` under the optional base URL
/// `base`, following the decision rules in their order of precedence.
pub open spec fn canon_spec(link: Seq<char>, base: Option<Seq<char>>) -> Seq<char> {
    if starts_www(link) {
        "http://"@ + link
    } else {
        match base {
            None => link,
            Some(b) => if starts_http(link) {
                link
            } else {
                b + "/"@ + strip_one_slash(link)
            },
        }
    }
}

/// The canonical form of a candidate: a closed union with one variant per
/// decision rule.
pub enum Canonization {
    /// A relative link together with the base URL it is joined to.
    AddBase(String, String),
    /// A link starting with `www`, to be prefixed with `http://`.
    AddHttp(String),
    /// A link kept exactly as it was discovered.
    Original(String),
}

/// `c` is the canonical form that the decision rules assign to candidate
/// `link` under the optional base URL `base`.
pub open spec fn canon_matches(c: &Canonization, link: Seq<char>, base: Option<Seq<char>>) -> bool {
    if starts_www(link) {
        c matches Canonization::AddHttp(l) && l@ == link
    } else {
        match base {
            None => c matches Canonization::Original(l) && l@ == link,
            Some(b) => if starts_http(link) {
                c matches Canonization::Original(l) && l@ == link
            } else {
                c matches Canonization::AddBase(l, cb) && l@ == link && cb@ == b
            },
        }
    }
}

/// The canonical form determined by the decision rules renders to the
/// canonical string of its candidate.
pub proof fn lemma_canon_matches_render(c: &Canonization, link: Seq<char>, base: Option<Seq<char>>)
    requires
        canon_matches(c, link, base),
    ensures
        c.render_spec() == canon_spec(link, base),
{
}

impl Canonization {
    /// The string this canonical form renders to.
    pub open spec fn render_spec(&self) -> Seq<char> {
        match self {
            Canonization::AddBase(link, base) => base@ + "/"@ + strip_one_slash(link@),
            Canonization::AddHttp(link) => "http://"@ + link@,
            Canonization::Original(link) => link@,
        }
    }

    /// Renders the canonical form to a single owned string.
    pub fn render(&self) -> (r: String)
        ensures
            r@ == self.render_spec(),
    {
        match self {
            Canonization::AddBase(link, base) => {
                let mut out = base.clone();
                out.append("/");
                let llen = link.as_str().unicode_len();
                if llen > 0 && link.as_str().get_char(0) == '/' {
                    out.append(link.as_str().substring_char(1, llen));
                } else {
                    out.append(link.as_str());
                }
                out
            },
            Canonization::AddHttp(link) => {
                let mut out = "http://".to_owned();
                out.append(link.as_str());
                out
            },
            Canonization::Original(link) => link.clone(),
        }
    }
}

}
