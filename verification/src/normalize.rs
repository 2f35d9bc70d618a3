//! URL normalization: a raw `href` is mapped to an absolute same-host URL
//! or rejected. An absolute `href` on the base URL's host passes verbatim;
//! a root-relative `href` is appended to the base; a bare name is accepted
//! only with an `.html` suffix. Fragments and query strings pass as-is and
//! `.`/`..` are not resolved: downstream deduplication relies on that.

use vstd::prelude::*;

use crate::assoc::str_eq;

verus! {

/// The host component of the text, if it parses as an absolute URL with a
/// host; what that is exactly is the `url` crate's affair.
pub uninterp spec fn parsed_host(s: Seq<char>) -> Option<Seq<char>>;

/// Relies on `url::Url::parse` (which accepts exactly the absolute URLs)
/// and `url::Url::host_str`: the host of the parsed URL, `None` where the
/// text does not parse or the URL carries no host. Both depend on the text
/// alone.
#[verifier::external_body]
fn url_host(s: &str) -> (r: Option<String>)
    ensures
        r is Some <==> parsed_host(s@) is Some,
        r matches Some(h) ==> parsed_host(s@) matches Some(hs) && h@ == hs,
{
    match url::Url::parse(s) {
        Ok(u) => u.host_str().map(|h| h.to_owned()),
        Err(_) => None,
    }
}

/// The suffix that lets a bare file name through.
pub open spec fn html_suffix() -> Seq<char> {
    seq!['.', 'h', 't', 'm', 'l']
}

/// Whether the text ends in `.html`.
pub open spec fn spec_ends_with_html(s: Seq<char>) -> bool {
    s.len() >= 5 && s.subrange(s.len() - 5, s.len() as int) == html_suffix()
}

/// What `normalize_url` returns, over the views of its arguments. The
/// three rules apply in order; everything else is rejected.
pub open spec fn spec_normalize(base: Seq<char>, href: Seq<char>) -> Option<Seq<char>> {
    if parsed_host(href) matches Some(h) && parsed_host(base) matches Some(hb) && h == hb {
        Some(href)
    } else if href.len() > 0 && href[0] == '/' {
        Some(base + href)
    } else if spec_ends_with_html(href) {
        Some(base + seq!['/'] + href)
    } else {
        None
    }
}

/// Whether the text begins with `/`.
fn starts_with_slash(s: &str) -> (r: bool)
    ensures
        r == (s@.len() > 0 && s@[0] == '/'),
{
    s.unicode_len() > 0 && s.get_char(0) == '/'
}

/// Whether the text ends with `.html`.
fn ends_with_html(s: &str) -> (r: bool)
    ensures
        r == spec_ends_with_html(s@),
{
    let n = s.unicode_len();
    if n < 5 {
        return false;
    }
    let tail = s.substring_char(n - 5, n);
    proof {
        reveal_strlit(".html");
        assert(".html"@ =~= html_suffix());
    }
    str_eq(tail, ".html")
}

/// Map a raw `href` against the base URL to a canonical same-host URL, or
/// reject it.
pub fn normalize_url(base_url: &str, url: &str) -> (r: Option<String>)
    ensures
        r is Some <==> spec_normalize(base_url@, url@) is Some,
        r matches Some(s) ==> spec_normalize(base_url@, url@) matches Some(v) && s@ == v,
{
    if let Some(h) = url_host(url) {
        if let Some(hb) = url_host(base_url) {
            if h == hb {
                return Some(url.to_owned());
            }
        }
    }
    if starts_with_slash(url) {
        let mut out = base_url.to_owned();
        out.append(url);
        return Some(out);
    }
    if ends_with_html(url) {
        let mut out = base_url.to_owned();
        out.append("/");
        out.append(url);
        proof {
            reveal_strlit("/");
            assert("/"@ =~= seq!['/']);
            assert(out@ =~= base_url@ + seq!['/'] + url@);
        }
        return Some(out);
    }
    None
}

} // verus!
