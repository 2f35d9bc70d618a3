//! Link extraction: every `href` of an `a[href]` element, in document
//! order, each normalized against the base URL. Duplicates are kept here;
//! the frontier absorbs them.

use vstd::prelude::*;

use crate::normalize::{normalize_url, spec_normalize};
use crate::spider_state::SpiderState;

verus! {

/// The `href` attributes of the document's `a[href]` elements, in
/// document order; what the document's elements are is the `scraper`
/// crate's affair.
pub uninterp spec fn hrefs_of(html: Seq<char>) -> Seq<Seq<char>>;

/// Relies on `scraper::Html::parse_document`, `scraper::Selector::parse`
/// on the fixed selector `a[href]`, and `ElementRef::attr`: the matched
/// elements' `href` values in document order, a function of the document
/// text alone.
#[verifier::external_body]
fn extract_hrefs(html: &str) -> (r: Vec<String>)
    ensures
        r.deep_view() == hrefs_of(html@),
{
    let selector = match scraper::Selector::parse("a[href]") {
        Ok(s) => s,
        Err(_) => return Vec::new(),
    };
    let document = scraper::Html::parse_document(html);
    document
        .select(&selector)
        .filter_map(|e| e.value().attr("href"))
        .map(|h| h.to_owned())
        .collect()
}

/// The hrefs that survive normalization, normalized, in order.
pub open spec fn spec_normalize_all(base: Seq<char>, hrefs: Seq<Seq<char>>) -> Seq<Seq<char>>
    decreases hrefs.len(),
{
    if hrefs.len() == 0 {
        Seq::empty()
    } else {
        let rest = spec_normalize_all(base, hrefs.drop_first());
        match spec_normalize(base, hrefs[0]) {
            Some(u) => seq![u] + rest,
            None => rest,
        }
    }
}

/// Normalize a page's raw hrefs against the base URL, keeping document
/// order and dropping rejects.
pub fn normalize_links(base_url: &str, hrefs: &Vec<String>) -> (r: Vec<String>)
    ensures
        r.deep_view() == spec_normalize_all(base_url@, hrefs.deep_view()),
{
    let mut out: Vec<String> = Vec::new();
    let n = hrefs.len();
    proof {
        assert(hrefs.deep_view().skip(0) =~= hrefs.deep_view());
        assert(out.deep_view() + spec_normalize_all(base_url@, hrefs.deep_view())
            =~= spec_normalize_all(base_url@, hrefs.deep_view()));
    }
    for k in 0..n
        invariant
            n == hrefs@.len(),
            spec_normalize_all(base_url@, hrefs.deep_view()) == out.deep_view()
                + spec_normalize_all(base_url@, hrefs.deep_view().skip(k as int)),
    {
        proof {
            assert(hrefs.deep_view().skip(k as int).drop_first() =~= hrefs.deep_view().skip(
                k + 1,
            ));
            assert(hrefs.deep_view().skip(k as int)[0] == hrefs@[k as int]@);
        }
        let ghost pre = out.deep_view();
        match normalize_url(base_url, hrefs[k].as_str()) {
            Some(u) => {
                out.push(u);
                proof {
                    assert(out.deep_view() =~= pre.push(
                        spec_normalize(base_url@, hrefs@[k as int]@)->0,
                    ));
                    assert(pre + spec_normalize_all(
                        base_url@,
                        hrefs.deep_view().skip(k as int),
                    ) =~= out.deep_view() + spec_normalize_all(
                        base_url@,
                        hrefs.deep_view().skip(k + 1),
                    ));
                }
            },
            None => {},
        }
    }
    proof {
        assert(hrefs.deep_view().skip(n as int) =~= Seq::<Seq<char>>::empty());
        assert(out.deep_view() + Seq::<Seq<char>>::empty() =~= out.deep_view());
    }
    out
}

/// Extract and normalize every link of the document.
pub fn scrap_links(base_url: &str, html: &str) -> (r: Vec<String>)
    ensures
        r.deep_view() == spec_normalize_all(base_url@, hrefs_of(html@)),
{
    let hrefs = extract_hrefs(html);
    normalize_links(base_url, &hrefs)
}

/// What a worker does with a fetched page: extract its links against the
/// crawl's base URL and fold them into the frontier at one more than the
/// task's depth.
pub fn process_document(state: &mut SpiderState, document: &str, depth: usize)
    requires
        old(state).wf(),
        depth < usize::MAX,
    ensures
        final(state).wf(),
        final(state).base_url == old(state).base_url,
        final(state).options == old(state).options,
        final(state).active_workers == old(state).active_workers,
        final(state).visited@ == old(state).visited@,
        ({
            let nd = (depth + 1) as usize;
            if old(state).options.max_depth matches Some(d) && nd > d {
                final(state).not_visited@ == old(state).not_visited@
            } else {
                final(state).pending_map() == crate::frontier::spec_add_links(
                    old(state).pending_map(),
                    old(state).visited_set(),
                    spec_normalize_all(old(state).base_url@, hrefs_of(document@)),
                    nd,
                )
            }
        }),
{
    let base = state.base_url.clone();
    let links = scrap_links(base.as_str(), document);
    let links_slice = links.as_slice();
    proof {
        assert(links_slice.deep_view() =~= links.deep_view());
    }
    state.add_urls(links_slice, depth);
}

} // verus!
