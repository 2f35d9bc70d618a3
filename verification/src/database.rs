//! The process-wide stores: crawl results keyed by fingerprint, and the
//! document cache keyed by URL. Entries are inserted and looked up, never
//! evicted.

use vstd::prelude::*;

use crate::assoc::{
    assoc_find, assoc_map, keys_unique, lemma_assoc_map_contains, lemma_assoc_map_index,
    lemma_assoc_map_push, lemma_assoc_map_update,
};
use crate::fingerprint::{lemma_fingerprint_ignores_flags, spec_fingerprint, Input};

verus! {

/// The two process-wide maps, shared by every handler and worker.
pub struct Database {
    pub domain_links: Vec<(String, Vec<String>)>,
    pub crawled_urls: Vec<(String, String)>,
}

impl Database {
    /// The stored crawl results, by fingerprint.
    pub open spec fn links_map(self) -> Map<Seq<char>, Vec<String>> {
        assoc_map(self.domain_links@)
    }

    /// The cached documents, by URL.
    pub open spec fn pages_map(self) -> Map<Seq<char>, String> {
        assoc_map(self.crawled_urls@)
    }

    /// Each key is stored once.
    pub open spec fn wf(self) -> bool {
        keys_unique(self.domain_links@) && keys_unique(self.crawled_urls@)
    }

    /// What a count query answers for an id.
    pub open spec fn spec_count(self, id: Seq<char>) -> Option<nat> {
        if self.links_map().contains_key(id) {
            Some(self.links_map()[id]@.len())
        } else {
            None
        }
    }

    /// Empty stores.
    pub fn new() -> (r: Self)
        ensures
            r.wf(),
            r.links_map() == Map::<Seq<char>, Vec<String>>::empty(),
            r.pages_map() == Map::<Seq<char>, String>::empty(),
    {
        let r = Self { domain_links: Vec::new(), crawled_urls: Vec::new() };
        proof {
            assert(r.links_map() =~= Map::<Seq<char>, Vec<String>>::empty());
            assert(r.pages_map() =~= Map::<Seq<char>, String>::empty());
        }
        r
    }

    /// Whether a crawl with this fingerprint has already been recorded.
    pub fn has_links(&self, id: &str) -> (r: bool)
        ensures
            r == self.links_map().contains_key(id@),
    {
        let found = assoc_find(&self.domain_links, id);
        proof {
            lemma_assoc_map_contains(self.domain_links@, id@);
        }
        found.is_some()
    }

    /// The stored result list for an id, if one is recorded.
    pub fn get_links(&self, id: &str) -> (r: Option<&Vec<String>>)
        requires
            self.wf(),
        ensures
            r is Some <==> self.links_map().contains_key(id@),
            r matches Some(l) ==> *l == self.links_map()[id@],
    {
        proof {
            lemma_assoc_map_contains(self.domain_links@, id@);
        }
        match assoc_find(&self.domain_links, id) {
            None => None,
            Some(i) => {
                proof {
                    lemma_assoc_map_index(self.domain_links@, i as int);
                }
                Some(&self.domain_links[i].1)
            },
        }
    }

    /// How many URLs the stored result list for an id holds, if one is
    /// recorded.
    pub fn count_links(&self, id: &str) -> (r: Option<usize>)
        requires
            self.wf(),
        ensures
            r is Some <==> self.spec_count(id@) is Some,
            r matches Some(n) ==> self.spec_count(id@) matches Some(c) && n == c,
    {
        match self.get_links(id) {
            None => None,
            Some(l) => Some(l.len()),
        }
    }

    /// Record a crawl's result under its fingerprint, replacing any
    /// earlier entry for the same id.
    pub fn insert_links(&mut self, id: String, links: Vec<String>)
        requires
            old(self).wf(),
        ensures
            final(self).wf(),
            final(self).links_map() == old(self).links_map().insert(id@, links),
            final(self).crawled_urls@ == old(self).crawled_urls@,
    {
        let ghost pre = self.domain_links@;
        match assoc_find(&self.domain_links, id.as_str()) {
            Some(i) => {
                let key = self.domain_links[i].0.clone();
                self.domain_links[i] = (key, links);
                proof {
                    assert(self.domain_links@ =~= pre.update(i as int, (pre[i as int].0, links)));
                    lemma_assoc_map_update(pre, i as int, links);
                    assert(forall|x: int|
                        0 <= x < self.domain_links@.len() ==> self.domain_links@[x].0
                            == pre[x].0);
                }
            },
            None => {
                self.domain_links.push((id, links));
                proof {
                    lemma_assoc_map_contains(pre, self.domain_links@.last().0@);
                    let pushed = self.domain_links@.last();
                    assert(self.domain_links@ =~= pre.push(pushed));
                    lemma_assoc_map_push(pre, pushed.0, pushed.1);
                    assert forall|x: int, y: int|
                        0 <= x < y < self.domain_links@.len() implies self.domain_links@[x].0@
                        != self.domain_links@[y].0@ by {
                        if y < pre.len() {
                            assert(self.domain_links@[x] == pre[x] && self.domain_links@[y]
                                == pre[y]);
                        } else {
                            assert(self.domain_links@[x] == pre[x]);
                        }
                    }
                }
            },
        }
    }

    /// The cached document for a URL, cloned, if one is cached.
    pub fn get_page(&self, url: &str) -> (r: Option<String>)
        requires
            self.wf(),
        ensures
            r is Some <==> self.pages_map().contains_key(url@),
            r matches Some(d) ==> d == self.pages_map()[url@],
    {
        proof {
            lemma_assoc_map_contains(self.crawled_urls@, url@);
        }
        match assoc_find(&self.crawled_urls, url) {
            None => None,
            Some(i) => {
                proof {
                    lemma_assoc_map_index(self.crawled_urls@, i as int);
                }
                Some(self.crawled_urls[i].1.clone())
            },
        }
    }

    /// Cache a fetched document under its URL, replacing any earlier
    /// entry.
    pub fn insert_page(&mut self, url: String, document: String)
        requires
            old(self).wf(),
        ensures
            final(self).wf(),
            final(self).pages_map() == old(self).pages_map().insert(url@, document),
            final(self).domain_links@ == old(self).domain_links@,
    {
        let ghost pre = self.crawled_urls@;
        match assoc_find(&self.crawled_urls, url.as_str()) {
            Some(i) => {
                let key = self.crawled_urls[i].0.clone();
                self.crawled_urls[i] = (key, document);
                proof {
                    assert(self.crawled_urls@ =~= pre.update(
                        i as int,
                        (pre[i as int].0, document),
                    ));
                    lemma_assoc_map_update(pre, i as int, document);
                    assert(forall|x: int|
                        0 <= x < self.crawled_urls@.len() ==> self.crawled_urls@[x].0
                            == pre[x].0);
                }
            },
            None => {
                self.crawled_urls.push((url, document));
                proof {
                    lemma_assoc_map_contains(pre, self.crawled_urls@.last().0@);
                    let pushed = self.crawled_urls@.last();
                    assert(self.crawled_urls@ =~= pre.push(pushed));
                    lemma_assoc_map_push(pre, pushed.0, pushed.1);
                    assert forall|x: int, y: int|
                        0 <= x < y < self.crawled_urls@.len() implies self.crawled_urls@[x].0@
                        != self.crawled_urls@[y].0@ by {
                        if y < pre.len() {
                            assert(self.crawled_urls@[x] == pre[x] && self.crawled_urls@[y]
                                == pre[y]);
                        } else {
                            assert(self.crawled_urls@[x] == pre[x]);
                        }
                    }
                }
            },
        }
    }
}

/// What a submission handler decides before any crawl: the request's id,
/// and whether a crawl must run because no result is recorded under it.
pub fn prepare_submission(db: &Database, input: &Input) -> (r: (String, bool))
    ensures
        r.0@ == spec_fingerprint(input.address@, input.max_depth, input.max_pages),
        r.0@.len() == 32,
        r.1 == !db.links_map().contains_key(r.0@),
{
    let id = input.generate_hash();
    let recorded = db.has_links(id.as_str());
    (id, !recorded)
}

/// A count query answers exactly the length of the list that the list
/// query answers for the same id, and fails exactly when it does.
pub proof fn lemma_count_matches_list(db: Database, id: Seq<char>)
    requires
        db.wf(),
    ensures
        db.spec_count(id) is Some <==> db.links_map().contains_key(id),
        db.links_map().contains_key(id) ==> db.spec_count(id) == Some(db.links_map()[id]@.len()),
{
}

/// A second submission whose address and bounds match a recorded crawl
/// maps to the recorded id, whatever its flags, so no new crawl runs.
pub proof fn lemma_resubmission_finds_result(db: Database, a: Input, b: Input)
    requires
        db.wf(),
        a.address@ == b.address@,
        a.max_depth == b.max_depth,
        a.max_pages == b.max_pages,
        db.links_map().contains_key(spec_fingerprint(a.address@, a.max_depth, a.max_pages)),
    ensures
        db.links_map().contains_key(spec_fingerprint(b.address@, b.max_depth, b.max_pages)),
{
    lemma_fingerprint_ignores_flags(a, b);
}

} // verus!
