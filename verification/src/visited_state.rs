//! An earlier, smaller frontier: visited and pending URLs with depth and
//! page bounds, without worker bookkeeping. It drives the same core
//! transitions as `SpiderState`.

use vstd::prelude::*;

use crate::assoc::{assoc_map, keys_unique, lemma_assoc_map_contains, lemma_assoc_map_index};
use crate::frontier::{
    add_links_core, distinct_views, lemma_add_links_depth_bound, spec_add_links, str_view_set,
    take_last, views_disjoint,
};

verus! {

/// The record of one crawl's progress: committed URLs, pending URLs at
/// their least known depth, and the crawl's bounds.
pub struct VisitedState {
    pub visited: Vec<String>,
    pub not_visited: Vec<(String, usize)>,
    pub max_depth: Option<usize>,
    pub max_pages: Option<usize>,
}

impl VisitedState {
    /// The pending URLs, each at its least known depth.
    pub open spec fn pending_map(self) -> Map<Seq<char>, usize> {
        assoc_map(self.not_visited@)
    }

    /// The URLs already committed.
    pub open spec fn visited_set(self) -> Set<Seq<char>> {
        str_view_set(self.visited@)
    }

    /// Well-formedness: no URL recorded twice, visited and pending
    /// disjoint, and both bounds respected.
    pub open spec fn wf(self) -> bool {
        &&& distinct_views(self.visited@)
        &&& keys_unique(self.not_visited@)
        &&& views_disjoint(self.visited@, self.not_visited@)
        &&& (self.max_pages matches Some(m) ==> self.visited@.len() <= m)
        &&& (self.max_depth matches Some(d) ==> forall|j: int|
            0 <= j < self.not_visited@.len() ==> #[trigger] self.not_visited@[j].1 <= d)
    }

    /// A fresh record with only the base URL pending at depth zero.
    pub fn new(base_url: &str, max_depth: Option<usize>, max_pages: Option<usize>) -> (r: Self)
        ensures
            r.wf(),
            r.max_depth == max_depth,
            r.max_pages == max_pages,
            r.visited@.len() == 0,
            r.not_visited@.len() == 1,
            r.not_visited@[0].0@ == base_url@,
            r.not_visited@[0].1 == 0,
            r.visited_set() == Set::<Seq<char>>::empty(),
            r.pending_map() == Map::<Seq<char>, usize>::empty().insert(base_url@, 0),
    {
        let mut not_visited: Vec<(String, usize)> = Vec::new();
        not_visited.push((base_url.to_owned(), 0));
        let r = Self { visited: Vec::new(), not_visited, max_depth, max_pages };
        proof {
            assert(r.not_visited@.drop_last() =~= Seq::<(String, usize)>::empty());
            assert(assoc_map(r.not_visited@.drop_last()) =~= Map::<Seq<char>, usize>::empty());
            assert(r.not_visited@.last().0@ == base_url@);
            assert(r.pending_map() =~= Map::<Seq<char>, usize>::empty().insert(base_url@, 0));
            assert(r.visited_set() =~= Set::<Seq<char>>::empty());
        }
        r
    }

    /// Commit the most recently recorded pending URL, unless the page
    /// bound is reached or nothing is pending.
    pub fn not_visited_last(&mut self) -> (r: Option<(String, usize)>)
        requires
            old(self).wf(),
        ensures
            final(self).wf(),
            final(self).max_depth == old(self).max_depth,
            final(self).max_pages == old(self).max_pages,
            r is None <==> ((old(self).max_pages matches Some(m) && old(self).visited@.len() >= m)
                || old(self).not_visited@.len() == 0),
            r is None ==> final(self).visited@ == old(self).visited@ && final(self).not_visited@
                == old(self).not_visited@,
            r matches Some(t) ==> {
                &&& old(self).not_visited@.len() > 0
                &&& t.0@ == old(self).not_visited@.last().0@
                &&& t.1 == old(self).not_visited@.last().1
                &&& final(self).not_visited@ == old(self).not_visited@.drop_last()
                &&& final(self).visited@.len() == old(self).visited@.len() + 1
                &&& final(self).pending_map() == old(self).pending_map().remove(t.0@)
                &&& final(self).visited_set() == old(self).visited_set().insert(t.0@)
                &&& old(self).pending_map().contains_key(t.0@)
                &&& old(self).pending_map()[t.0@] == t.1
                &&& !old(self).visited_set().contains(t.0@)
            },
    {
        if let Some(m) = self.max_pages {
            if self.visited.len() >= m {
                return None;
            }
        }
        take_last(&mut self.visited, &mut self.not_visited)
    }

    /// Fold a page's outgoing links into the pending map at one more than
    /// the parent's depth, exactly as `SpiderState::add_urls` does.
    pub fn add_urls(&mut self, links: &[String], depth: usize)
        requires
            old(self).wf(),
            depth < usize::MAX,
        ensures
            final(self).wf(),
            final(self).max_depth == old(self).max_depth,
            final(self).max_pages == old(self).max_pages,
            final(self).visited@ == old(self).visited@,
            ({
                let nd = (depth + 1) as usize;
                if old(self).max_depth matches Some(d) && nd > d {
                    final(self).not_visited@ == old(self).not_visited@
                } else {
                    final(self).pending_map() == spec_add_links(
                        old(self).pending_map(),
                        old(self).visited_set(),
                        links.deep_view(),
                        nd,
                    )
                }
            }),
    {
        let new_depth = depth + 1;
        if let Some(md) = self.max_depth {
            if new_depth > md {
                return ;
            }
        }
        add_links_core(&self.visited, &mut self.not_visited, links, new_depth);
        proof {
            match self.max_depth {
                None => {},
                Some(d) => {
                    assert forall|k: Seq<char>| #[trigger]
                        old(self).pending_map().contains_key(k) implies old(self).pending_map()[k]
                        <= d by {
                        lemma_assoc_map_contains(old(self).not_visited@, k);
                        let i = choose|i: int|
                            0 <= i < old(self).not_visited@.len() && old(self).not_visited@[i].0@
                                == k;
                        lemma_assoc_map_index(old(self).not_visited@, i);
                    }
                    lemma_add_links_depth_bound(
                        old(self).pending_map(),
                        old(self).visited_set(),
                        links.deep_view(),
                        new_depth,
                        d,
                    );
                    assert forall|j: int|
                        0 <= j < self.not_visited@.len() implies #[trigger] self.not_visited@[j].1
                        <= d by {
                        lemma_assoc_map_index(self.not_visited@, j);
                    }
                },
            }
        }
    }
}

} // verus!
