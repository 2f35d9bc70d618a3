//! The per-crawl frontier: which URLs have been committed to a worker,
//! which are pending at which minimum depth, and how many workers are busy.
//! All transitions run under the crawl's lock and do no I/O.

use vstd::prelude::*;

use crate::assoc::{assoc_map, keys_unique, lemma_assoc_map_contains, lemma_assoc_map_index};
use crate::frontier::{
    add_links_core, distinct_views, lemma_add_links_depth_bound, spec_add_links, str_view_set,
    take_last, views_disjoint,
};
use crate::options::SpiderOptions;

verus! {

/// A unit of work: a committed URL and the depth it was discovered at.
#[derive(Debug, PartialEq, Eq)]
pub struct SpiderTask {
    pub url: String,
    pub depth: usize,
}

/// The shared state of one crawl.
pub struct SpiderState {
    pub base_url: String,
    pub visited: Vec<String>,
    pub not_visited: Vec<(String, usize)>,
    pub options: SpiderOptions,
    pub active_workers: u16,
}

/// What one poll of the frontier told a worker.
pub enum WorkerStep {
    /// A task was committed to this worker; it is now active.
    Work(SpiderTask),
    /// No task now, but another worker is active and may publish more.
    Idle,
    /// No task and no active worker: the crawl is over.
    Quiesce,
}

impl SpiderState {
    /// The pending URLs, each at its least known depth.
    pub open spec fn pending_map(self) -> Map<Seq<char>, usize> {
        assoc_map(self.not_visited@)
    }

    /// The URLs already committed to a worker.
    pub open spec fn visited_set(self) -> Set<Seq<char>> {
        str_view_set(self.visited@)
    }

    /// Would the next poll hand out no task?
    pub open spec fn spec_no_task(self) -> bool {
        ||| (self.options.max_pages matches Some(m) && self.visited@.len() >= m)
        ||| self.not_visited@.len() == 0
    }

    /// Well-formedness, held at every observation under the lock:
    /// no URL is recorded twice, no visited URL is still pending, the
    /// visited count respects `max_pages`, and every pending depth
    /// respects `max_depth`.
    pub open spec fn wf(self) -> bool {
        &&& distinct_views(self.visited@)
        &&& keys_unique(self.not_visited@)
        &&& views_disjoint(self.visited@, self.not_visited@)
        &&& (self.options.max_pages matches Some(m) ==> self.visited@.len() <= m)
        &&& (self.options.max_depth matches Some(d) ==> forall|j: int|
            0 <= j < self.not_visited@.len() ==> #[trigger] self.not_visited@[j].1 <= d)
    }

    /// A fresh frontier: nothing visited, only the base URL pending at
    /// depth zero, no worker active.
    pub fn new(base_url: String, options: SpiderOptions) -> (r: Self)
        ensures
            r.wf(),
            r.base_url@ == base_url@,
            r.options == options,
            r.active_workers == 0,
            r.visited@.len() == 0,
            r.not_visited@.len() == 1,
            r.not_visited@[0].0@ == base_url@,
            r.not_visited@[0].1 == 0,
            r.visited_set() == Set::<Seq<char>>::empty(),
            r.pending_map() == Map::<Seq<char>, usize>::empty().insert(base_url@, 0),
    {
        let seed = base_url.clone();
        let mut not_visited: Vec<(String, usize)> = Vec::new();
        not_visited.push((seed, 0));
        let r = Self { base_url, visited: Vec::new(), not_visited, options, active_workers: 0 };
        proof {
            assert(r.not_visited@.drop_last() =~= Seq::<(String, usize)>::empty());
            assert(assoc_map(r.not_visited@.drop_last()) =~= Map::<Seq<char>, usize>::empty());
            assert(r.not_visited@.last().0@ == base_url@);
            assert(r.pending_map() =~= Map::<Seq<char>, usize>::empty().insert(base_url@, 0));
            assert(r.visited_set() =~= Set::<Seq<char>>::empty());
        }
        r
    }

    /// Commit one pending URL to the caller, unless the page bound is
    /// reached or nothing is pending. The URL moves from pending to
    /// visited in the same step, so no two workers can draw it.
    pub fn task(&mut self) -> (r: Option<SpiderTask>)
        requires
            old(self).wf(),
        ensures
            final(self).wf(),
            final(self).base_url == old(self).base_url,
            final(self).options == old(self).options,
            final(self).active_workers == old(self).active_workers,
            r is None <==> old(self).spec_no_task(),
            r is None ==> final(self).visited@ == old(self).visited@ && final(self).not_visited@
                == old(self).not_visited@,
            r matches Some(t) ==> {
                &&& old(self).not_visited@.len() > 0
                &&& t.url@ == old(self).not_visited@.last().0@
                &&& t.depth == old(self).not_visited@.last().1
                &&& final(self).not_visited@ == old(self).not_visited@.drop_last()
                &&& final(self).visited@.len() == old(self).visited@.len() + 1
                &&& final(self).pending_map() == old(self).pending_map().remove(t.url@)
                &&& final(self).visited_set() == old(self).visited_set().insert(t.url@)
                &&& old(self).pending_map().contains_key(t.url@)
                &&& old(self).pending_map()[t.url@] == t.depth
                &&& !old(self).visited_set().contains(t.url@)
            },
    {
        if let Some(m) = self.options.max_pages {
            if self.visited.len() >= m {
                return None;
            }
        }
        match take_last(&mut self.visited, &mut self.not_visited) {
            None => None,
            Some(pair) => Some(SpiderTask { url: pair.0, depth: pair.1 }),
        }
    }

    /// Fold a page's outgoing links into the pending map at one more than
    /// the parent's depth. Links past the depth bound are dropped wholesale;
    /// visited links are skipped; pending links keep their least depth.
    pub fn add_urls(&mut self, links: &[String], depth: usize)
        requires
            old(self).wf(),
            depth < usize::MAX,
        ensures
            final(self).wf(),
            final(self).base_url == old(self).base_url,
            final(self).options == old(self).options,
            final(self).active_workers == old(self).active_workers,
            final(self).visited@ == old(self).visited@,
            ({
                let nd = (depth + 1) as usize;
                if old(self).options.max_depth matches Some(d) && nd > d {
                    final(self).not_visited@ == old(self).not_visited@
                } else {
                    final(self).pending_map() == spec_add_links(
                        old(self).pending_map(),
                        old(self).visited_set(),
                        links.deep_view(),
                        nd,
                    )
                }
            }),
    {
        let new_depth = depth + 1;
        if let Some(md) = self.options.max_depth {
            if new_depth > md {
                return ;
            }
        }
        add_links_core(&self.visited, &mut self.not_visited, links, new_depth);
        proof {
            match self.options.max_depth {
                None => {},
                Some(d) => {
                    assert forall|k: Seq<char>| #[trigger]
                        old(self).pending_map().contains_key(k) implies old(self).pending_map()[k]
                        <= d by {
                        lemma_assoc_map_contains(old(self).not_visited@, k);
                        let i = choose|i: int|
                            0 <= i < old(self).not_visited@.len() && old(self).not_visited@[i].0@
                                == k;
                        lemma_assoc_map_index(old(self).not_visited@, i);
                    }
                    lemma_add_links_depth_bound(
                        old(self).pending_map(),
                        old(self).visited_set(),
                        links.deep_view(),
                        new_depth,
                        d,
                    );
                    assert forall|j: int|
                        0 <= j < self.not_visited@.len() implies #[trigger] self.not_visited@[j].1
                        <= d by {
                        lemma_assoc_map_index(self.not_visited@, j);
                    }
                },
            }
        }
    }

    /// Note that a worker has started processing a task.
    pub fn begin_work(&mut self)
        requires
            old(self).active_workers < u16::MAX,
        ensures
            *final(self) == (SpiderState {
                active_workers: (old(self).active_workers + 1) as u16,
                ..*old(self)
            }),
    {
        self.active_workers = self.active_workers + 1;
    }

    /// Note that a worker has finished processing a task.
    pub fn end_work(&mut self)
        requires
            old(self).active_workers > 0,
        ensures
            *final(self) == (SpiderState {
                active_workers: (old(self).active_workers - 1) as u16,
                ..*old(self)
            }),
    {
        self.active_workers = self.active_workers - 1;
    }

    /// One worker poll, as performed in a single critical section: draw a
    /// task and become active, or observe that the crawl is quiescent, or
    /// yield while a sibling still works.
    pub fn worker_poll(&mut self) -> (r: WorkerStep)
        requires
            old(self).wf(),
            old(self).active_workers < u16::MAX,
        ensures
            final(self).wf(),
            final(self).base_url == old(self).base_url,
            final(self).options == old(self).options,
            r matches WorkerStep::Work(t) ==> {
                &&& final(self).active_workers == old(self).active_workers + 1
                &&& old(self).not_visited@.len() > 0
                &&& t.url@ == old(self).not_visited@.last().0@
                &&& t.depth == old(self).not_visited@.last().1
                &&& final(self).not_visited@ == old(self).not_visited@.drop_last()
                &&& final(self).visited@.len() == old(self).visited@.len() + 1
                &&& final(self).pending_map() == old(self).pending_map().remove(t.url@)
                &&& final(self).visited_set() == old(self).visited_set().insert(t.url@)
                &&& old(self).pending_map().contains_key(t.url@)
                &&& old(self).pending_map()[t.url@] == t.depth
                &&& !old(self).visited_set().contains(t.url@)
            },
            r is Idle || r is Quiesce ==> {
                &&& final(self).visited@ == old(self).visited@
                &&& final(self).not_visited@ == old(self).not_visited@
                &&& final(self).active_workers == old(self).active_workers
                &&& old(self).spec_no_task()
            },
            r is Idle ==> old(self).active_workers > 0,
            r is Quiesce ==> old(self).active_workers == 0,
    {
        let t = self.task();
        match t {
            Some(task) => {
                self.begin_work();
                WorkerStep::Work(task)
            },
            None => {
                if self.active_workers == 0 {
                    WorkerStep::Quiesce
                } else {
                    WorkerStep::Idle
                }
            },
        }
    }

    /// The list of visited URLs, in commit order.
    pub fn visited_snapshot(&self) -> (r: Vec<String>)
        ensures
            r.deep_view() == self.visited.deep_view(),
    {
        let n = self.visited.len();
        let mut r: Vec<String> = Vec::new();
        for i in 0..n
            invariant
                n == self.visited@.len(),
                r@.len() == i,
                forall|j: int| 0 <= j < i ==> r@[j]@ == self.visited@[j]@,
        {
            r.push(self.visited[i].clone());
        }
        proof {
            assert(r.deep_view() =~= self.visited.deep_view());
        }
        r
    }
}

/// Visited and pending URLs never overlap while the state is well formed.
pub proof fn lemma_visited_pending_disjoint(s: SpiderState, k: Seq<char>)
    requires
        s.wf(),
    ensures
        !(s.visited_set().contains(k) && s.pending_map().contains_key(k)),
{
    lemma_assoc_map_contains(s.not_visited@, k);
    if s.visited_set().contains(k) && s.pending_map().contains_key(k) {
        let i = choose|i: int| 0 <= i < s.visited@.len() && s.visited@[i]@ == k;
        let j = choose|j: int| 0 <= j < s.not_visited@.len() && s.not_visited@[j].0@ == k;
        assert(s.visited@[i]@ != s.not_visited@[j].0@);
    }
}

/// The number of visited pages never passes the page bound.
pub proof fn lemma_page_bound(s: SpiderState)
    requires
        s.wf(),
    ensures
        s.options.max_pages matches Some(m) ==> s.visited@.len() <= m,
{
}

/// No pending URL sits past the depth bound.
pub proof fn lemma_depth_bound(s: SpiderState, k: Seq<char>)
    requires
        s.wf(),
        s.pending_map().contains_key(k),
    ensures
        s.options.max_depth matches Some(d) ==> s.pending_map()[k] <= d,
{
    lemma_assoc_map_contains(s.not_visited@, k);
    let i = choose|i: int| 0 <= i < s.not_visited@.len() && s.not_visited@[i].0@ == k;
    lemma_assoc_map_index(s.not_visited@, i);
}

/// Quiescence: when a poll finds no task while no worker is active, the
/// crawl is over, and unless the page bound cut it short nothing is left
/// pending.
pub proof fn lemma_quiescent_frontier(s: SpiderState)
    requires
        s.wf(),
        s.spec_no_task(),
        s.active_workers == 0,
    ensures
        s.not_visited@.len() == 0 || (s.options.max_pages matches Some(m) && s.visited@.len()
            >= m),
        s.options.max_pages is None ==> s.pending_map() == Map::<Seq<char>, usize>::empty(),
{
    if s.not_visited@.len() == 0 {
        assert(s.pending_map() =~= Map::<Seq<char>, usize>::empty());
    }
}

} // verus!
