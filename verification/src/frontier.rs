//! The crawl frontier's primitive transitions: committing a pending URL to
//! the visited set, and merging freshly discovered links into the pending
//! map at their least known depth. Both `SpiderState` and the older
//! `VisitedState` drive their methods through these.

use vstd::prelude::*;

use crate::assoc::{
    assoc_find, assoc_map, keys_unique, lemma_assoc_map_contains, lemma_assoc_map_drop_last,
    lemma_assoc_map_index, lemma_assoc_map_push, lemma_assoc_map_update, vec_contains_str,
};

verus! {

/// No two strings in the sequence hold the same characters.
pub open spec fn distinct_views(s: Seq<String>) -> bool {
    forall|i: int, j: int| 0 <= i < j < s.len() ==> s[i]@ != s[j]@
}

/// No visited URL is also a pending key.
pub open spec fn views_disjoint<V>(visited: Seq<String>, pending: Seq<(String, V)>) -> bool {
    forall|i: int, j: int|
        0 <= i < visited.len() && 0 <= j < pending.len() ==> visited[i]@ != pending[j].0@
}

/// The set of character sequences a vector of strings holds.
pub open spec fn str_view_set(s: Seq<String>) -> Set<Seq<char>> {
    Set::new(|k: Seq<char>| exists|i: int| 0 <= i < s.len() && s[i]@ == k)
}

/// One discovered link folded into the pending map: visited links are
/// dropped, known links keep the smaller of the two depths, new links are
/// inserted at the offered depth.
pub open spec fn spec_add_link(
    p: Map<Seq<char>, usize>,
    visited: Set<Seq<char>>,
    link: Seq<char>,
    nd: usize,
) -> Map<Seq<char>, usize> {
    if visited.contains(link) {
        p
    } else if p.contains_key(link) {
        if nd < p[link] {
            p.insert(link, nd)
        } else {
            p
        }
    } else {
        p.insert(link, nd)
    }
}

/// A whole page's links folded into the pending map, left to right.
pub open spec fn spec_add_links(
    p: Map<Seq<char>, usize>,
    visited: Set<Seq<char>>,
    links: Seq<Seq<char>>,
    nd: usize,
) -> Map<Seq<char>, usize>
    decreases links.len(),
{
    if links.len() == 0 {
        p
    } else {
        spec_add_links(spec_add_link(p, visited, links[0], nd), visited, links.drop_first(), nd)
    }
}

pub proof fn lemma_add_links_push(
    p: Map<Seq<char>, usize>,
    visited: Set<Seq<char>>,
    links: Seq<Seq<char>>,
    link: Seq<char>,
    nd: usize,
)
    ensures
        spec_add_links(p, visited, links.push(link), nd) == spec_add_link(
            spec_add_links(p, visited, links, nd),
            visited,
            link,
            nd,
        ),
    decreases links.len(),
{
    if links.len() == 0 {
        assert(links.push(link)[0] == link);
        assert(links.push(link).drop_first() =~= Seq::<Seq<char>>::empty());
        assert(spec_add_links(p, visited, links.push(link), nd) == spec_add_links(
            spec_add_link(p, visited, link, nd),
            visited,
            links.push(link).drop_first(),
            nd,
        ));
        assert(spec_add_links(p, visited, links, nd) == p);
    } else {
        let q = spec_add_link(p, visited, links[0], nd);
        assert(links.push(link)[0] == links[0]);
        assert(links.push(link).drop_first() =~= links.drop_first().push(link));
        lemma_add_links_push(q, visited, links.drop_first(), link, nd);
        assert(spec_add_links(p, visited, links.push(link), nd) == spec_add_links(
            q,
            visited,
            links.push(link).drop_first(),
            nd,
        ));
        assert(spec_add_links(p, visited, links, nd) == spec_add_links(
            q,
            visited,
            links.drop_first(),
            nd,
        ));
    }
}

/// Folding links in at a depth within the bound keeps every stored depth
/// within the bound.
pub proof fn lemma_add_links_depth_bound(
    p: Map<Seq<char>, usize>,
    visited: Set<Seq<char>>,
    links: Seq<Seq<char>>,
    nd: usize,
    bound: usize,
)
    requires
        nd <= bound,
        forall|k: Seq<char>| #[trigger] p.contains_key(k) ==> p[k] <= bound,
    ensures
        forall|k: Seq<char>| #[trigger]
            spec_add_links(p, visited, links, nd).contains_key(k) ==> spec_add_links(
                p,
                visited,
                links,
                nd,
            )[k] <= bound,
    decreases links.len(),
{
    if links.len() == 0 {
        assert(spec_add_links(p, visited, links, nd) == p);
    } else {
        let p1 = spec_add_link(p, visited, links[0], nd);
        assert(forall|k: Seq<char>| #[trigger] p1.contains_key(k) ==> p1[k] <= bound);
        lemma_add_links_depth_bound(p1, visited, links.drop_first(), nd, bound);
        assert(spec_add_links(p, visited, links, nd) == spec_add_links(
            p1,
            visited,
            links.drop_first(),
            nd,
        ));
    }
}

/// Folding links in never drops a pending URL and never raises a stored
/// depth: until commit, a URL's depth is monotonically non-increasing.
pub proof fn lemma_add_links_nonincreasing(
    p: Map<Seq<char>, usize>,
    visited: Set<Seq<char>>,
    links: Seq<Seq<char>>,
    nd: usize,
)
    ensures
        forall|k: Seq<char>| #[trigger]
            p.contains_key(k) ==> spec_add_links(p, visited, links, nd).contains_key(k)
                && spec_add_links(p, visited, links, nd)[k] <= p[k],
    decreases links.len(),
{
    if links.len() == 0 {
        assert(spec_add_links(p, visited, links, nd) == p);
    } else {
        let p1 = spec_add_link(p, visited, links[0], nd);
        lemma_add_links_nonincreasing(p1, visited, links.drop_first(), nd);
        assert(spec_add_links(p, visited, links, nd) == spec_add_links(
            p1,
            visited,
            links.drop_first(),
            nd,
        ));
        assert forall|k: Seq<char>| #[trigger]
            p.contains_key(k) implies spec_add_links(p, visited, links, nd).contains_key(k)
            && spec_add_links(p, visited, links, nd)[k] <= p[k] by {
            assert(p1.contains_key(k) && p1[k] <= p[k]);
        }
    }
}

/// The smaller of two depths.
pub open spec fn umin(a: usize, b: usize) -> usize {
    if a < b {
        a
    } else {
        b
    }
}

/// The least depth in a non-empty sequence of offered depths.
pub open spec fn seq_min(ds: Seq<usize>) -> usize
    recommends
        ds.len() > 0,
    decreases ds.len(),
{
    if ds.len() <= 1 {
        ds[0]
    } else {
        umin(ds[0], seq_min(ds.drop_first()))
    }
}

/// The pending map after one URL has been offered at each depth in `ds`,
/// in that order.
pub open spec fn spec_discoveries(
    p: Map<Seq<char>, usize>,
    visited: Set<Seq<char>>,
    link: Seq<char>,
    ds: Seq<usize>,
) -> Map<Seq<char>, usize>
    decreases ds.len(),
{
    if ds.len() == 0 {
        p
    } else {
        spec_discoveries(spec_add_link(p, visited, link, ds[0]), visited, link, ds.drop_first())
    }
}

/// An unvisited URL already pending stays pending, and its stored depth
/// becomes the least of the stored depth and every depth offered after it.
pub proof fn lemma_discoveries_keep_min(
    p: Map<Seq<char>, usize>,
    visited: Set<Seq<char>>,
    link: Seq<char>,
    ds: Seq<usize>,
)
    requires
        !visited.contains(link),
        p.contains_key(link),
    ensures
        spec_discoveries(p, visited, link, ds).contains_key(link),
        spec_discoveries(p, visited, link, ds)[link] == if ds.len() == 0 {
            p[link]
        } else {
            umin(p[link], seq_min(ds))
        },
    decreases ds.len(),
{
    if ds.len() > 0 {
        let p1 = spec_add_link(p, visited, link, ds[0]);
        assert(p1.contains_key(link) && p1[link] == umin(p[link], ds[0]));
        lemma_discoveries_keep_min(p1, visited, link, ds.drop_first());
    }
}

/// A URL discovered at each of the depths in `ds` before commit is stored
/// in the pending map at the least of those depths.
pub proof fn lemma_stored_depth_is_min(
    p: Map<Seq<char>, usize>,
    visited: Set<Seq<char>>,
    link: Seq<char>,
    ds: Seq<usize>,
)
    requires
        ds.len() > 0,
        !visited.contains(link),
        !p.contains_key(link),
    ensures
        spec_discoveries(p, visited, link, ds).contains_key(link),
        spec_discoveries(p, visited, link, ds)[link] == seq_min(ds),
{
    let p1 = spec_add_link(p, visited, link, ds[0]);
    assert(p1.contains_key(link) && p1[link] == ds[0]);
    lemma_discoveries_keep_min(p1, visited, link, ds.drop_first());
}

/// Membership in the view set is witnessed by an index.
pub proof fn lemma_str_view_set_contains(s: Seq<String>, k: Seq<char>)
    ensures
        str_view_set(s).contains(k) <==> exists|i: int| 0 <= i < s.len() && s[i]@ == k,
{
}

/// Commit one pending URL: the last pending entry moves into the visited
/// vector, and nothing else changes.
pub fn take_last(visited: &mut Vec<String>, pending: &mut Vec<(String, usize)>) -> (r: Option<
    (String, usize),
>)
    requires
        distinct_views(old(visited)@),
        keys_unique(old(pending)@),
        views_disjoint(old(visited)@, old(pending)@),
    ensures
        distinct_views(final(visited)@),
        keys_unique(final(pending)@),
        views_disjoint(final(visited)@, final(pending)@),
        r is None <==> old(pending)@.len() == 0,
        r is None ==> final(visited)@ == old(visited)@ && final(pending)@ == old(pending)@,
        r matches Some(t) ==> {
            &&& old(pending)@.len() > 0
            &&& t == old(pending)@.last()
            &&& final(pending)@ == old(pending)@.drop_last()
            &&& final(visited)@ == old(visited)@.push(t.0)
            &&& assoc_map(final(pending)@) == assoc_map(old(pending)@).remove(t.0@)
            &&& str_view_set(final(visited)@) == str_view_set(old(visited)@).insert(t.0@)
            &&& assoc_map(old(pending)@).contains_key(t.0@)
            &&& assoc_map(old(pending)@)[t.0@] == t.1
            &&& !str_view_set(old(visited)@).contains(t.0@)
        },
{
    match pending.pop() {
        None => None,
        Some(pair) => {
            proof {
                assert(pending@ =~= old(pending)@.drop_last());
                lemma_assoc_map_drop_last(old(pending)@);
                lemma_assoc_map_index(old(pending)@, old(pending)@.len() - 1);
            }
            let url = pair.0.clone();
            let ghost pre_visited = visited@;
            visited.push(url);
            proof {
                assert(visited@ == pre_visited.push(pair.0));
                assert forall|k: Seq<char>| str_view_set(visited@).contains(k) implies str_view_set(
                    pre_visited,
                ).insert(pair.0@).contains(k) by {
                    let i = choose|i: int| 0 <= i < visited@.len() && visited@[i]@ == k;
                    if i < pre_visited.len() {
                        assert(pre_visited[i]@ == k);
                    }
                }
                assert forall|k: Seq<char>|
                    str_view_set(pre_visited).insert(pair.0@).contains(k) implies str_view_set(
                    visited@,
                ).contains(k) by {
                    if k == pair.0@ {
                        assert(visited@[pre_visited.len() as int]@ == k);
                    } else {
                        let i = choose|i: int| 0 <= i < pre_visited.len() && pre_visited[i]@ == k;
                        assert(visited@[i]@ == k);
                    }
                }
                assert(str_view_set(visited@) =~= str_view_set(pre_visited).insert(pair.0@));
                assert(!str_view_set(pre_visited).contains(pair.0@)) by {
                    if str_view_set(pre_visited).contains(pair.0@) {
                        let i = choose|i: int|
                            0 <= i < pre_visited.len() && pre_visited[i]@ == pair.0@;
                        assert(pre_visited[i]@ == old(pending)@[old(pending)@.len() - 1].0@);
                    }
                }
            }
            Some(pair)
        },
    }
}

/// Merge a page's links into the pending map at the given depth.
pub fn add_links_core(
    visited: &Vec<String>,
    pending: &mut Vec<(String, usize)>,
    links: &[String],
    new_depth: usize,
)
    requires
        keys_unique(old(pending)@),
        views_disjoint(visited@, old(pending)@),
    ensures
        keys_unique(final(pending)@),
        views_disjoint(visited@, final(pending)@),
        assoc_map(final(pending)@) == spec_add_links(
            assoc_map(old(pending)@),
            str_view_set(visited@),
            links.deep_view(),
            new_depth,
        ),
{
    let n = links.len();
    proof {
        assert(links.deep_view().take(0) =~= Seq::<Seq<char>>::empty());
    }
    for k in 0..n
        invariant
            n == links@.len(),
            links.deep_view().len() == n,
            keys_unique(pending@),
            views_disjoint(visited@, pending@),
            assoc_map(pending@) == spec_add_links(
                assoc_map(old(pending)@),
                str_view_set(visited@),
                links.deep_view().take(k as int),
                new_depth,
            ),
    {
        let link = &links[k];
        proof {
            assert(links.deep_view()[k as int] == link@);
            assert(links.deep_view().take(k + 1) =~= links.deep_view().take(k as int).push(link@));
            lemma_add_links_push(
                assoc_map(old(pending)@),
                str_view_set(visited@),
                links.deep_view().take(k as int),
                link@,
                new_depth,
            );
        }
        let ghost pre = pending@;
        if vec_contains_str(visited.as_slice(), link.as_str()) {
            proof {
                lemma_str_view_set_contains(visited@, link@);
                assert(str_view_set(visited@).contains(link@));
            }
        } else {
            proof {
                lemma_str_view_set_contains(visited@, link@);
                assert(!str_view_set(visited@).contains(link@));
            }
            match assoc_find(pending, link.as_str()) {
                Some(i) => {
                    proof {
                        lemma_assoc_map_index(pending@, i as int);
                    }
                    let stored = pending[i].1;
                    if new_depth < stored {
                        let key = pending[i].0.clone();
                        pending[i] = (key, new_depth);
                        proof {
                            assert(pending@ =~= pre.update(i as int, (pre[i as int].0, new_depth)));
                            lemma_assoc_map_update(pre, i as int, new_depth);
                            assert(forall|x: int|
                                0 <= x < pending@.len() ==> pending@[x].0 == pre[x].0);
                        }
                    }
                },
                None => {
                    pending.push((link.clone(), new_depth));
                    proof {
                        lemma_assoc_map_contains(pre, link@);
                        assert(!assoc_map(pre).contains_key(link@));
                        let pushed = pending@.last();
                        assert(pending@ =~= pre.push(pushed));
                        lemma_assoc_map_push(pre, pushed.0, pushed.1);
                        assert(pushed.0@ == link@);
                        assert forall|x: int, y: int|
                            0 <= x < y < pending@.len() implies pending@[x].0@
                            != pending@[y].0@ by {
                            if y < pre.len() {
                                assert(pending@[x] == pre[x] && pending@[y] == pre[y]);
                            } else {
                                assert(pending@[x] == pre[x]);
                            }
                        }
                        assert forall|x: int, y: int|
                            0 <= x < visited@.len() && 0 <= y < pending@.len() implies visited@[x]@
                            != pending@[y].0@ by {
                            if y < pre.len() {
                                assert(pending@[y] == pre[y]);
                            } else {
                                assert(!(exists|i: int|
                                    0 <= i < visited@.len() && visited@[i]@ == link@));
                            }
                        }
                    }
                },
            }
        }
    }
    proof {
        assert(links.deep_view().take(n as int) =~= links.deep_view());
    }
}

} // verus!
