//! The graph of zero-resistance links (wires and explicit connections) between nodes,
//! and which nodes are joined through it.

use vstd::prelude::*;
use crate::text::{views, lemma_views_push};
use crate::names::{first_occurrences, lemma_first_occurrences, position_of, distinct_in_order};

verus! {

/// The character sequences of the two ends of each link.
pub open spec fn link_views(links: Seq<(String, String)>) -> Seq<(Seq<char>, Seq<char>)> {
    links.map_values(|e: (String, String)| (e.0@, e.1@))
}

/// Some link joins `a` and `b`, in either direction.
pub open spec fn linked(links: Seq<(Seq<char>, Seq<char>)>, a: Seq<char>, b: Seq<char>) -> bool {
    exists|k: int|
        0 <= k < links.len() && ((links[k].0 == a && links[k].1 == b) || (links[k].0 == b
            && links[k].1 == a))
}

/// The `i`-th and `i + 1`-th nodes of `path` are joined by a link.
pub open spec fn step_linked(
    links: Seq<(Seq<char>, Seq<char>)>,
    path: Seq<Seq<char>>,
    i: int,
) -> bool {
    linked(links, path[i], path[i + 1])
}

/// `path` is a non-empty walk along links.
pub open spec fn is_link_path(links: Seq<(Seq<char>, Seq<char>)>, path: Seq<Seq<char>>) -> bool {
    &&& path.len() > 0
    &&& forall|i: int| 0 <= i < path.len() - 1 ==> #[trigger] step_linked(links, path, i)
}

/// `b` can be reached from `a` along links (every node reaches itself).
pub open spec fn joined(links: Seq<(Seq<char>, Seq<char>)>, a: Seq<char>, b: Seq<char>) -> bool {
    exists|path: Seq<Seq<char>>| is_link_path(links, path) && path[0] == a && path.last() == b
}

/// The ends of the links, each link's first end before its second.
pub open spec fn link_ends(links: Seq<(Seq<char>, Seq<char>)>) -> Seq<Seq<char>>
    decreases links.len(),
{
    if links.len() == 0 {
        seq![]
    } else {
        link_ends(links.drop_last()) + seq![links.last().0, links.last().1]
    }
}

/// The nodes that some link touches, in order of first mention.
pub open spec fn link_nodes(links: Seq<(Seq<char>, Seq<char>)>) -> Seq<Seq<char>> {
    first_occurrences(link_ends(links))
}

/// The number of `true` entries.
pub open spec fn count_true(s: Seq<bool>) -> nat
    decreases s.len(),
{
    if s.len() == 0 {
        0
    } else {
        count_true(s.drop_last()) + if s.last() {
            1nat
        } else {
            0nat
        }
    }
}

proof fn lemma_count_true_bound(s: Seq<bool>)
    ensures
        count_true(s) <= s.len(),
    decreases s.len(),
{
    if s.len() > 0 {
        lemma_count_true_bound(s.drop_last());
    }
}

proof fn lemma_count_true_set(s: Seq<bool>, j: int)
    requires
        0 <= j < s.len(),
        !s[j],
    ensures
        count_true(s.update(j, true)) == count_true(s) + 1,
    decreases s.len(),
{
    let t = s.update(j, true);
    if j == s.len() - 1 {
        assert(t.drop_last() =~= s.drop_last());
    } else {
        assert(t.drop_last() =~= s.drop_last().update(j, true));
        lemma_count_true_set(s.drop_last(), j);
    }
}

/// The links between distinct nodes, with each link's ends given as positions in `nodes`.
pub struct LinkGraph {
    /// The nodes that some link touches, in order of first mention, each once.
    pub nodes: Vec<String>,
    /// For each link, the positions of its two ends in `nodes`.
    pub ends: Vec<(usize, usize)>,
}

impl LinkGraph {
    /// `self` is the graph of `links`.
    pub open spec fn represents(&self, links: Seq<(Seq<char>, Seq<char>)>) -> bool {
        &&& views(self.nodes@) == link_nodes(links)
        &&& views(self.nodes@).no_duplicates()
        &&& self.ends@.len() == links.len()
        &&& forall|k: int|
            #![trigger self.ends@[k]]
            0 <= k < links.len() ==> {
                &&& self.ends@[k].0 < self.nodes@.len()
                &&& self.ends@[k].1 < self.nodes@.len()
                &&& self.nodes@[self.ends@[k].0 as int]@ == links[k].0
                &&& self.nodes@[self.ends@[k].1 as int]@ == links[k].1
            }
    }

    /// Builds the graph of `links`.
    pub fn build(links: &Vec<(String, String)>) -> (g: LinkGraph)
        ensures
            g.represents(link_views(links@)),
    {
        let ghost lv = link_views(links@);
        let mut all_ends: Vec<String> = Vec::new();
        let mut i: usize = 0;
        while i < links.len()
            invariant
                i <= links@.len(),
                lv == link_views(links@),
                views(all_ends@) == link_ends(lv.take(i as int)),
            decreases links.len() - i,
        {
            let ghost r0 = all_ends@;
            all_ends.push(links[i].0.clone());
            let ghost r1 = all_ends@;
            all_ends.push(links[i].1.clone());
            proof {
                lemma_views_push(r0, links@[i as int].0);
                lemma_views_push(r1, links@[i as int].1);
                assert(lv.take(i + 1).drop_last() =~= lv.take(i as int));
                assert(views(all_ends@) =~= link_ends(lv.take(i + 1)));
            }
            i = i + 1;
        }
        assert(lv.take(i as int) =~= lv);
        let nodes = distinct_in_order(&all_ends);
        proof {
            lemma_first_occurrences(link_ends(lv));
        }
        let mut ends: Vec<(usize, usize)> = Vec::new();
        let mut k: usize = 0;
        while k < links.len()
            invariant
                k <= links@.len(),
                lv == link_views(links@),
                views(nodes@) == link_nodes(lv),
                views(nodes@).no_duplicates(),
                views(all_ends@) == link_ends(lv),
                forall|x: Seq<char>| views(nodes@).contains(x) <==> link_ends(lv).contains(x),
                ends@.len() == k,
                forall|m: int|
                    #![trigger ends@[m]]
                    0 <= m < k ==> {
                        &&& ends@[m].0 < nodes@.len()
                        &&& ends@[m].1 < nodes@.len()
                        &&& nodes@[ends@[m].0 as int]@ == lv[m].0
                        &&& nodes@[ends@[m].1 as int]@ == lv[m].1
                    },
            decreases links.len() - k,
        {
            proof {
                lemma_link_ends_contain(lv, k as int);
            }
            let a = position_of(&nodes, links[k].0.as_str());
            let b = position_of(&nodes, links[k].1.as_str());
            let (a, b) = match (a, b) {
                (Some(a), Some(b)) => (a, b),
                _ => {
                    proof {
                        assert(false);
                    }
                    (0, 0)
                },
            };
            ends.push((a, b));
            k = k + 1;
        }
        LinkGraph { nodes, ends }
    }

    /// Marks the nodes that can be reached from `nodes[start]` along links.
    pub fn reach_from(&self, start: usize, Ghost(links): Ghost<Seq<(Seq<char>, Seq<char>)>>) -> (r:
        Vec<bool>)
        requires
            self.represents(links),
            start < self.nodes@.len(),
        ensures
            r@.len() == self.nodes@.len(),
            forall|i: int|
                0 <= i < r@.len() ==> (r@[i] <==> joined(
                    links,
                    self.nodes@[start as int]@,
                    #[trigger] self.nodes@[i]@,
                )),
    {
        let n = self.nodes.len();
        let ghost origin = self.nodes@[start as int]@;
        let mut visited: Vec<bool> = Vec::new();
        let mut z: usize = 0;
        while z < n
            invariant
                z <= n,
                visited@.len() == z,
                forall|i: int| 0 <= i < z ==> !visited@[i],
            decreases n - z,
        {
            visited.push(false);
            z = z + 1;
        }
        assert(count_true(visited@) == 0) by {
            lemma_count_false(visited@);
        }
        proof {
            lemma_count_true_set(visited@, start as int);
            lemma_trivial_path(links, origin);
        }
        visited.set(start, true);
        let mut num_visited: usize = 1;
        let mut stack: Vec<usize> = Vec::new();
        stack.push(start);
        assert(stack@[0] == start);
        while stack.len() > 0
            invariant
                self.represents(links),
                n == self.nodes@.len(),
                start < n,
                origin == self.nodes@[start as int]@,
                visited@.len() == n,
                visited@[start as int],
                num_visited == count_true(visited@),
                forall|s: int| 0 <= s < stack@.len() ==> stack@[s] < n && visited@[stack@[s] as int],
                forall|i: int|
                    0 <= i < n && #[trigger] visited@[i] ==> joined(links, origin, self.nodes@[i]@),
                forall|i: int|
                    0 <= i < n && visited@[i] && !stack@.contains(i as usize) ==> #[trigger] self.closed(
                        visited@,
                        i,
                    ),
            decreases n - num_visited, stack@.len(),
        {
            proof {
                lemma_count_true_bound(visited@);
            }
            let ghost before_pop = stack@;
            let cur = stack.pop().unwrap();
            let ghost popped = stack@;
            let ghost num0 = num_visited;
            proof {
                assert(before_pop =~= popped.push(cur));
                assert forall|i: int|
                    0 <= i < n && visited@[i] && !popped.contains(i as usize) && i != cur
                        implies #[trigger] self.closed(visited@, i) by {
                    if before_pop.contains(i as usize) {
                        let s = choose|s: int| 0 <= s < before_pop.len() && before_pop[s] == i as usize;
                        if s < popped.len() {
                            assert(popped[s] == i as usize);
                        }
                    }
                }
            }
            let m = self.ends.len();
            let mut k: usize = 0;
            while k < m
                invariant
                    self.represents(links),
                    n == self.nodes@.len(),
                    m == self.ends@.len(),
                    k <= m,
                    start < n,
                    cur < n,
                    origin == self.nodes@[start as int]@,
                    visited@.len() == n,
                    visited@[start as int],
                    visited@[cur as int],
                    num_visited == count_true(visited@),
                    num_visited <= n,
                    stack@.len() >= popped.len(),
                    num_visited >= num0,
                    stack@.len() + num0 == popped.len() + num_visited,
                    forall|s: int| 0 <= s < popped.len() ==> stack@[s] == popped[s],
                    forall|s: int|
                        0 <= s < stack@.len() ==> stack@[s] < n && visited@[stack@[s] as int],
                    forall|i: int|
                        0 <= i < n && #[trigger] visited@[i] ==> joined(
                            links,
                            origin,
                            self.nodes@[i]@,
                        ),
                    forall|i: int|
                        0 <= i < n && visited@[i] && !stack@.contains(i as usize) && i != cur
                            ==> #[trigger] self.closed(visited@, i),
                    forall|q: int|
                        #![trigger self.ends@[q]]
                        0 <= q < m && (self.ends@[q].0 == cur || self.ends@[q].1 == cur) ==> q >= k
                            || (visited@[self.ends@[q].0 as int] && visited@[self.ends@[
                            q
                        ].1 as int]),
                decreases m - k,
            {
                let (a, b) = self.ends[k];
                if a == cur || b == cur {
                    let other = if a == cur {
                        b
                    } else {
                        a
                    };
                    if !visited[other] {
                        proof {
                            lemma_count_true_bound(visited@);
                            lemma_count_true_set(visited@, other as int);
                            lemma_count_true_bound(visited@.update(other as int, true));
                            self.lemma_extend(links, origin, cur as int, other as int, k as int);
                            assert forall|i: int|
                                0 <= i < n && visited@.update(other as int, true)[i]
                                    && !stack@.push(other).contains(i as usize) && i != cur
                                    implies #[trigger] self.closed(
                                    visited@.update(other as int, true),
                                    i,
                                ) by {
                                assert(stack@.push(other)[stack@.len() as int] == other);
                                if !stack@.contains(i as usize) {
                                    assert(i != other);
                                    assert(self.closed(visited@, i));
                                } else {
                                    let s = choose|s: int|
                                        0 <= s < stack@.len() && stack@[s] == i as usize;
                                    assert(stack@.push(other)[s] == i as usize);
                                }
                            }
                        }
                        visited.set(other, true);
                        num_visited = num_visited + 1;
                        stack.push(other);
                    }
                }
                k = k + 1;
            }
            proof {
                assert forall|i: int|
                    0 <= i < n && visited@[i] && !stack@.contains(i as usize) implies #[trigger] self.closed(
                    visited@,
                    i,
                ) by {
                    if i == cur {
                        assert forall|q: int|
                            #![trigger self.ends@[q]]
                            0 <= q < m && (self.ends@[q].0 == i || self.ends@[q].1 == i) implies visited@[self.ends@[
                            q
                        ].0 as int] && visited@[self.ends@[q].1 as int] by {}
                    }
                }
            }
        }
        proof {
            assert forall|i: int|
                0 <= i < n && joined(links, origin, #[trigger] self.nodes@[i]@) implies visited@[i] by {
                self.lemma_closed_reach(links, visited@, start as int, i);
            }
        }
        visited
    }

    /// Every link at node `i` leads to a marked node.
    pub open spec fn closed(&self, visited: Seq<bool>, i: int) -> bool {
        forall|q: int|
            #![trigger self.ends@[q]]
            0 <= q < self.ends@.len() && (self.ends@[q].0 == i || self.ends@[q].1 == i)
                ==> visited[self.ends@[q].0 as int] && visited[self.ends@[q].1 as int]
    }

    proof fn lemma_extend(
        &self,
        links: Seq<(Seq<char>, Seq<char>)>,
        origin: Seq<char>,
        cur: int,
        other: int,
        k: int,
    )
        requires
            self.represents(links),
            0 <= k < links.len(),
            (self.ends@[k].0 == cur && self.ends@[k].1 == other) || (self.ends@[k].1 == cur
                && self.ends@[k].0 == other),
            0 <= cur < self.nodes@.len(),
            joined(links, origin, self.nodes@[cur]@),
        ensures
            joined(links, origin, self.nodes@[other]@),
    {
        let path = choose|path: Seq<Seq<char>>|
            is_link_path(links, path) && path[0] == origin && path.last() == self.nodes@[cur]@;
        let p2 = path.push(self.nodes@[other]@);
        assert(self.ends@[k] == self.ends@[k]);
        assert(linked(links, self.nodes@[cur]@, self.nodes@[other]@));
        assert forall|i: int| 0 <= i < p2.len() - 1 implies #[trigger] step_linked(links, p2, i) by {
            if i < path.len() - 1 {
                assert(step_linked(links, path, i));
                assert(p2[i] == path[i] && p2[i + 1] == path[i + 1]);
            } else {
                assert(p2[i] == self.nodes@[cur]@);
                assert(p2[i + 1] == self.nodes@[other]@);
            }
        }
        assert(p2[0] == origin);
        assert(is_link_path(links, p2));
        assert(p2.last() == self.nodes@[other]@);
        assert(is_link_path(links, p2) && p2[0] == origin && p2.last() == self.nodes@[other]@);
    }

    proof fn lemma_closed_reach(
        &self,
        links: Seq<(Seq<char>, Seq<char>)>,
        visited: Seq<bool>,
        start: int,
        target: int,
    )
        requires
            self.represents(links),
            visited.len() == self.nodes@.len(),
            0 <= start < self.nodes@.len(),
            0 <= target < self.nodes@.len(),
            visited[start],
            forall|i: int| 0 <= i < self.nodes@.len() && visited[i] ==> #[trigger] self.closed(
                visited,
                i,
            ),
            joined(links, self.nodes@[start]@, self.nodes@[target]@),
        ensures
            visited[target],
    {
        let path = choose|path: Seq<Seq<char>>|
            is_link_path(links, path) && path[0] == self.nodes@[start]@ && path.last()
                == self.nodes@[target]@;
        self.lemma_walk(links, visited, path, 0, start, target);
    }

    proof fn lemma_walk(
        &self,
        links: Seq<(Seq<char>, Seq<char>)>,
        visited: Seq<bool>,
        path: Seq<Seq<char>>,
        pos: int,
        at: int,
        target: int,
    )
        requires
            self.represents(links),
            visited.len() == self.nodes@.len(),
            is_link_path(links, path),
            0 <= pos < path.len(),
            0 <= at < self.nodes@.len(),
            0 <= target < self.nodes@.len(),
            visited[at],
            path[pos] == self.nodes@[at]@,
            path.last() == self.nodes@[target]@,
            forall|i: int| 0 <= i < self.nodes@.len() && visited[i] ==> #[trigger] self.closed(
                visited,
                i,
            ),
        ensures
            visited[target],
        decreases path.len() - pos,
    {
        if pos == path.len() - 1 {
            assert(views(self.nodes@)[at] == views(self.nodes@)[target]);
        } else {
            assert(step_linked(links, path, pos));
            let q = choose|q: int|
                0 <= q < links.len() && ((links[q].0 == path[pos] && links[q].1 == path[pos + 1])
                    || (links[q].0 == path[pos + 1] && links[q].1 == path[pos]));
            assert(self.ends@[q] == self.ends@[q]);
            assert(self.closed(visited, at));
            let a = self.ends@[q].0 as int;
            let b = self.ends@[q].1 as int;
            if links[q].0 == path[pos] {
                assert(views(self.nodes@)[a] == views(self.nodes@)[at]);
                assert(a == at);
                self.lemma_walk(links, visited, path, pos + 1, b, target);
            } else {
                assert(views(self.nodes@)[b] == views(self.nodes@)[at]);
                assert(b == at);
                self.lemma_walk(links, visited, path, pos + 1, a, target);
            }
        }
    }
}

proof fn lemma_count_false(s: Seq<bool>)
    requires
        forall|i: int| 0 <= i < s.len() ==> !s[i],
    ensures
        count_true(s) == 0,
    decreases s.len(),
{
    if s.len() > 0 {
        lemma_count_false(s.drop_last());
    }
}

proof fn lemma_trivial_path(links: Seq<(Seq<char>, Seq<char>)>, a: Seq<char>)
    ensures
        joined(links, a, a),
{
    let path = seq![a];
    assert(is_link_path(links, path));
    assert(path[0] == a && path.last() == a);
}

/// Both ends of each link are among the link ends.
pub proof fn lemma_link_ends_contain(links: Seq<(Seq<char>, Seq<char>)>, k: int)
    requires
        0 <= k < links.len(),
    ensures
        link_ends(links).contains(links[k].0),
        link_ends(links).contains(links[k].1),
    decreases links.len(),
{
    let e = link_ends(links);
    let d = link_ends(links.drop_last());
    if k == links.len() - 1 {
        assert(e[e.len() - 2] == links[k].0);
        assert(e[e.len() - 1] == links[k].1);
    } else {
        lemma_link_ends_contain(links.drop_last(), k);
        let i = choose|i: int| 0 <= i < d.len() && d[i] == links[k].0;
        let j = choose|j: int| 0 <= j < d.len() && d[j] == links[k].1;
        assert(e[i] == d[i]);
        assert(e[j] == d[j]);
    }
}

} // verus!
