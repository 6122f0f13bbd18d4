use vstd::prelude::*;

verus! {

/// A node of the search: the node itself, the node it was reached from and
/// its estimated total cost.
#[derive(Clone, Copy, Debug, PartialEq, Eq, Structural)]
pub struct Node {
    pub n: usize,
    pub prev: Option<usize>,
    pub cost: u64,
}

impl Node {
    pub fn new(n: usize, prev: Option<usize>, cost: u64) -> (node: Node)
        ensures
            node == (Node { n, prev, cost }),
    {
        Node { n, prev, cost }
    }
}

/// Whether `a` comes before `b` in the order the search takes nodes out:
/// by cost, then by node.
pub open spec fn before(a: Node, b: Node) -> bool {
    a.cost < b.cost || (a.cost == b.cost && a.n < b.n)
}

/// A set of search nodes, at most one per node.
pub struct NodeSet {
    nodes: Vec<Node>,
}

impl View for NodeSet {
    type V = Map<usize, Node>;

    closed spec fn view(&self) -> Map<usize, Node> {
        Map::new(
            |q: usize| exists|i: int| 0 <= i < self.nodes@.len() && self.nodes@[i].n == q,
            |q: usize|
                self.nodes@[choose|i: int| 0 <= i < self.nodes@.len() && self.nodes@[i].n == q],
        )
    }
}

impl NodeSet {
    pub closed spec fn wf(&self) -> bool {
        forall|i: int, j: int|
            0 <= i < j < self.nodes@.len() ==> self.nodes@[i].n != self.nodes@[j].n
    }

    /// Every node is filed under its own key.
    pub open spec fn keyed(m: Map<usize, Node>) -> bool {
        forall|q: usize| #[trigger] m.contains_key(q) ==> m[q].n == q
    }

    proof fn lemma_view_at(&self, i: int)
        requires
            self.wf(),
            0 <= i < self.nodes@.len(),
        ensures
            self@.contains_key(self.nodes@[i].n),
            self@[self.nodes@[i].n] == self.nodes@[i],
    {
        let q = self.nodes@[i].n;
        let k = choose|k: int| 0 <= k < self.nodes@.len() && self.nodes@[k].n == q;
        assert(k == i);
    }

    proof fn lemma_keyed(&self)
        requires
            self.wf(),
        ensures
            Self::keyed(self@),
    {
        assert forall|q: usize| #[trigger] self@.contains_key(q) implies self@[q].n == q by {
            let k = choose|k: int| 0 <= k < self.nodes@.len() && self.nodes@[k].n == q;
            self.lemma_view_at(k);
        }
    }

    pub fn new() -> (s: NodeSet)
        ensures
            s.wf(),
            s@ == Map::<usize, Node>::empty(),
    {
        let s = NodeSet { nodes: Vec::new() };
        assert(s@ =~= Map::<usize, Node>::empty());
        s
    }

    /// Position of the entry for `q`, if there is one.
    fn find(&self, q: usize) -> (r: Option<usize>)
        requires
            self.wf(),
        ensures
            match r {
                Some(i) => i < self.nodes@.len() && self.nodes@[i as int].n == q,
                None => !self@.contains_key(q),
            },
    {
        let mut i: usize = 0;
        while i < self.nodes.len()
            invariant
                i <= self.nodes@.len(),
                forall|k: int| 0 <= k < i ==> self.nodes@[k].n != q,
            decreases self.nodes@.len() - i,
        {
            if self.nodes[i].n == q {
                return Some(i);
            }
            i = i + 1;
        }
        None
    }

    /// The entry for `q`.
    pub fn get(&self, q: usize) -> (r: Option<Node>)
        requires
            self.wf(),
        ensures
            r == (if self@.contains_key(q) {
                Some(self@[q])
            } else {
                None::<Node>
            }),
            Self::keyed(self@),
    {
        proof {
            self.lemma_keyed();
        }
        match self.find(q) {
            Some(i) => {
                proof {
                    self.lemma_view_at(i as int);
                }
                Some(self.nodes[i])
            },
            None => None,
        }
    }

    /// Files `node` under its node, replacing any earlier entry.
    pub fn insert(&mut self, node: Node)
        requires
            old(self).wf(),
        ensures
            final(self).wf(),
            final(self)@ == old(self)@.insert(node.n, node),
    {
        match self.find(node.n) {
            Some(i) => {
                let ghost before = self.nodes@;
                self.nodes.set(i, node);
                proof {
                    assert forall|q: usize| #[trigger] self@.contains_key(q) <==> old(
                        self,
                    )@.insert(node.n, node).contains_key(q) by {
                        if old(self)@.contains_key(q) && q != node.n {
                            let k = choose|k: int| 0 <= k < before.len() && before[k].n == q;
                            assert(self.nodes@[k].n == q);
                        }
                        if self@.contains_key(q) && q != node.n {
                            let k = choose|k: int|
                                0 <= k < self.nodes@.len() && self.nodes@[k].n == q;
                            assert(before[k].n == q);
                        }
                        if q == node.n {
                            assert(self.nodes@[i as int].n == q);
                        }
                    }
                    assert forall|q: usize| #[trigger] self@.contains_key(q) implies self@[q] == old(
                        self,
                    )@.insert(node.n, node)[q] by {
                        let k = choose|k: int| 0 <= k < self.nodes@.len() && self.nodes@[k].n == q;
                        self.lemma_view_at(k);
                        if q != node.n {
                            old(self).lemma_view_at(k);
                        }
                    }
                    assert(self@ =~= old(self)@.insert(node.n, node));
                }
            },
            None => {
                let ghost before = self.nodes@;
                self.nodes.push(node);
                proof {
                    assert forall|q: usize| #[trigger] self@.contains_key(q) <==> old(
                        self,
                    )@.insert(node.n, node).contains_key(q) by {
                        if old(self)@.contains_key(q) {
                            let k = choose|k: int| 0 <= k < before.len() && before[k].n == q;
                            assert(self.nodes@[k].n == q);
                        }
                        if q == node.n {
                            assert(self.nodes@[before.len() as int].n == q);
                        }
                    }
                    assert forall|q: usize| #[trigger] self@.contains_key(q) implies self@[q] == old(
                        self,
                    )@.insert(node.n, node)[q] by {
                        let k = choose|k: int| 0 <= k < self.nodes@.len() && self.nodes@[k].n == q;
                        self.lemma_view_at(k);
                        if q != node.n {
                            old(self).lemma_view_at(k);
                        }
                    }
                    assert(self@ =~= old(self)@.insert(node.n, node));
                }
            },
        }
    }

    /// Takes out the entry that comes first by cost, then by node.
    pub fn take_next(&mut self) -> (r: Option<Node>)
        requires
            old(self).wf(),
        ensures
            final(self).wf(),
            match r {
                None => old(self)@ == Map::<usize, Node>::empty() && final(self)@ == old(self)@,
                Some(node) => {
                    &&& old(self)@.contains_key(node.n)
                    &&& old(self)@[node.n] == node
                    &&& forall|q: usize|
                        #[trigger] old(self)@.contains_key(q) && q != node.n ==> before(
                            node,
                            old(self)@[q],
                        )
                    &&& final(self)@ == old(self)@.remove(node.n)
                },
            },
    {
        if self.nodes.len() == 0 {
            assert(self@ =~= Map::<usize, Node>::empty());
            return None;
        }
        let mut best: usize = 0;
        let mut i: usize = 1;
        while i < self.nodes.len()
            invariant
                self.wf(),
                *self == *old(self),
                best < i <= self.nodes@.len(),
                forall|k: int|
                    0 <= k < i && k != best ==> before(self.nodes@[best as int], self.nodes@[k]),
            decreases self.nodes@.len() - i,
        {
            let a = self.nodes[i];
            let b = self.nodes[best];
            if a.cost < b.cost || (a.cost == b.cost && a.n < b.n) {
                best = i;
            }
            i = i + 1;
        }
        let ghost before_nodes = self.nodes@;
        proof {
            self.lemma_view_at(best as int);
            assert forall|q: usize|
                #[trigger] old(self)@.contains_key(q) && q != self.nodes@[best as int].n
                    implies before(self.nodes@[best as int], old(self)@[q]) by {
                let k = choose|k: int| 0 <= k < self.nodes@.len() && self.nodes@[k].n == q;
                self.lemma_view_at(k);
            }
        }
        let node = self.nodes.swap_remove(best);
        proof {
            assert(self.wf()) by {
                assert forall|i: int, j: int|
                    0 <= i < j < self.nodes@.len() implies self.nodes@[i].n != self.nodes@[j].n by {
                    let ii = if i == best { before_nodes.len() - 1 } else { i };
                    let jj = if j == best { before_nodes.len() - 1 } else { j };
                    assert(self.nodes@[i] == before_nodes[ii]);
                    assert(self.nodes@[j] == before_nodes[jj]);
                }
            }
            assert forall|q: usize| #[trigger] self@.contains_key(q) <==> old(self)@.remove(
                node.n,
            ).contains_key(q) by {
                if self@.contains_key(q) {
                    let k = choose|k: int| 0 <= k < self.nodes@.len() && self.nodes@[k].n == q;
                    let kk = if k == best { before_nodes.len() - 1 } else { k };
                    assert(self.nodes@[k] == before_nodes[kk]);
                    assert(kk != best);
                }
                if old(self)@.contains_key(q) && q != node.n {
                    let k = choose|k: int| 0 <= k < before_nodes.len() && before_nodes[k].n == q;
                    if k == before_nodes.len() - 1 {
                        assert(self.nodes@[best as int].n == q);
                    } else {
                        assert(self.nodes@[k].n == q);
                    }
                }
            }
            assert forall|q: usize| #[trigger] self@.contains_key(q) implies self@[q] == old(
                self,
            )@[q] by {
                let k = choose|k: int| 0 <= k < self.nodes@.len() && self.nodes@[k].n == q;
                self.lemma_view_at(k);
                let kk = if k == best { before_nodes.len() - 1 } else { k };
                assert(self.nodes@[k] == before_nodes[kk]);
                old(self).lemma_view_at(kk);
            }
            assert(self@ =~= old(self)@.remove(node.n));
        }
        Some(node)
    }
}

/// A best-first search from `start` to `end`, driven one step at a time by
/// its caller: `next` picks the node to expand, the caller looks up that
/// node's neighbours, and `expand` takes them in.
///
/// The search keeps, as ghost state, every edge the caller has reported; a
/// path it returns follows reported edges only.
pub struct Search {
    open: NodeSet,
    closed: NodeSet,
    start: usize,
    end: usize,
    parent: Option<Node>,
    edges: Ghost<Set<(usize, usize)>>,
}

impl Search {
    pub closed spec fn start(&self) -> usize {
        self.start
    }

    pub closed spec fn end(&self) -> usize {
        self.end
    }

    /// The node being expanded, between `next` and `expand`.
    pub closed spec fn parent(&self) -> Option<Node> {
        self.parent
    }

    pub closed spec fn open(&self) -> Map<usize, Node> {
        self.open@
    }

    pub closed spec fn closed(&self) -> Map<usize, Node> {
        self.closed@
    }

    /// Every edge `(from, to)` reported so far.
    pub closed spec fn edges(&self) -> Set<(usize, usize)> {
        self.edges@
    }

    /// `x` was reached from the start along reported edges, and the node
    /// it was reached from, if any, is closed or is `pending`.
    pub open spec fn traced(&self, x: Node, pending: Option<usize>) -> bool {
        &&& x.prev is None ==> x.n == self.start()
        &&& x.prev matches Some(p) ==> {
            &&& self.edges().contains((p, x.n))
            &&& (self.closed().contains_key(p) || pending == Some(p))
        }
    }

    closed spec fn holds_with(&self, pending: Option<usize>) -> bool {
        &&& self.open.wf()
        &&& self.closed.wf()
        &&& NodeSet::keyed(self.open@)
        &&& NodeSet::keyed(self.closed@)
        &&& forall|q: usize| #[trigger]
            self.open@.contains_key(q) ==> self.traced(self.open@[q], pending)
        &&& forall|q: usize| #[trigger]
            self.closed@.contains_key(q) ==> self.traced(self.closed@[q], None)
        &&& self.parent matches Some(x) ==> self.traced(x, None)
    }

    pub closed spec fn inv(&self) -> bool {
        self.holds_with(None)
    }

    pub fn new(start: usize, end: usize) -> (s: Search)
        ensures
            s.inv(),
            s.start() == start,
            s.end() == end,
            s.parent() is None,
            s.open() == Map::<usize, Node>::empty().insert(start, Node { n: start, prev: None, cost: 0 }),
            s.closed() == Map::<usize, Node>::empty(),
            s.edges() == Set::<(usize, usize)>::empty(),
    {
        let mut open = NodeSet::new();
        open.insert(Node::new(start, None, 0));
        let s = Search {
            open,
            closed: NodeSet::new(),
            start,
            end,
            parent: None,
            edges: Ghost(Set::empty()),
        };
        proof {
            s.open.lemma_keyed();
            s.closed.lemma_keyed();
        }
        s
    }

    /// Takes the open node that comes first by cost, then by node, and
    /// returns it for expansion; `None` when no node is open, and the
    /// search has failed.
    pub fn next(&mut self) -> (r: Option<usize>)
        requires
            old(self).inv(),
        ensures
            final(self).inv(),
            final(self).start() == old(self).start(),
            final(self).end() == old(self).end(),
            final(self).edges() == old(self).edges(),
            final(self).closed() == old(self).closed(),
            match r {
                None => old(self).open() == Map::<usize, Node>::empty() && final(self).open()
                    == old(self).open(),
                Some(n) => {
                    &&& old(self).open().contains_key(n)
                    &&& final(self).parent() == Some(old(self).open()[n])
                    &&& forall|q: usize| #[trigger]
                        old(self).open().contains_key(q) && q != n ==> before(
                            old(self).open()[n],
                            old(self).open()[q],
                        )
                    &&& final(self).open() == old(self).open().remove(n)
                },
            },
    {
        match self.open.take_next() {
            None => None,
            Some(node) => {
                self.parent = Some(node);
                proof {
                    self.open.lemma_keyed();
                }
                Some(node.n)
            },
        }
    }

    /// Takes in the neighbours of the node that `next` returned, each as
    /// `(node, cost of the edge, estimated cost from it to the end)`.
    ///
    /// When one of them is the end, returns the path that reaches it: from
    /// the start, through the expanded node, to the end. Otherwise queues
    /// each neighbour unless it is queued already more cheaply, or was
    /// expanded already as cheaply, closes the expanded node and returns
    /// `None`. Costs add up saturating at `u64::MAX`.
    pub fn expand(&mut self, neighbours: &Vec<(usize, u64, u64)>) -> (r: Option<Vec<usize>>)
        requires
            old(self).inv(),
        ensures
            final(self).inv(),
            final(self).start() == old(self).start(),
            final(self).end() == old(self).end(),
            final(self).parent() is None,
            old(self).parent() is None ==> r is None && *final(self) == *old(self),
            old(self).parent() matches Some(x) ==> final(self).edges() == old(self).edges().union(
                Set::new(
                    |e: (usize, usize)|
                        e.0 == x.n && exists|i: int|
                            0 <= i < neighbours@.len() && (#[trigger] neighbours@[i]).0 == e.1,
                ),
            ),
            (forall|i: int| 0 <= i < neighbours@.len() ==> (#[trigger] neighbours@[i]).0
                != old(self).end()) ==> r is None,
            r matches Some(path) ==> {
                &&& path@.len() >= 2
                &&& path@[0] == old(self).start()
                &&& path@.last() == old(self).end()
                &&& forall|k: int|
                    0 <= k < path@.len() - 1 ==> final(self).edges().contains(
                        (#[trigger] path@[k], path@[k + 1]),
                    )
            },
    {
        let parent = match self.parent {
            Some(x) => x,
            None => {
                return None;
            },
        };
        proof {
            self.edges = Ghost(
                self.edges@.union(
                    Set::new(
                        |e: (usize, usize)|
                            e.0 == parent.n && exists|i: int|
                                0 <= i < neighbours@.len() && (#[trigger] neighbours@[i]).0 == e.1,
                    ),
                ),
            );
            assert(self.holds_with(None));
        }
        let mut j: usize = 0;
        while j < neighbours.len()
            invariant
                self.holds_with(Some(parent.n)),
                self.parent == Some(parent),
                old(self).parent == Some(parent),
                self.start == old(self).start,
                self.end == old(self).end,
                self.edges@ == old(self).edges@.union(
                    Set::new(
                        |e: (usize, usize)|
                            e.0 == parent.n && exists|i: int|
                                0 <= i < neighbours@.len() && (#[trigger] neighbours@[i]).0 == e.1,
                    ),
                ),
                j <= neighbours@.len(),
                forall|i: int| 0 <= i < j ==> (#[trigger] neighbours@[i]).0 != self.end,
            decreases neighbours@.len() - j,
        {
            let (node, cost, h) = neighbours[j];
            assert(self.edges@.contains((parent.n, node)));
            if node == self.end {
                let path = self.trace_back(parent, node);
                self.close_parent(parent);
                return path;
            }
            let g = parent.cost.saturating_add(cost);
            let f = g.saturating_add(h);
            let queued_cheaper = match self.open.get(node) {
                Some(n) => n.cost < f,
                None => false,
            };
            if !queued_cheaper {
                let reopen = match self.closed.get(node) {
                    Some(n) => n.cost > g,
                    None => true,
                };
                if reopen {
                    self.open.insert(Node::new(node, Some(parent.n), f));
                    proof {
                        self.open.lemma_keyed();
                    }
                }
            }
            j = j + 1;
        }
        self.close_parent(parent);
        None
    }

    /// Files the expanded node as closed and ends its expansion.
    fn close_parent(&mut self, parent: Node)
        requires
            old(self).holds_with(Some(parent.n)),
            old(self).parent == Some(parent),
        ensures
            final(self).inv(),
            final(self).parent is None,
            final(self).start == old(self).start,
            final(self).end == old(self).end,
            final(self).edges == old(self).edges,
    {
        self.closed.insert(parent);
        self.parent = None;
        proof {
            self.closed.lemma_keyed();
        }
    }

    /// The path to `last`, reached from `parent`: follows the closed nodes
    /// back from `parent` to the start. `None` if the links loop.
    fn trace_back(&self, parent: Node, last: usize) -> (r: Option<Vec<usize>>)
        requires
            self.holds_with(Some(parent.n)),
            self.parent == Some(parent),
            self.edges@.contains((parent.n, last)),
        ensures
            r matches Some(path) ==> {
                &&& path@.len() >= 2
                &&& path@[0] == self.start
                &&& path@.last() == last
                &&& forall|k: int|
                    0 <= k < path@.len() - 1 ==> self.edges@.contains(
                        (#[trigger] path@[k], path@[k + 1]),
                    )
            },
    {
        // Built from `last` backwards.
        let mut walk: Vec<usize> = vec![last, parent.n];
        let mut prev = parent.prev;
        let mut steps: usize = 0;
        let bound = self.closed.nodes.len();
        loop
            invariant
                self.holds_with(Some(parent.n)),
                self.parent == Some(parent),
                steps <= bound,
                walk@.len() >= 2,
                walk@[0] == last,
                forall|k: int|
                    0 <= k < walk@.len() - 1 ==> self.edges@.contains(
                        (#[trigger] walk@[k + 1], walk@[k]),
                    ),
                prev is None ==> walk@.last() == self.start,
                prev matches Some(p) ==> self.edges@.contains((p, walk@.last()))
                    && self.closed@.contains_key(p),
            decreases bound - steps,
        {
            match prev {
                None => {
                    let path = reversed(&walk);
                    proof {
                        let n = walk@.len() as int;
                        assert forall|k: int| 0 <= k < path@.len() - 1 implies self.edges@.contains(
                            (#[trigger] path@[k], path@[k + 1]),
                        ) by {
                            let m = n - 2 - k;
                            assert(path@[k] == walk@[m + 1]);
                            assert(path@[k + 1] == walk@[m]);
                        }
                    }
                    return Some(path);
                },
                Some(p) => {
                    if steps == bound {
                        return None;
                    }
                    walk.push(p);
                    prev = match self.closed.get(p) {
                        Some(n) => n.prev,
                        None => None,
                    };
                    steps = steps + 1;
                },
            }
        }
    }
}

/// `v` in reverse order.
fn reversed(v: &Vec<usize>) -> (r: Vec<usize>)
    ensures
        r@.len() == v@.len(),
        forall|k: int| 0 <= k < v@.len() ==> r@[k] == v@[v@.len() - 1 - k],
{
    let mut r: Vec<usize> = Vec::new();
    let mut i: usize = v.len();
    while i > 0
        invariant
            i <= v@.len(),
            r@.len() == v@.len() - i,
            forall|k: int| 0 <= k < r@.len() ==> r@[k] == v@[v@.len() - 1 - k],
        decreases i,
    {
        i = i - 1;
        r.push(v[i]);
    }
    r
}

} // verus!
