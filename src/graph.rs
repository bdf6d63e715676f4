//! Knowledge graph, the project tier: typed nodes and edges kept in two
//! collections keyed by identifier. A node may be named by its raw id or by
//! its table-qualified id (`nodes:<id>`); deleting a node removes every edge
//! that names it either way.
use vstd::prelude::*;
use crate::text::{concat, owned, str_eq};
use crate::order::lemma_filter_step;

verus! {

/// Kind of a node.
#[derive(Clone, Copy, Debug, PartialEq, Eq, Structural)]
pub enum NodeType {
    File,
    Function,
    Type,
    Module,
    Decision,
    Dependency,
    Test,
    Documentation,
}

/// Kind of an edge.
#[derive(Clone, Copy, Debug, PartialEq, Eq, Structural)]
pub enum EdgeType {
    Calls,
    DependsOn,
    Implements,
    Contains,
    Tests,
    Documents,
    ImplementsDecision,
    Supersedes,
}

/// A node of the graph; instants in seconds since the Unix epoch.
#[derive(Clone, Debug)]
pub struct KnowledgeNode {
    pub id: String,
    pub node_type: NodeType,
    pub name: String,
    pub content: String,
    /// Metadata, as JSON text.
    pub metadata: String,
    pub created_at: i64,
    pub updated_at: Option<i64>,
}

/// A directed edge of the graph.
#[derive(Clone, Debug)]
pub struct KnowledgeEdge {
    pub id: String,
    pub edge_type: EdgeType,
    pub from_id: String,
    pub to_id: String,
    pub metadata: Option<String>,
    pub created_at: i64,
}

/// Node and edge counts.
#[derive(Clone, Copy, Debug)]
pub struct GraphStats {
    pub node_count: usize,
    pub edge_count: usize,
}

/// Errors of the graph.
#[derive(Clone, Debug)]
pub enum GraphError {
    /// A node or edge with this identifier is already stored.
    DuplicateId(String),
}

/// Whether identifier `x` names node `n`, raw or table-qualified.
pub open spec fn names_node(x: Seq<char>, n: Seq<char>) -> bool {
    x == n || x == "nodes:"@ + n
}

/// Whether `e` touches node `n` at either end.
pub open spec fn touches(e: KnowledgeEdge, n: Seq<char>) -> bool {
    names_node(e.from_id@, n) || names_node(e.to_id@, n)
}

/// Whether `x` names node `n`.
pub fn is_name_of(x: &str, n: &str) -> (r: bool)
    ensures
        r == names_node(x@, n@),
{
    if str_eq(x, n) {
        return true;
    }
    let q = concat("nodes:", n);
    str_eq(x, q.as_str())
}

/// The knowledge graph.
pub struct KnowledgeGraph {
    nodes: Vec<KnowledgeNode>,
    edges: Vec<KnowledgeEdge>,
}

impl KnowledgeGraph {
    pub closed spec fn nodes_view(&self) -> Seq<KnowledgeNode> {
        self.nodes@
    }

    pub closed spec fn edges_view(&self) -> Seq<KnowledgeEdge> {
        self.edges@
    }

    /// Node identifiers are unique, and so are edge identifiers.
    pub open spec fn wf(&self) -> bool {
        &&& forall|i: int, j: int|
            0 <= i < self.nodes_view().len() && 0 <= j < self.nodes_view().len() && (#[trigger] self.nodes_view()[i]).id@
                == (#[trigger] self.nodes_view()[j]).id@ ==> i == j
        &&& forall|i: int, j: int|
            0 <= i < self.edges_view().len() && 0 <= j < self.edges_view().len() && (#[trigger] self.edges_view()[i]).id@
                == (#[trigger] self.edges_view()[j]).id@ ==> i == j
    }

    /// An empty graph.
    pub fn new() -> (r: Self)
        ensures
            r.wf(),
            r.nodes_view().len() == 0,
            r.edges_view().len() == 0,
    {
        KnowledgeGraph { nodes: Vec::new(), edges: Vec::new() }
    }

    /// Stores `node`. Fails with `DuplicateId` when its id is taken.
    pub fn insert_node(&mut self, node: KnowledgeNode) -> (r: Result<(), GraphError>)
        requires
            old(self).wf(),
        ensures
            final(self).wf(),
            final(self).edges_view() == old(self).edges_view(),
            (exists|i: int| 0 <= i < old(self).nodes_view().len() && (#[trigger] old(self).nodes_view()[i]).id@ == node.id@)
                <==> r is Err,
            r is Ok ==> final(self).nodes_view() == old(self).nodes_view().push(node),
            r is Err ==> final(self).nodes_view() == old(self).nodes_view(),
    {
        let mut i: usize = 0;
        while i < self.nodes.len()
            invariant
                *self == *old(self),
                self.wf(),
                i <= self.nodes@.len(),
                forall|k: int| 0 <= k < i ==> (#[trigger] self.nodes@[k]).id@ != node.id@,
            decreases self.nodes@.len() - i,
        {
            if str_eq(self.nodes[i].id.as_str(), node.id.as_str()) {
                return Err(GraphError::DuplicateId(node.id));
            }
            i = i + 1;
        }
        let ghost before = self.nodes@;
        self.nodes.push(node);
        proof {
            let v = self.nodes@;
            let n = v.len() - 1;
            assert forall|a: int, b: int|
                0 <= a < v.len() && 0 <= b < v.len() && (#[trigger] v[a]).id@ == (#[trigger] v[b]).id@ implies a == b by {
                if a < n && b < n {
                    assert(v[a] == before[a] && v[b] == before[b]);
                }
            }
        }
        Ok(())
    }

    /// Stores `edge`. Fails with `DuplicateId` when its id is taken.
    pub fn insert_edge(&mut self, edge: KnowledgeEdge) -> (r: Result<(), GraphError>)
        requires
            old(self).wf(),
        ensures
            final(self).wf(),
            final(self).nodes_view() == old(self).nodes_view(),
            (exists|i: int| 0 <= i < old(self).edges_view().len() && (#[trigger] old(self).edges_view()[i]).id@ == edge.id@)
                <==> r is Err,
            r is Ok ==> final(self).edges_view() == old(self).edges_view().push(edge),
            r is Err ==> final(self).edges_view() == old(self).edges_view(),
    {
        let mut i: usize = 0;
        while i < self.edges.len()
            invariant
                *self == *old(self),
                self.wf(),
                i <= self.edges@.len(),
                forall|k: int| 0 <= k < i ==> (#[trigger] self.edges@[k]).id@ != edge.id@,
            decreases self.edges@.len() - i,
        {
            if str_eq(self.edges[i].id.as_str(), edge.id.as_str()) {
                return Err(GraphError::DuplicateId(edge.id));
            }
            i = i + 1;
        }
        let ghost before = self.edges@;
        self.edges.push(edge);
        proof {
            let v = self.edges@;
            let n = v.len() - 1;
            assert forall|a: int, b: int|
                0 <= a < v.len() && 0 <= b < v.len() && (#[trigger] v[a]).id@ == (#[trigger] v[b]).id@ implies a == b by {
                if a < n && b < n {
                    assert(v[a] == before[a] && v[b] == before[b]);
                }
            }
        }
        Ok(())
    }

    /// The first node named `id`, raw or table-qualified.
    pub fn get_node(&self, id: &str) -> (r: Option<&KnowledgeNode>)
        ensures
            match r {
                Some(n) => exists|i: int| 0 <= i < self.nodes_view().len() && #[trigger] self.nodes_view()[i] == *n
                    && names_node(n.id@, id@),
                None => forall|i: int| 0 <= i < self.nodes_view().len() ==> !names_node(#[trigger] self.nodes_view()[i].id@, id@),
            },
    {
        let mut i: usize = 0;
        while i < self.nodes.len()
            invariant
                i <= self.nodes@.len(),
                forall|k: int| 0 <= k < i ==> !names_node(#[trigger] self.nodes@[k].id@, id@),
            decreases self.nodes@.len() - i,
        {
            if is_name_of(self.nodes[i].id.as_str(), id) {
                assert(self.nodes_view()[i as int] == self.nodes@[i as int]);
                return Some(&self.nodes[i]);
            }
            i = i + 1;
        }
        None
    }

    /// The nodes of kind `node_type`, in storage order.
    pub fn get_nodes_by_type(&self, node_type: NodeType) -> (r: Vec<KnowledgeNode>)
        ensures
            r@ == self.nodes_view().filter(|n: KnowledgeNode| n.node_type == node_type),
    {
        let mut out: Vec<KnowledgeNode> = Vec::new();
        let mut i: usize = 0;
        while i < self.nodes.len()
            invariant
                i <= self.nodes@.len(),
                out@ == self.nodes@.subrange(0, i as int).filter(|n: KnowledgeNode| n.node_type == node_type),
            decreases self.nodes@.len() - i,
        {
            proof {
                lemma_filter_step(self.nodes@, i as int, |n: KnowledgeNode| n.node_type == node_type);
            }
            if self.nodes[i].node_type == node_type {
                out.push(clone_node(&self.nodes[i]));
            }
            i = i + 1;
        }
        proof {
            assert(self.nodes@.subrange(0, i as int) =~= self.nodes@);
        }
        out
    }

    /// The edges of kind `edge_type`, in storage order.
    pub fn get_edges_by_type(&self, edge_type: EdgeType) -> (r: Vec<KnowledgeEdge>)
        ensures
            r@ == self.edges_view().filter(|e: KnowledgeEdge| e.edge_type == edge_type),
    {
        let mut out: Vec<KnowledgeEdge> = Vec::new();
        let mut i: usize = 0;
        while i < self.edges.len()
            invariant
                i <= self.edges@.len(),
                out@ == self.edges@.subrange(0, i as int).filter(|e: KnowledgeEdge| e.edge_type == edge_type),
            decreases self.edges@.len() - i,
        {
            proof {
                lemma_filter_step(self.edges@, i as int, |e: KnowledgeEdge| e.edge_type == edge_type);
            }
            if self.edges[i].edge_type == edge_type {
                out.push(clone_edge(&self.edges[i]));
            }
            i = i + 1;
        }
        proof {
            assert(self.edges@.subrange(0, i as int) =~= self.edges@);
        }
        out
    }

    /// Removes node `id` (raw or table-qualified) and every edge that names
    /// it at either end, in one step; everything else stays, in order.
    pub fn delete_node(&mut self, id: &str)
        requires
            old(self).wf(),
        ensures
            final(self).wf(),
            final(self).nodes_view() == old(self).nodes_view().filter(|n: KnowledgeNode| !names_node(n.id@, id@)),
            final(self).edges_view() == old(self).edges_view().filter(|e: KnowledgeEdge| !touches(e, id@)),
            forall|i: int| 0 <= i < final(self).edges_view().len() ==> !touches(#[trigger] final(self).edges_view()[i], id@),
            forall|i: int| 0 <= i < final(self).nodes_view().len() ==> !names_node(#[trigger] final(self).nodes_view()[i].id@, id@),
    {
        let mut nodes: Vec<KnowledgeNode> = Vec::new();
        let mut i: usize = 0;
        while i < self.nodes.len()
            invariant
                i <= self.nodes@.len(),
                nodes@ == self.nodes@.subrange(0, i as int).filter(|n: KnowledgeNode| !names_node(n.id@, id@)),
            decreases self.nodes@.len() - i,
        {
            proof {
                lemma_filter_step(self.nodes@, i as int, |n: KnowledgeNode| !names_node(n.id@, id@));
            }
            if !is_name_of(self.nodes[i].id.as_str(), id) {
                nodes.push(clone_node(&self.nodes[i]));
            }
            i = i + 1;
        }
        let mut edges: Vec<KnowledgeEdge> = Vec::new();
        let mut j: usize = 0;
        while j < self.edges.len()
            invariant
                j <= self.edges@.len(),
                edges@ == self.edges@.subrange(0, j as int).filter(|e: KnowledgeEdge| !touches(e, id@)),
            decreases self.edges@.len() - j,
        {
            proof {
                lemma_filter_step(self.edges@, j as int, |e: KnowledgeEdge| !touches(e, id@));
            }
            let e = &self.edges[j];
            if !is_name_of(e.from_id.as_str(), id) && !is_name_of(e.to_id.as_str(), id) {
                edges.push(clone_edge(e));
            }
            j = j + 1;
        }
        proof {
            assert(self.nodes@.subrange(0, i as int) =~= self.nodes@);
            assert(self.edges@.subrange(0, j as int) =~= self.edges@);
            let on = self.nodes@;
            let oe = self.edges@;
            let keep_n = |n: KnowledgeNode| !names_node(n.id@, id@);
            let keep_e = |e: KnowledgeEdge| !touches(e, id@);
            broadcast use vstd::seq_lib::group_filter_ensures;
            lemma_filter_unique_nodes(on, keep_n);
            lemma_filter_unique_edges(oe, keep_e);
        }
        self.nodes = nodes;
        self.edges = edges;
    }

    /// Node and edge counts.
    pub fn stats(&self) -> (r: GraphStats)
        ensures
            r.node_count == self.nodes_view().len(),
            r.edge_count == self.edges_view().len(),
    {
        GraphStats { node_count: self.nodes.len(), edge_count: self.edges.len() }
    }

    /// The nodes alive at instant `t`: created at or before it and updated
    /// at or after it (or never updated), in storage order.
    pub fn temporal_search(&self, t: i64) -> (r: Vec<KnowledgeNode>)
        ensures
            r@ == self.nodes_view().filter(|n: KnowledgeNode| alive_at(n, t)),
    {
        let mut out: Vec<KnowledgeNode> = Vec::new();
        let mut i: usize = 0;
        while i < self.nodes.len()
            invariant
                i <= self.nodes@.len(),
                out@ == self.nodes@.subrange(0, i as int).filter(|n: KnowledgeNode| alive_at(n, t)),
            decreases self.nodes@.len() - i,
        {
            proof {
                lemma_filter_step(self.nodes@, i as int, |n: KnowledgeNode| alive_at(n, t));
            }
            let n = &self.nodes[i];
            let alive = n.created_at <= t && match n.updated_at {
                Some(u) => u >= t,
                None => true,
            };
            if alive {
                out.push(clone_node(n));
            }
            i = i + 1;
        }
        proof {
            assert(self.nodes@.subrange(0, i as int) =~= self.nodes@);
        }
        out
    }
}

/// A node reached by a structural search and the path that reached it,
/// from the start node to the node.
#[derive(Clone, Debug)]
pub struct PathHit {
    pub node: KnowledgeNode,
    pub path: Vec<String>,
}

/// Whether `t` is among `types`.
pub open spec fn allowed(types: Seq<EdgeType>, t: EdgeType) -> bool {
    types.contains(t)
}

/// Whether the graph has an edge of an allowed type from node `a` to `b`.
pub open spec fn has_step(edges: Seq<KnowledgeEdge>, types: Seq<EdgeType>, a: Seq<char>, b: Seq<char>) -> bool {
    exists|i: int| 0 <= i < edges.len() && allowed(types, (#[trigger] edges[i]).edge_type) && names_node(edges[i].from_id@, a)
        && edges[i].to_id@ == b
}

/// Whether `p` starts at `start` and follows allowed edges.
pub open spec fn is_walk(edges: Seq<KnowledgeEdge>, types: Seq<EdgeType>, start: Seq<char>, p: Seq<Seq<char>>) -> bool {
    &&& p.len() >= 1
    &&& p[0] == start
    &&& forall|k: int| 0 <= k < p.len() - 1 ==> #[trigger] has_step(edges, types, p[k], p[k + 1])
}

fn type_allowed(types: &Vec<EdgeType>, t: EdgeType) -> (r: bool)
    ensures
        r == allowed(types@, t),
{
    let mut i: usize = 0;
    while i < types.len()
        invariant
            i <= types@.len(),
            forall|k: int| 0 <= k < i ==> types@[k] != t,
        decreases types@.len() - i,
    {
        if types[i] == t {
            assert(types@[i as int] == t);
            return true;
        }
        i = i + 1;
    }
    false
}

fn contains_str(v: &Vec<String>, x: &str) -> (r: bool)
    ensures
        r == exists|i: int| 0 <= i < v@.len() && (#[trigger] v@[i])@ == x@,
{
    let mut i: usize = 0;
    while i < v.len()
        invariant
            i <= v@.len(),
            forall|k: int| 0 <= k < i ==> (#[trigger] v@[k])@ != x@,
        decreases v@.len() - i,
    {
        if str_eq(v[i].as_str(), x) {
            return true;
        }
        i = i + 1;
    }
    false
}

fn clone_strings(v: &Vec<String>) -> (r: Vec<String>)
    ensures
        r@ == v@,
{
    let mut out: Vec<String> = Vec::new();
    let mut i: usize = 0;
    while i < v.len()
        invariant
            i <= v@.len(),
            out@ == v@.subrange(0, i as int),
        decreases v@.len() - i,
    {
        out.push(v[i].clone());
        proof {
            assert(v@.subrange(0, i as int + 1) =~= v@.subrange(0, i as int).push(v@[i as int]));
        }
        i = i + 1;
    }
    proof {
        assert(v@.subrange(0, i as int) =~= v@);
    }
    out
}

pub open spec fn strings_view(v: Seq<String>) -> Seq<Seq<char>> {
    v.map_values(|s: String| s@)
}

impl KnowledgeGraph {
    /// The nodes reached from `start` by following edges of the given types,
    /// breadth first, at most `max_depth` edges away; each identifier is
    /// visited once. Every hit carries a path of allowed edges from `start`
    /// to a stored node named by its last element.
    pub fn structural_search(&self, start: &str, edge_types: &Vec<EdgeType>, max_depth: usize) -> (r: Vec<PathHit>)
        ensures
            forall|i: int| 0 <= i < r@.len() ==> {
                let h = #[trigger] r@[i];
                &&& is_walk(self.edges_view(), edge_types@, start@, strings_view(h.path@))
                &&& 2 <= h.path@.len() <= max_depth + 1
                &&& names_node(h.node.id@, h.path@.last()@)
                &&& exists|k: int| 0 <= k < self.nodes_view().len() && self.nodes_view()[k] == h.node
            },
    {
        let mut hits: Vec<PathHit> = Vec::new();
        let mut visited: Vec<String> = Vec::new();
        visited.push(owned(start));
        let mut frontier: Vec<Vec<String>> = Vec::new();
        let mut first: Vec<String> = Vec::new();
        first.push(owned(start));
        frontier.push(first);
        proof {
            let p = strings_view(frontier@[0]@);
            assert(p.len() == 1 && p[0] == start@);
        }
        let mut depth: usize = 0;
        while depth < max_depth && frontier.len() > 0
            invariant
                depth <= max_depth,
                forall|f: int| 0 <= f < frontier@.len() ==> {
                    let p = #[trigger] frontier@[f]@;
                    is_walk(self.edges_view(), edge_types@, start@, strings_view(p)) && p.len() == depth + 1
                },
                forall|i: int| 0 <= i < hits@.len() ==> {
                    let h = #[trigger] hits@[i];
                    &&& is_walk(self.edges_view(), edge_types@, start@, strings_view(h.path@))
                    &&& 2 <= h.path@.len() <= max_depth + 1
                    &&& names_node(h.node.id@, h.path@.last()@)
                    &&& exists|k: int| 0 <= k < self.nodes_view().len() && self.nodes_view()[k] == h.node
                },
            decreases max_depth - depth,
        {
            let mut next: Vec<Vec<String>> = Vec::new();
            let mut f: usize = 0;
            while f < frontier.len()
                invariant
                    depth < max_depth,
                    forall|g: int| 0 <= g < frontier@.len() ==> {
                        let p = #[trigger] frontier@[g]@;
                        is_walk(self.edges_view(), edge_types@, start@, strings_view(p)) && p.len() == depth + 1
                    },
                    forall|g: int| 0 <= g < next@.len() ==> {
                        let p = #[trigger] next@[g]@;
                        is_walk(self.edges_view(), edge_types@, start@, strings_view(p)) && p.len() == depth + 2
                    },
                    forall|i: int| 0 <= i < hits@.len() ==> {
                        let h = #[trigger] hits@[i];
                        &&& is_walk(self.edges_view(), edge_types@, start@, strings_view(h.path@))
                        &&& 2 <= h.path@.len() <= max_depth + 1
                        &&& names_node(h.node.id@, h.path@.last()@)
                        &&& exists|k: int| 0 <= k < self.nodes_view().len() && self.nodes_view()[k] == h.node
                    },
                decreases frontier@.len() - f,
            {
                let path = &frontier[f];
                let ghost pv = strings_view(path@);
                assert(is_walk(self.edges_view(), edge_types@, start@, pv) && path@.len() == depth + 1);
                let last = path[path.len() - 1].as_str();
                let mut e: usize = 0;
                while e < self.edges.len()
                    invariant
                        depth < max_depth,
                        path@.len() == depth + 1,
                        pv == strings_view(path@),
                        is_walk(self.edges_view(), edge_types@, start@, pv),
                        last@ == pv[pv.len() - 1],
                        forall|g: int| 0 <= g < next@.len() ==> {
                            let p = #[trigger] next@[g]@;
                            is_walk(self.edges_view(), edge_types@, start@, strings_view(p)) && p.len() == depth + 2
                        },
                        forall|i: int| 0 <= i < hits@.len() ==> {
                            let h = #[trigger] hits@[i];
                            &&& is_walk(self.edges_view(), edge_types@, start@, strings_view(h.path@))
                            &&& 2 <= h.path@.len() <= max_depth + 1
                            &&& names_node(h.node.id@, h.path@.last()@)
                            &&& exists|k: int| 0 <= k < self.nodes_view().len() && self.nodes_view()[k] == h.node
                        },
                    decreases self.edges@.len() - e,
                {
                    let edge = &self.edges[e];
                    if type_allowed(edge_types, edge.edge_type) && is_name_of(edge.from_id.as_str(), last)
                        && !contains_str(&visited, edge.to_id.as_str()) {
                        visited.push(edge.to_id.clone());
                        let mut np = clone_strings(path);
                        np.push(edge.to_id.clone());
                        proof {
                            let q = strings_view(np@);
                            assert(q =~= pv.push(edge.to_id@));
                            assert(has_step(self.edges_view(), edge_types@, pv[pv.len() - 1], edge.to_id@)) by {
                                assert(self.edges_view()[e as int] == *edge);
                            }
                            assert forall|k: int| 0 <= k < q.len() - 1 implies #[trigger] has_step(self.edges_view(), edge_types@, q[k], q[k + 1]) by {
                                if k < pv.len() - 1 {
                                    assert(q[k] == pv[k] && q[k + 1] == pv[k + 1]);
                                } else {
                                    assert(q[k] == pv[pv.len() - 1] && q[k + 1] == edge.to_id@);
                                }
                            }
                            assert(q[0] == pv[0]);
                        }
                        match self.get_node(edge.to_id.as_str()) {
                            Some(n) => {
                                let hit = PathHit { node: clone_node(n), path: clone_strings(&np) };
                                proof {
                                    let q = strings_view(np@);
                                    assert(hit.path@.last()@ == q[q.len() - 1]);
                                }
                                hits.push(hit);
                                proof {
                                    assert forall|i: int| 0 <= i < hits@.len() implies {
                                        let h = #[trigger] hits@[i];
                                        &&& is_walk(self.edges_view(), edge_types@, start@, strings_view(h.path@))
                                        &&& 2 <= h.path@.len() <= max_depth + 1
                                        &&& names_node(h.node.id@, h.path@.last()@)
                                        &&& exists|k: int| 0 <= k < self.nodes_view().len() && self.nodes_view()[k] == h.node
                                    } by {
                                        if i == hits@.len() - 1 {
                                            assert(strings_view(hits@[i].path@) =~= strings_view(np@));
                                        }
                                    }
                                }
                            },
                            None => {},
                        }
                        next.push(np);
                    }
                    e = e + 1;
                }
                f = f + 1;
            }
            frontier = next;
            depth = depth + 1;
        }
        hits
    }
}

/// Whether node kind `t` passes the optional kind filter `types`.
pub open spec fn kind_passes(types: Option<Seq<NodeType>>, t: NodeType) -> bool {
    match types {
        Some(ts) => ts.contains(t),
        None => true,
    }
}

/// A node and its similarity to a query, in millionths.
#[derive(Clone, Debug)]
pub struct ScoredNode {
    pub node: KnowledgeNode,
    pub similarity: i64,
}

/// Whether the `j`-th of `nodes` takes part in a search filtered by `kinds`.
pub open spec fn eligible(nodes: Seq<KnowledgeNode>, kinds: Option<Seq<NodeType>>, j: int) -> bool {
    0 <= j < nodes.len() && kind_passes(kinds, nodes[j].node_type)
}

/// The optional kind filter as a sequence.
pub open spec fn kinds_of(node_types: Option<Vec<NodeType>>) -> Option<Seq<NodeType>> {
    match node_types {
        Some(v) => Some(v@),
        None => None,
    }
}

fn kind_allowed(node_types: &Option<Vec<NodeType>>, t: NodeType) -> (r: bool)
    ensures
        r == kind_passes(kinds_of(*node_types), t),
{
    match node_types {
        Some(ts) => {
            assert(kinds_of(*node_types) == Some(ts@));
            let mut i: usize = 0;
            while i < ts.len()
                invariant
                    kinds_of(*node_types) == Some(ts@),
                    i <= ts@.len(),
                    forall|x: int| 0 <= x < i ==> ts@[x] != t,
                decreases ts@.len() - i,
            {
                if ts[i] == t {
                    assert(ts@[i as int] == t);
                    assert(ts@.contains(t));
                    return true;
                }
                i = i + 1;
            }
            false
        },
        None => true,
    }
}

/// Whether the first `k` positions of `order` over `cand` are a best `k`
/// of the candidates: every candidate left out is no more similar than the
/// last one taken.
proof fn lemma_left_out_no_better(
    nodes: Seq<KnowledgeNode>,
    sims: Seq<i64>,
    cand: Seq<usize>,
    keys: Seq<i64>,
    order: Seq<usize>,
    out: Seq<ScoredNode>,
    k: int,
    top_k: int,
    j: int,
)
    requires
        order.len() == keys.len(),
        cand.len() == keys.len(),
        crate::order::strictly_ordered(keys, order),
        forall|q: int| 0 <= q < cand.len() ==> (#[trigger] cand[q]) < nodes.len() && keys[q] == -sims[cand[q] as int],
        forall|p: int| 0 <= p < keys.len() ==> #[trigger] crate::order::lists(order, p),
        0 <= k <= order.len(),
        out.len() == k,
        k == order.len() || k == top_k,
        forall|t: int| 0 <= t < k ==> (#[trigger] out[t]).node == nodes[cand[order[t] as int] as int] && out[t].similarity
            == sims[cand[order[t] as int] as int],
        exists|q: int| 0 <= q < cand.len() && cand[q] == j,
    ensures
        (exists|t: int| 0 <= t < out.len() && out[t].node == nodes[j]) || (out.len() == top_k && (out.len() == 0
            || sims[j] <= out[out.len() - 1].similarity)),
{
    let q = choose|q: int| 0 <= q < cand.len() && cand[q] == j;
    assert(crate::order::lists(order, q));
    let t = choose|t: int| 0 <= t < order.len() && order[t] == q;
    if t < k {
        assert(out[t].node == nodes[j]);
    } else if k > 0 {
        assert(crate::order::before(keys, order[k - 1], order[t]));
    }
}

impl KnowledgeGraph {
    fn candidates(&self, similarities: &Vec<i64>, node_types: &Option<Vec<NodeType>>) -> (r: (Vec<usize>, Vec<i64>))
        requires
            similarities@.len() == self.nodes_view().len(),
            forall|i: int| 0 <= i < similarities@.len() ==> (#[trigger] similarities@[i]) > i64::MIN,
        ensures
            r.0@.len() == r.1@.len(),
            forall|q: int| 0 <= q < r.0@.len() ==> (#[trigger] r.0@[q]) < self.nodes_view().len() && r.1@[q]
                == -similarities@[r.0@[q] as int] && kind_passes(kinds_of(*node_types), self.nodes_view()[r.0@[q] as int].node_type),
            forall|j: int| #[trigger] eligible(self.nodes_view(), kinds_of(*node_types), j) ==> exists|q: int| 0 <= q < r.0@.len()
                && r.0@[q] == j,
    {
        let mut cand: Vec<usize> = Vec::new();
        let mut keys: Vec<i64> = Vec::new();
        let mut i: usize = 0;
        while i < self.nodes.len()
            invariant
                i <= self.nodes@.len(),
                similarities@.len() == self.nodes@.len(),
                forall|k: int| 0 <= k < similarities@.len() ==> (#[trigger] similarities@[k]) > i64::MIN,
                cand@.len() == keys@.len(),
                forall|q: int| 0 <= q < cand@.len() ==> (#[trigger] cand@[q]) < i && keys@[q] == -similarities@[cand@[q] as int]
                    && kind_passes(kinds_of(*node_types), self.nodes@[cand@[q] as int].node_type),
                forall|j: int| 0 <= j < i && kind_passes(kinds_of(*node_types), (#[trigger] self.nodes@[j]).node_type) ==> exists|q: int|
                    0 <= q < cand@.len() && cand@[q] == j,
            decreases self.nodes@.len() - i,
        {
            let ghost cand0 = cand@;
            if kind_allowed(node_types, self.nodes[i].node_type) {
                cand.push(i);
                keys.push(-similarities[i]);
            }
            proof {
                assert forall|j: int| 0 <= j < i + 1 && kind_passes(kinds_of(*node_types), (#[trigger] self.nodes@[j]).node_type) implies exists|q: int|
                    0 <= q < cand@.len() && cand@[q] == j by {
                    if j < i {
                        let q = choose|q: int| 0 <= q < cand0.len() && cand0[q] == j;
                        assert(cand@[q] == j);
                    } else {
                        assert(cand@[cand@.len() - 1] == j);
                    }
                }
            }
            i = i + 1;
        }
        proof {
            assert forall|j: int| #[trigger] eligible(self.nodes_view(), kinds_of(*node_types), j) implies exists|q: int| 0 <= q
                < cand@.len() && cand@[q] == j by {
                assert(self.nodes_view()[j] == self.nodes@[j]);
            }
        }
        (cand, keys)
    }

    /// The `top_k` nodes most similar to a query, most similar first, equal
    /// similarities in storage order; `similarities[i]` is the similarity of
    /// the `i`-th stored node (as computed from the embeddings), and only
    /// nodes of the kinds in `node_types`, when given, take part. A node of
    /// those kinds left out is no more similar than the last one returned.
    pub fn semantic_search(&self, similarities: &Vec<i64>, top_k: usize, node_types: &Option<Vec<NodeType>>) -> (r: Vec<ScoredNode>)
        requires
            similarities@.len() == self.nodes_view().len(),
            forall|i: int| 0 <= i < similarities@.len() ==> (#[trigger] similarities@[i]) > i64::MIN,
        ensures
            r@.len() <= top_k,
            forall|i: int| 0 <= i < r@.len() ==> exists|j: int| 0 <= j < self.nodes_view().len() && #[trigger] r@[i].node
                == self.nodes_view()[j] && r@[i].similarity == similarities@[j] && kind_passes(
                kinds_of(*node_types),
                self.nodes_view()[j].node_type,
            ),
            forall|i: int, j: int| 0 <= i < j < r@.len() ==> (#[trigger] r@[i]).similarity >= (#[trigger] r@[j]).similarity,
            forall|j: int| #[trigger] eligible(self.nodes_view(), kinds_of(*node_types), j) ==> (exists|t: int| 0 <= t < r@.len()
                && r@[t].node == self.nodes_view()[j]) || (r@.len() == top_k && (r@.len() == 0 || similarities@[j] <= r@[r@.len()
                - 1].similarity)),
    {
        let (cand, keys) = self.candidates(similarities, node_types);
        let order = crate::order::stable_order(&keys);
        let mut out: Vec<ScoredNode> = Vec::new();
        let mut k: usize = 0;
        while k < order.len() && k < top_k
            invariant
                order@.len() == keys@.len(),
                cand@.len() == keys@.len(),
                crate::order::strictly_ordered(keys@, order@),
                similarities@.len() == self.nodes@.len(),
                forall|q: int| 0 <= q < cand@.len() ==> (#[trigger] cand@[q]) < self.nodes@.len(),
                k <= order@.len(),
                k <= top_k,
                out@.len() == k,
                forall|t: int| 0 <= t < k ==> (#[trigger] out@[t]).node == self.nodes@[cand@[order@[t] as int] as int]
                    && out@[t].similarity == similarities@[cand@[order@[t] as int] as int],
            decreases order@.len() - k,
        {
            let c = cand[order[k]];
            out.push(ScoredNode { node: clone_node(&self.nodes[c]), similarity: similarities[c] });
            k = k + 1;
        }
        proof {
            assert forall|j: int| #[trigger] eligible(self.nodes_view(), kinds_of(*node_types), j) implies exists|q: int| 0 <= q
                < cand@.len() && cand@[q] == j by {
                assert(eligible(self.nodes_view(), kinds_of(*node_types), j));
            }
            assert forall|a: int| 0 <= a < out@.len() implies exists|j: int| 0 <= j < self.nodes_view().len() && #[trigger] out@[a].node
                == self.nodes_view()[j] && out@[a].similarity == similarities@[j] && kind_passes(kinds_of(*node_types), self.nodes_view()[j].node_type) by {
                let j = cand@[order@[a] as int] as int;
                assert(self.nodes_view()[j] == self.nodes@[j]);
            }
            assert forall|a: int, b: int| 0 <= a < b < out@.len() implies (#[trigger] out@[a]).similarity >= (#[trigger] out@[b]).similarity by {
                assert(crate::order::before(keys@, order@[a], order@[b]));
            }
            assert forall|j: int| #[trigger] eligible(self.nodes_view(), kinds_of(*node_types), j) implies (exists|t: int| 0 <= t
                < out@.len() && out@[t].node == self.nodes_view()[j]) || (out@.len() == top_k && (out@.len() == 0
                || similarities@[j] <= out@[out@.len() - 1].similarity)) by {
                lemma_left_out_no_better(self.nodes@, similarities@, cand@, keys@, order@, out@, k as int, top_k as int, j);
            }
        }
        out
    }
}

/// The Documentation node that records a lesson drawn from thread
/// `thread_id`: named "Lesson: " and the thread, with `content` and
/// `metadata` as JSON text.
pub fn lesson_node(id: String, thread_id: &str, content: String, metadata: String, now: i64) -> (r: KnowledgeNode)
    ensures
        r.id == id,
        r.node_type == NodeType::Documentation,
        r.name@ == "Lesson: "@ + thread_id@,
        r.content == content,
        r.metadata == metadata,
        r.created_at == now,
        r.updated_at == Some(now),
{
    KnowledgeNode {
        id,
        node_type: NodeType::Documentation,
        name: concat("Lesson: ", thread_id),
        content,
        metadata,
        created_at: now,
        updated_at: Some(now),
    }
}

/// The edge that links lesson node `node_id` to its source thread.
pub fn lesson_edge(id: String, node_id: &str, thread_id: &str, now: i64) -> (r: KnowledgeEdge)
    ensures
        r.id == id,
        r.edge_type == EdgeType::Documents,
        r.from_id@ == node_id@,
        r.to_id@ == thread_id@,
        r.metadata is None,
        r.created_at == now,
{
    KnowledgeEdge {
        id,
        edge_type: EdgeType::Documents,
        from_id: owned(node_id),
        to_id: owned(thread_id),
        metadata: None,
        created_at: now,
    }
}

/// Whether node `n` is alive at instant `t`.
pub open spec fn alive_at(n: KnowledgeNode, t: i64) -> bool {
    n.created_at <= t && match n.updated_at {
        Some(u) => u >= t,
        None => true,
    }
}

proof fn lemma_filter_in<A>(s: Seq<A>, f: spec_fn(A) -> bool)
    ensures
        forall|k: int| 0 <= k < s.filter(f).len() ==> exists|m: int| 0 <= m < s.len() && s[m] == #[trigger] s.filter(f)[k],
    decreases s.len(),
{
    reveal(Seq::filter);
    if s.len() > 0 {
        let d = s.drop_last();
        lemma_filter_in(d, f);
        let fd = d.filter(f);
        assert forall|k: int| 0 <= k < s.filter(f).len() implies exists|m: int| 0 <= m < s.len() && s[m] == #[trigger] s.filter(f)[k] by {
            if k < fd.len() {
                let m = choose|m: int| 0 <= m < d.len() && d[m] == #[trigger] fd[k];
                assert(s[m] == d[m]);
                assert(s.filter(f)[k] == fd[k]);
            } else {
                assert(s.filter(f)[k] == s.last());
                assert(s[s.len() - 1] == s.last());
            }
        }
    }
}

proof fn lemma_filter_unique_nodes(s: Seq<KnowledgeNode>, f: spec_fn(KnowledgeNode) -> bool)
    requires
        forall|i: int, j: int| 0 <= i < s.len() && 0 <= j < s.len() && (#[trigger] s[i]).id@ == (#[trigger] s[j]).id@ ==> i == j,
    ensures
        forall|i: int, j: int|
            0 <= i < s.filter(f).len() && 0 <= j < s.filter(f).len() && (#[trigger] s.filter(f)[i]).id@ == (
            #[trigger] s.filter(f)[j]).id@ ==> i == j,
    decreases s.len(),
{
    reveal(Seq::filter);
    if s.len() > 0 {
        let d = s.drop_last();
        assert forall|i: int, j: int| 0 <= i < d.len() && 0 <= j < d.len() && (#[trigger] d[i]).id@ == (#[trigger] d[j]).id@ implies i == j by {
            assert(d[i] == s[i] && d[j] == s[j]);
        }
        lemma_filter_unique_nodes(d, f);
        let fd = d.filter(f);
        lemma_filter_in(d, f);
        if f(s.last()) {
            assert(s.filter(f) == fd.push(s.last()));
            assert forall|k: int| 0 <= k < fd.len() implies (#[trigger] fd[k]).id@ != s.last().id@ by {
                let m = choose|m: int| 0 <= m < d.len() && d[m] == #[trigger] fd[k];
                assert(s[m] == d[m]);
                assert(s[s.len() - 1] == s.last());
            }
        } else {
            assert(s.filter(f) == fd);
        }
    }
}

proof fn lemma_filter_unique_edges(s: Seq<KnowledgeEdge>, f: spec_fn(KnowledgeEdge) -> bool)
    requires
        forall|i: int, j: int| 0 <= i < s.len() && 0 <= j < s.len() && (#[trigger] s[i]).id@ == (#[trigger] s[j]).id@ ==> i == j,
    ensures
        forall|i: int, j: int|
            0 <= i < s.filter(f).len() && 0 <= j < s.filter(f).len() && (#[trigger] s.filter(f)[i]).id@ == (
            #[trigger] s.filter(f)[j]).id@ ==> i == j,
    decreases s.len(),
{
    reveal(Seq::filter);
    if s.len() > 0 {
        let d = s.drop_last();
        assert forall|i: int, j: int| 0 <= i < d.len() && 0 <= j < d.len() && (#[trigger] d[i]).id@ == (#[trigger] d[j]).id@ implies i == j by {
            assert(d[i] == s[i] && d[j] == s[j]);
        }
        lemma_filter_unique_edges(d, f);
        let fd = d.filter(f);
        lemma_filter_in(d, f);
        if f(s.last()) {
            assert(s.filter(f) == fd.push(s.last()));
            assert forall|k: int| 0 <= k < fd.len() implies (#[trigger] fd[k]).id@ != s.last().id@ by {
                let m = choose|m: int| 0 <= m < d.len() && d[m] == #[trigger] fd[k];
                assert(s[m] == d[m]);
                assert(s[s.len() - 1] == s.last());
            }
        } else {
            assert(s.filter(f) == fd);
        }
    }
}

/// A copy of a node with the same fields.
pub fn clone_node(n: &KnowledgeNode) -> (r: KnowledgeNode)
    ensures
        r == *n,
{
    KnowledgeNode {
        id: n.id.clone(),
        node_type: n.node_type,
        name: n.name.clone(),
        content: n.content.clone(),
        metadata: n.metadata.clone(),
        created_at: n.created_at,
        updated_at: n.updated_at,
    }
}

/// A copy of an edge with the same fields.
pub fn clone_edge(e: &KnowledgeEdge) -> (r: KnowledgeEdge)
    ensures
        r == *e,
{
    KnowledgeEdge {
        id: e.id.clone(),
        edge_type: e.edge_type,
        from_id: e.from_id.clone(),
        to_id: e.to_id.clone(),
        metadata: match &e.metadata {
            Some(m) => Some(m.clone()),
            None => None,
        },
        created_at: e.created_at,
    }
}

/// Deleting node `n` leaves no edge whose source or target is `n` or
/// `nodes:n`: the edges kept by `delete_node` are exactly those that do not
/// name it, so none of them does.
pub proof fn lemma_delete_leaves_no_edge(before: Seq<KnowledgeEdge>, after: Seq<KnowledgeEdge>, n: Seq<char>)
    requires
        after == before.filter(|e: KnowledgeEdge| !touches(e, n)),
    ensures
        forall|i: int| 0 <= i < after.len() ==> {
            let e = #[trigger] after[i];
            e.from_id@ != n && e.to_id@ != n && e.from_id@ != "nodes:"@ + n && e.to_id@ != "nodes:"@ + n
        },
{
    broadcast use vstd::seq_lib::group_filter_ensures;
    let f = |e: KnowledgeEdge| !touches(e, n);
    assert forall|i: int| 0 <= i < after.len() implies !touches(#[trigger] after[i], n) by {
        assert(f(after[i]));
    }
}

} // verus!
