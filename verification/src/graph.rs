//! The star map as a graph, and how it is built from the dataset's records.

use crate::db::{Jump, System};
use std::collections::HashMap;
use vstd::prelude::*;

verus! {

broadcast use vstd::std_specs::hash::group_hash_axioms;

/// The largest number of systems, and of gates, that a map can hold: its
/// nodes and edges are numbered with 32 bits.
pub const INDEX_LIMIT: usize = 0xFFFF_FFFF;

/// A star map as mathematics: how many systems there are, numbered from zero,
/// and the gates between them in the order in which they were laid.
pub struct StarMap {
    pub nodes: nat,
    pub edges: Seq<(usize, usize)>,
}

/// Whether the edge `e` joins `a` and `b`, in either direction.
pub open spec fn joins(e: (usize, usize), a: usize, b: usize) -> bool {
    (e.0 == a && e.1 == b) || (e.0 == b && e.1 == a)
}

/// Whether some edge of `edges` joins `a` and `b`.
pub open spec fn has_link(edges: Seq<(usize, usize)>, a: usize, b: usize) -> bool {
    exists|k: int| 0 <= k < edges.len() && joins(#[trigger] edges[k], a, b)
}

/// The edges after a gate between `a` and `b` is laid: a pair that is joined
/// already gets no second edge.
pub open spec fn with_link(edges: Seq<(usize, usize)>, a: usize, b: usize) -> Seq<(usize, usize)> {
    if has_link(edges, a, b) {
        edges
    } else {
        edges.push((a, b))
    }
}

impl StarMap {
    /// Whether a gate joins `a` and `b`.
    pub open spec fn linked(self, a: usize, b: usize) -> bool {
        has_link(self.edges, a, b)
    }

    /// Every gate joins two systems of the map, and no pair of systems is
    /// joined twice.
    pub open spec fn wf(self) -> bool {
        &&& self.nodes <= INDEX_LIMIT
        &&& self.edges.len() <= INDEX_LIMIT
        &&& forall|k: int|
            0 <= k < self.edges.len() ==> (#[trigger] self.edges[k]).0 < self.nodes
                && self.edges[k].1 < self.nodes
        &&& forall|j: int, k: int|
            0 <= j < k < self.edges.len() ==> !joins(
                #[trigger] self.edges[k],
                (#[trigger] self.edges[j]).0,
                self.edges[j].1,
            )
    }

    /// Whether `p` is a walk: a non-empty sequence of systems of the map in
    /// which each is joined by a gate to the next.
    pub open spec fn is_walk(self, p: Seq<usize>) -> bool {
        &&& p.len() > 0
        &&& forall|i: int| 0 <= i < p.len() ==> (#[trigger] p[i]) < self.nodes
        &&& forall|i: int| 0 <= i < p.len() - 1 ==> self.linked(#[trigger] p[i], p[i + 1])
    }

    /// Whether `p` is a walk from `a` to `b`.
    pub open spec fn connects(self, p: Seq<usize>, a: usize, b: usize) -> bool {
        self.is_walk(p) && p[0] == a && p[p.len() - 1] == b
    }

    /// Whether `b` can be reached from `a`.
    pub open spec fn reachable(self, a: usize, b: usize) -> bool {
        exists|p: Seq<usize>| self.connects(p, a, b)
    }

    /// Whether `p` is a walk from `a` to `b` that no walk from `a` to `b`
    /// undercuts in length.
    pub open spec fn is_shortest(self, p: Seq<usize>, a: usize, b: usize) -> bool {
        &&& self.connects(p, a, b)
        &&& forall|q: Seq<usize>| #[trigger] self.connects(q, a, b) ==> p.len() <= q.len()
    }

    /// What a search for a way from `source` to `target` gives: the number
    /// of gates passed and the systems on the way, both ends included, or
    /// nothing. Between two systems of the map it is the search's own
    /// outcome; a system that is not on the map is never found.
    pub open spec fn search(self, source: usize, target: usize) -> Option<(u64, Seq<usize>)> {
        if source < self.nodes && target < self.nodes {
            astar_outcome(self.nodes, self.edges, source, target)
        } else {
            None
        }
    }

    /// Whether `found` answers the question for a way from `source` to
    /// `target` rightly: a way it gives is a shortest one and its cost is the
    /// number of gates on it, and it gives none only where there is none.
    pub open spec fn answers(
        self,
        found: Option<(u64, Seq<usize>)>,
        source: usize,
        target: usize,
    ) -> bool {
        match found {
            Some((cost, path)) => self.is_shortest(path, source, target) && cost == path.len() - 1,
            None => !self.reachable(source, target),
        }
    }
}

/// A search's outcome with the path as a sequence.
pub open spec fn outcome_view(found: Option<(u64, Vec<usize>)>) -> Option<(u64, Seq<usize>)> {
    match found {
        Some((cost, path)) => Some((cost, path@)),
        None => None,
    }
}

/// `petgraph::Undirected`, the marker of graphs whose edges have no
/// direction. Nothing is said of it.
#[verifier::external_type_specification]
#[verifier::external_body]
pub struct ExUndirected(petgraph::Undirected);

/// `petgraph::graph::Graph`, the adjacency list graph. What one holds is
/// spoken of through `node_weights` and `edge_ends` alone.
#[verifier::external_type_specification]
#[verifier::external_body]
#[verifier::reject_recursive_types(N)]
#[verifier::reject_recursive_types(E)]
#[verifier::reject_recursive_types(Ty)]
#[verifier::reject_recursive_types(Ix)]
pub struct ExGraph<N, E, Ty, Ix>(petgraph::graph::Graph<N, E, Ty, Ix>);

/// The weights of a graph's nodes, in the order of the nodes' indices.
pub uninterp spec fn node_weights(
    g: petgraph::graph::Graph<usize, (), petgraph::Undirected, u32>,
) -> Seq<usize>;

/// The end points of a graph's edges, in the order of the edges' indices.
pub uninterp spec fn edge_ends(
    g: petgraph::graph::Graph<usize, (), petgraph::Undirected, u32>,
) -> Seq<(usize, usize)>;

/// `petgraph::graph::Graph::new_undirected`: a graph without nodes or edges.
#[verifier::external_body]
fn new_undirected() -> (g: petgraph::graph::Graph<usize, (), petgraph::Undirected, u32>)
    ensures
        node_weights(g) == Seq::<usize>::empty(),
        edge_ends(g) == Seq::<(usize, usize)>::empty(),
{
    petgraph::graph::Graph::new_undirected()
}

/// `petgraph::graph::Graph::node_count`: how many nodes the graph has.
#[verifier::external_body]
fn node_count(g: &petgraph::graph::Graph<usize, (), petgraph::Undirected, u32>) -> (n: usize)
    ensures
        n == node_weights(*g).len(),
{
    g.node_count()
}

/// `petgraph::graph::Graph::add_node`: the node is added behind the others,
/// so its index is the number of nodes there were. The edges stay. The call
/// panics once the index type is used up, which `requires` rules out.
#[verifier::external_body]
fn add_node(
    g: &mut petgraph::graph::Graph<usize, (), petgraph::Undirected, u32>,
    weight: usize,
) -> (idx: usize)
    requires
        node_weights(*old(g)).len() < INDEX_LIMIT,
    ensures
        idx == node_weights(*old(g)).len(),
        node_weights(*final(g)) == node_weights(*old(g)).push(weight),
        edge_ends(*final(g)) == edge_ends(*old(g)),
{
    g.add_node(weight).index()
}

/// `petgraph::graph::Graph::update_edge` on an undirected graph: where an
/// edge joins `a` and `b` already, in either direction, nothing is added;
/// otherwise the edge from `a` to `b` is added behind the others. The nodes
/// stay. The call panics on a node that does not exist, and where an edge is
/// to be added once the index type is used up, which `requires` rules out.
#[verifier::external_body]
fn update_edge(
    g: &mut petgraph::graph::Graph<usize, (), petgraph::Undirected, u32>,
    a: usize,
    b: usize,
)
    requires
        a < node_weights(*old(g)).len() <= INDEX_LIMIT,
        b < node_weights(*old(g)).len(),
        has_link(edge_ends(*old(g)), a, b) || edge_ends(*old(g)).len() < INDEX_LIMIT,
    ensures
        node_weights(*final(g)) == node_weights(*old(g)),
        edge_ends(*final(g)) == with_link(edge_ends(*old(g)), a, b),
{
    g.update_edge(petgraph::graph::NodeIndex::new(a), petgraph::graph::NodeIndex::new(b), ());
}

/// `petgraph::graph::Graph::edge_count`: how many edges the graph has.
#[verifier::external_body]
fn edge_count(g: &petgraph::graph::Graph<usize, (), petgraph::Undirected, u32>) -> (n: usize)
    ensures
        n == edge_ends(*g).len(),
{
    g.edge_count()
}

/// `petgraph::graph::Graph::contains_edge` on an undirected graph: whether
/// an edge joins `a` and `b`, in either direction.
#[verifier::external_body]
fn contains_edge(
    g: &petgraph::graph::Graph<usize, (), petgraph::Undirected, u32>,
    a: usize,
    b: usize,
) -> (found: bool)
    requires
        a < node_weights(*g).len() <= INDEX_LIMIT,
        b < node_weights(*g).len(),
    ensures
        found == has_link(edge_ends(*g), a, b),
{
    g.contains_edge(petgraph::graph::NodeIndex::new(a), petgraph::graph::NodeIndex::new(b))
}

/// What `petgraph::algo::astar` returns on an undirected graph with `nodes`
/// nodes and the edges `edges`, from `source` to the one goal `target`, where
/// every edge costs 1 and the estimate is 0: the cost and the path, by node
/// indices.
pub uninterp spec fn astar_outcome(
    nodes: nat,
    edges: Seq<(usize, usize)>,
    source: usize,
    target: usize,
) -> Option<(u64, Seq<usize>)>;

/// Whether `node` is the one looked for.
fn is_target(node: usize, target: usize) -> (r: bool)
    ensures
        r == (node == target),
{
    node == target
}

/// What passing one gate costs.
fn jump_cost() -> (c: u64)
    ensures
        c == 1,
{
    1
}

/// The estimate of what is left of the way: none is made.
fn no_estimate() -> (c: u64)
    ensures
        c == 0,
{
    0
}

/// `petgraph::algo::astar` with `target` as the only goal, `jump_cost` for
/// every edge and `no_estimate` for every node, on a graph that was only
/// ever grown by `add_node` and `update_edge`, so that the order in which it
/// holds its edges is that of `edge_ends`. With an estimate of 0 the search
/// is Dijkstra's: it returns a path of least cost from `source` to `target`,
/// both ends included, with that cost, which is here the number of edges on
/// the path; and it returns nothing exactly where no path leads there. Which
/// of several shortest paths comes back depends on the graph alone.
#[verifier::external_body]
fn astar(
    g: &petgraph::graph::Graph<usize, (), petgraph::Undirected, u32>,
    source: usize,
    target: usize,
) -> (found: Option<(u64, Vec<usize>)>)
    requires
        source < node_weights(*g).len() <= INDEX_LIMIT,
        target < node_weights(*g).len(),
    ensures
        outcome_view(found) == astar_outcome(
            node_weights(*g).len(),
            edge_ends(*g),
            source,
            target,
        ),
        (StarMap { nodes: node_weights(*g).len(), edges: edge_ends(*g) }).answers(
            outcome_view(found),
            source,
            target,
        ),
{
    let found = petgraph::algo::astar(
        g,
        petgraph::graph::NodeIndex::new(source),
        |n| is_target(n.index(), target),
        |_| jump_cost(),
        |_| no_estimate(),
    );
    found.map(|(cost, path)| (cost, path.into_iter().map(|n| n.index()).collect()))
}

/// The map of star systems: system `i` of the dataset is node `i`, and each
/// gate is one undirected edge.
pub struct StarGraph {
    inner: petgraph::graph::Graph<usize, (), petgraph::Undirected, u32>,
}

impl View for StarGraph {
    type V = StarMap;

    closed spec fn view(&self) -> StarMap {
        StarMap { nodes: node_weights(self.inner).len(), edges: edge_ends(self.inner) }
    }
}

impl StarGraph {
    /// The number that each node carries.
    pub closed spec fn labels(&self) -> Seq<usize> {
        node_weights(self.inner)
    }

    /// The map is well formed, and each node carries its own index.
    pub open spec fn wf(&self) -> bool {
        &&& self@.wf()
        &&& self.labels().len() == self@.nodes
        &&& forall|i: int| 0 <= i < self.labels().len() ==> #[trigger] self.labels()[i] == i
    }

    /// How many systems the map holds.
    pub fn node_count(&self) -> (n: usize)
        ensures
            n == self@.nodes,
    {
        node_count(&self.inner)
    }

    /// How many gates the map holds.
    pub fn edge_count(&self) -> (n: usize)
        ensures
            n == self@.edges.len(),
    {
        edge_count(&self.inner)
    }

    /// Whether a gate joins the systems `a` and `b`. No gate leads to a
    /// system that is not on the map.
    pub fn has_gate(&self, a: usize, b: usize) -> (found: bool)
        requires
            self.wf(),
        ensures
            found == self@.linked(a, b),
    {
        let n = node_count(&self.inner);
        if a < n && b < n {
            contains_edge(&self.inner, a, b)
        } else {
            false
        }
    }

    /// Searches a shortest way from `source` to `target`. The outcome holds
    /// the number of gates passed and the systems on the way, both ends
    /// included; there is none where `target` cannot be reached, and none for
    /// a system that is not on the map.
    pub fn shortest_path(&self, source: usize, target: usize) -> (found: Option<(u64, Vec<usize>)>)
        requires
            self.wf(),
        ensures
            outcome_view(found) == self@.search(source, target),
            self@.answers(outcome_view(found), source, target),
    {
        let n = node_count(&self.inner);
        if source < n && target < n {
            astar(&self.inner, source, target)
        } else {
            proof {
                assert forall|p: Seq<usize>| !self@.connects(p, source, target) by {
                    if self@.connects(p, source, target) {
                        assert(p[0] < self@.nodes);
                        assert(p[p.len() - 1] < self@.nodes);
                    }
                }
            }
            None
        }
    }
}

/// The table from identifiers to node indices: each system's identifier leads
/// to the system's position, and of two systems with one identifier the later
/// one is found.
pub open spec fn id_table(systems: Seq<System>) -> Map<i64, usize>
    decreases systems.len(),
{
    if systems.len() == 0 {
        Map::empty()
    } else {
        id_table(systems.drop_last()).insert(systems.last().id, (systems.len() - 1) as usize)
    }
}

/// The edges that `jumps` give under `table`: each jump whose two ends are
/// both in the table lays a gate, the others are passed over.
pub open spec fn laid_edges(table: Map<i64, usize>, jumps: Seq<Jump>) -> Seq<(usize, usize)>
    decreases jumps.len(),
{
    if jumps.len() == 0 {
        Seq::empty()
    } else {
        let before = laid_edges(table, jumps.drop_last());
        let j = jumps.last();
        if table.contains_key(j.from_id) && table.contains_key(j.to_id) {
            with_link(before, table[j.from_id], table[j.to_id])
        } else {
            before
        }
    }
}

/// The map that a dataset describes.
pub open spec fn built(systems: Seq<System>, jumps: Seq<Jump>) -> StarMap {
    StarMap { nodes: systems.len(), edges: laid_edges(id_table(systems), jumps) }
}

/// The numbers `0, 1, .., n - 1`.
pub open spec fn counting(n: nat) -> Seq<usize> {
    Seq::new(n, |i: int| i as usize)
}

/// Every index in the table of `systems` is a position in `systems`.
pub proof fn lemma_id_table_in_range(systems: Seq<System>, id: i64)
    requires
        systems.len() <= usize::MAX,
        id_table(systems).contains_key(id),
    ensures
        id_table(systems)[id] < systems.len(),
        systems[id_table(systems)[id] as int].id == id,
    decreases systems.len(),
{
    if systems.len() > 0 {
        if systems.last().id != id {
            let rest = systems.drop_last();
            lemma_id_table_in_range(rest, id);
            assert(rest[id_table(rest)[id] as int] == systems[id_table(rest)[id] as int]);
        }
    }
}

/// Laying a gate between two systems of a well-formed map leaves it well
/// formed.
pub proof fn lemma_with_link_wf(m: StarMap, a: usize, b: usize)
    requires
        m.wf(),
        a < m.nodes,
        b < m.nodes,
        with_link(m.edges, a, b).len() <= INDEX_LIMIT,
    ensures
        (StarMap { nodes: m.nodes, edges: with_link(m.edges, a, b) }).wf(),
{
}

/// Each further jump leaves the gates laid so far in place: after the first
/// `k` jumps no more gates are laid than after all of them.
pub proof fn lemma_laid_edges_grow(table: Map<i64, usize>, jumps: Seq<Jump>, k: int)
    requires
        0 <= k <= jumps.len(),
    ensures
        laid_edges(table, jumps.take(k)).len() <= laid_edges(table, jumps).len(),
    decreases jumps.len() - k,
{
    if k < jumps.len() {
        lemma_laid_edges_grow(table, jumps, k + 1);
        assert(jumps.take(k + 1).drop_last() == jumps.take(k));
    } else {
        assert(jumps.take(k) == jumps);
    }
}

/// No more gates are laid than there are jumps.
pub proof fn lemma_laid_edges_count(table: Map<i64, usize>, jumps: Seq<Jump>)
    ensures
        laid_edges(table, jumps).len() <= jumps.len(),
    decreases jumps.len(),
{
    if jumps.len() > 0 {
        lemma_laid_edges_count(table, jumps.drop_last());
    }
}

/// Builds the map from the dataset's systems and jumps. System `i` becomes
/// node `i`. A jump lays a gate between the nodes of its two systems unless
/// the two are joined already; a jump that names an unknown system is passed
/// over.
///
/// The map numbers its systems and its gates with 32 bits: the dataset may
/// hold no more systems, and lay no more gates, than `INDEX_LIMIT`. No more
/// gates are laid than there are jumps (`lemma_laid_edges_count`).
pub fn build_graph(systems: &[System], jumps: &[Jump]) -> (g: StarGraph)
    requires
        systems.len() <= INDEX_LIMIT,
        built(systems@, jumps@).edges.len() <= INDEX_LIMIT,
    ensures
        g.wf(),
        g@ == built(systems@, jumps@),
{
    let mut graph = new_undirected();
    let mut id_to_node: HashMap<i64, usize> = HashMap::new();

    let mut i: usize = 0;
    while i < systems.len()
        invariant
            i <= systems.len() <= INDEX_LIMIT,
            node_weights(graph) == counting(i as nat),
            edge_ends(graph) == Seq::<(usize, usize)>::empty(),
            id_to_node@ == id_table(systems@.take(i as int)),
        decreases systems.len() - i,
    {
        let idx = add_node(&mut graph, i);
        id_to_node.insert(systems[i].id, idx);
        proof {
            assert(systems@.take(i + 1).drop_last() == systems@.take(i as int));
            assert(counting(i as nat).push(i) == counting((i + 1) as nat));
        }
        i += 1;
    }
    proof {
        assert(systems@.take(i as int) == systems@);
    }

    let ghost table = id_table(systems@);
    let mut k: usize = 0;
    while k < jumps.len()
        invariant
            k <= jumps.len(),
            systems.len() <= INDEX_LIMIT,
            laid_edges(table, jumps@).len() <= INDEX_LIMIT,
            table == id_table(systems@),
            id_to_node@ == table,
            node_weights(graph) == counting(systems.len() as nat),
            edge_ends(graph) == laid_edges(table, jumps@.take(k as int)),
            (StarMap { nodes: systems.len() as nat, edges: edge_ends(graph) }).wf(),
        decreases jumps.len() - k,
    {
        let j = &jumps[k];
        let from = id_to_node.get(&j.from_id);
        let to = id_to_node.get(&j.to_id);
        proof {
            assert(jumps@.take(k + 1).drop_last() == jumps@.take(k as int));
            lemma_laid_edges_grow(table, jumps@, k + 1);
        }
        match (from, to) {
            (Some(a), Some(b)) => {
                proof {
                    lemma_id_table_in_range(systems@, j.from_id);
                    lemma_id_table_in_range(systems@, j.to_id);
                    lemma_with_link_wf(
                        StarMap { nodes: systems.len() as nat, edges: edge_ends(graph) },
                        *a,
                        *b,
                    );
                }
                update_edge(&mut graph, *a, *b);
            },
            _ => {},
        }
        k += 1;
    }
    proof {
        assert(jumps@.take(k as int) == jumps@);
    }
    StarGraph { inner: graph }
}

/// Whether some system of `systems` has the identifier `id`.
pub open spec fn knows(systems: Seq<System>, id: i64) -> bool {
    exists|i: int| 0 <= i < systems.len() && (#[trigger] systems[i]).id == id
}

/// Whether `jump` names two systems of the table whose nodes are `a` and
/// `b`, in either order.
pub open spec fn lays(table: Map<i64, usize>, jump: Jump, a: usize, b: usize) -> bool {
    &&& table.contains_key(jump.from_id)
    &&& table.contains_key(jump.to_id)
    &&& joins((table[jump.from_id], table[jump.to_id]), a, b)
}

/// The table holds exactly the identifiers that occur in `systems`.
pub proof fn lemma_id_table_keys(systems: Seq<System>, id: i64)
    ensures
        id_table(systems).contains_key(id) <==> knows(systems, id),
    decreases systems.len(),
{
    if systems.len() > 0 {
        let rest = systems.drop_last();
        lemma_id_table_keys(rest, id);
        if knows(rest, id) {
            let i = choose|i: int| 0 <= i < rest.len() && (#[trigger] rest[i]).id == id;
            assert(systems[i].id == id);
        }
        if knows(systems, id) && systems.last().id != id {
            let i = choose|i: int| 0 <= i < systems.len() && (#[trigger] systems[i]).id == id;
            assert(rest[i].id == id);
        }
        if systems.last().id == id {
            assert(systems[systems.len() - 1].id == id);
        }
    }
}

/// After a gate between `x` and `y` is laid, two systems are joined exactly
/// where they were joined before or are `x` and `y`.
pub proof fn lemma_with_link_joins(edges: Seq<(usize, usize)>, x: usize, y: usize, a: usize, b: usize)
    ensures
        has_link(with_link(edges, x, y), a, b) <==> has_link(edges, a, b) || joins((x, y), a, b),
{
    let after = with_link(edges, x, y);
    if has_link(edges, a, b) {
        let k = choose|k: int| 0 <= k < edges.len() && joins(#[trigger] edges[k], a, b);
        assert(joins(after[k], a, b));
    }
    if joins((x, y), a, b) {
        if has_link(edges, x, y) {
            let k = choose|k: int| 0 <= k < edges.len() && joins(#[trigger] edges[k], x, y);
            assert(joins(edges[k], a, b));
        } else {
            assert(joins(after[edges.len() as int], a, b));
        }
    }
    if has_link(after, a, b) {
        let k = choose|k: int| 0 <= k < after.len() && joins(#[trigger] after[k], a, b);
        if k < edges.len() {
            assert(joins(edges[k], a, b));
        }
    }
}

/// Two systems are joined on the built map exactly where some jump names
/// the two of them: the gates are undirected, and a pair that several jumps
/// name is joined all the same.
pub proof fn lemma_laid_edges_joins(table: Map<i64, usize>, jumps: Seq<Jump>, a: usize, b: usize)
    ensures
        has_link(laid_edges(table, jumps), a, b) <==> exists|k: int|
            0 <= k < jumps.len() && lays(table, #[trigger] jumps[k], a, b),
    decreases jumps.len(),
{
    if jumps.len() > 0 {
        let rest = jumps.drop_last();
        let j = jumps.last();
        lemma_laid_edges_joins(table, rest, a, b);
        let before = laid_edges(table, rest);
        if table.contains_key(j.from_id) && table.contains_key(j.to_id) {
            lemma_with_link_joins(before, table[j.from_id], table[j.to_id], a, b);
        }
        if exists|k: int| 0 <= k < rest.len() && lays(table, #[trigger] rest[k], a, b) {
            let k = choose|k: int| 0 <= k < rest.len() && lays(table, #[trigger] rest[k], a, b);
            assert(lays(table, jumps[k], a, b));
        }
        if lays(table, j, a, b) {
            assert(lays(table, jumps[jumps.len() - 1], a, b));
        }
        if exists|k: int| 0 <= k < jumps.len() && lays(table, #[trigger] jumps[k], a, b) {
            let k = choose|k: int| 0 <= k < jumps.len() && lays(table, #[trigger] jumps[k], a, b);
            if k < rest.len() {
                assert(lays(table, rest[k], a, b));
            }
        }
    } else {
        assert(laid_edges(table, jumps).len() == 0);
    }
}

/// The built map has one node for each system, and none but these, whatever
/// the jumps are.
pub proof fn lemma_built_nodes(systems: Seq<System>, jumps: Seq<Jump>)
    ensures
        built(systems, jumps).nodes == systems.len(),
{
}

/// A jump that names a system which the dataset does not hold is dropped:
/// the map is the one that the dataset gives without that jump.
pub proof fn lemma_unknown_jump_dropped(systems: Seq<System>, jumps: Seq<Jump>, k: int)
    requires
        0 <= k < jumps.len(),
        !knows(systems, jumps[k].from_id) || !knows(systems, jumps[k].to_id),
    ensures
        built(systems, jumps) == built(systems, jumps.remove(k)),
    decreases jumps.len(),
{
    let table = id_table(systems);
    lemma_id_table_keys(systems, jumps[k].from_id);
    lemma_id_table_keys(systems, jumps[k].to_id);
    if k == jumps.len() - 1 {
        assert(jumps.remove(k) == jumps.drop_last());
    } else {
        lemma_unknown_jump_dropped(systems, jumps.drop_last(), k);
        assert(jumps.remove(k).drop_last() == jumps.drop_last().remove(k));
        assert(jumps.remove(k).last() == jumps.last());
    }
}

/// Two maps built from one dataset agree: they have as many nodes, and the
/// same pairs of nodes are joined, whatever the order in which each holds
/// its edges.
pub proof fn lemma_build_repeatable(
    first: StarGraph,
    second: StarGraph,
    systems: Seq<System>,
    jumps: Seq<Jump>,
)
    requires
        first@ == built(systems, jumps),
        second@ == built(systems, jumps),
    ensures
        first@.nodes == second@.nodes,
        forall|a: usize, b: usize| first@.linked(a, b) <==> second@.linked(a, b),
{
}

} // verus!
