//! Nodes of an airport's ground layout, the taxi graph and the search for a
//! taxi route.

use vstd::prelude::*;

use crate::geometry::{angle_between_points, bearing_between, Point};
use crate::names::Name;
use crate::search::{
    first_index, lemma_distinct_bounded, lemma_first_index_absent, lemma_first_index_found,
};

verus! {

/// What a node of the ground layout is.
#[derive(Clone, Copy, Debug, PartialEq, Eq, Hash, Structural)]
pub enum NodeKind {
    Taxiway,
    Runway,
    Gate,
    Apron,
    VOR,
}

/// What an aircraft does when it reaches a node.
#[derive(Clone, Copy, Debug, PartialEq, Eq, Hash, Structural)]
pub enum NodeBehavior {
    GoTo,
    Park,
    HoldShort,
    LineUp,
    Takeoff,
}

/// A straight stretch of pavement between two points.
#[derive(Clone, Copy, Debug, PartialEq, Eq, Hash, Structural)]
pub struct Line {
    pub a: Point,
    pub b: Point,
}

/// A named node with its kind, the behaviour asked for on reaching it and a
/// payload: nothing for a destination that is only named, a point for a step
/// of a taxi route, a line for a node of the taxi graph.
#[derive(Clone, Copy, Debug, PartialEq, Eq, Hash, Structural)]
pub struct Node<T> {
    pub name: Name,
    pub kind: NodeKind,
    pub behavior: NodeBehavior,
    pub data: T,
}

impl<T> Node<T> {
    /// A node.
    pub fn new(name: Name, kind: NodeKind, behavior: NodeBehavior, data: T) -> (r: Node<T>)
        ensures
            r == (Node { name, kind, behavior, data }),
    {
        Node { name, kind, behavior, data }
    }

    /// Whether two nodes carry the same name and are of the same kind.
    pub open spec fn same_place<U>(self, other: Node<U>) -> bool {
        self.name == other.name && self.kind == other.kind
    }

    /// Whether two nodes carry the same name and are of the same kind.
    pub fn name_and_kind_eq<U>(&self, other: &Node<U>) -> (r: bool)
        ensures
            r == self.same_place(*other),
    {
        self.name == other.name && self.kind == other.kind
    }
}

/// `petgraph::graph::Graph`, carried as it is.
#[verifier::external_type_specification]
#[verifier::external_body]
#[verifier::reject_recursive_types(N)]
#[verifier::reject_recursive_types(E)]
#[verifier::reject_recursive_types(Ty)]
#[verifier::reject_recursive_types(Ix)]
pub struct ExGraph<N, E, Ty, Ix>(petgraph::graph::Graph<N, E, Ty, Ix>);

/// `petgraph::Undirected`, the marker of a graph without directions.
#[verifier::external_type_specification]
#[verifier::external_body]
pub struct ExUndirected(petgraph::Undirected);

/// The nodes that a taxi graph holds, by node index.
pub uninterp spec fn graph_nodes(graph: petgraph::graph::UnGraph<Node<Line>, Point>) -> Seq<Node<Line>>;

/// The edges that a taxi graph holds, by edge index: the indices of the two
/// nodes that the edge joins and the point where they meet.
pub uninterp spec fn graph_edges(graph: petgraph::graph::UnGraph<Node<Line>, Point>) -> Seq<(int, int, Point)>;

/// `Graph::node_count`: the number of nodes that the graph holds.
#[verifier::external_body]
fn graph_node_count(graph: &petgraph::graph::UnGraph<Node<Line>, Point>) -> (r: usize)
    ensures
        r == graph_nodes(*graph).len(),
{
    graph.node_count()
}

/// `Graph::edge_count`: the number of edges that the graph holds.
#[verifier::external_body]
fn graph_edge_count(graph: &petgraph::graph::UnGraph<Node<Line>, Point>) -> (r: usize)
    ensures
        r == graph_edges(*graph).len(),
{
    graph.edge_count()
}

/// `Graph::node_weight`: the node stored under an index that the graph holds.
#[verifier::external_body]
fn graph_node(graph: &petgraph::graph::UnGraph<Node<Line>, Point>, index: usize) -> (r: Node<Line>)
    requires
        index < graph_nodes(*graph).len(),
    ensures
        r == graph_nodes(*graph)[index as int],
{
    *graph.node_weight(petgraph::graph::NodeIndex::new(index)).unwrap()
}

/// `Graph::edge_endpoints`: the indices of the two nodes that an edge of the
/// graph joins, both of them nodes of the graph.
#[verifier::external_body]
fn graph_edge_endpoints(graph: &petgraph::graph::UnGraph<Node<Line>, Point>, index: usize) -> (r: (
    usize,
    usize,
))
    requires
        index < graph_edges(*graph).len(),
    ensures
        r.0 == graph_edges(*graph)[index as int].0,
        r.1 == graph_edges(*graph)[index as int].1,
        r.0 < graph_nodes(*graph).len(),
        r.1 < graph_nodes(*graph).len(),
{
    let (a, b) = graph.edge_endpoints(petgraph::graph::EdgeIndex::new(index)).unwrap();
    (a.index(), b.index())
}

/// `Graph::edge_weight`: the point stored with an edge of the graph.
#[verifier::external_body]
fn graph_edge_weight(graph: &petgraph::graph::UnGraph<Node<Line>, Point>, index: usize) -> (r: Point)
    requires
        index < graph_edges(*graph).len(),
    ensures
        r == graph_edges(*graph)[index as int].2,
{
    *graph.edge_weight(petgraph::graph::EdgeIndex::new(index)).unwrap()
}

/// `Graph::clone`: a graph that holds the same nodes and the same edges.
#[verifier::external_body]
fn graph_clone(graph: &petgraph::graph::UnGraph<Node<Line>, Point>) -> (r: petgraph::graph::UnGraph<
    Node<Line>,
    Point,
>)
    ensures
        graph_nodes(r) == graph_nodes(*graph),
        graph_edges(r) == graph_edges(*graph),
{
    graph.clone()
}

/// The taxi graph of an airport: runways, taxiways, aprons and gates as nodes,
/// joined where they meet.
#[derive(Debug)]
pub struct Pathfinder {
    pub graph: petgraph::graph::UnGraph<Node<Line>, Point>,
}

impl Clone for Pathfinder {
    fn clone(&self) -> (r: Pathfinder)
        ensures
            r.nodes() == self.nodes(),
            r.edges() == self.edges(),
    {
        Pathfinder { graph: graph_clone(&self.graph) }
    }
}

impl Pathfinder {
    /// The nodes of the graph, by index.
    pub open spec fn nodes(&self) -> Seq<Node<Line>> {
        graph_nodes(self.graph)
    }

    /// The edges of the graph, by index: the two nodes joined and the point
    /// where they meet.
    pub open spec fn edges(&self) -> Seq<(int, int, Point)> {
        graph_edges(self.graph)
    }

    /// Every edge joins two nodes of the graph at a point of the map.
    pub open spec fn wf(&self) -> bool {
        forall|k: int|
            0 <= k < self.edges().len() ==> {
                let e = #[trigger] self.edges()[k];
                &&& 0 <= e.0 < self.nodes().len()
                &&& 0 <= e.1 < self.nodes().len()
                &&& e.2.in_range()
            }
    }

    /// Whether every edge meets its nodes at a point of the map.
    pub fn is_wf(&self) -> (r: bool)
        ensures
            r == self.wf(),
    {
        let m = graph_edge_count(&self.graph);
        let mut k: usize = 0;
        while k < m
            invariant
                k <= m == self.edges().len(),
                forall|j: int|
                    0 <= j < k ==> {
                        let e = #[trigger] self.edges()[j];
                        &&& 0 <= e.0 < self.nodes().len()
                        &&& 0 <= e.1 < self.nodes().len()
                        &&& e.2.in_range()
                    },
            decreases m - k,
        {
            let ends = graph_edge_endpoints(&self.graph, k);
            let meeting = graph_edge_weight(&self.graph, k);
            if !meeting.is_in_range() {
                assert(!self.edges()[k as int].2.in_range());
                return false;
            }
            k = k + 1;
        }
        true
    }

    /// The number of nodes.
    pub fn node_count(&self) -> (r: usize)
        ensures
            r == self.nodes().len(),
    {
        graph_node_count(&self.graph)
    }

    /// The number of edges.
    pub fn edge_count(&self) -> (r: usize)
        ensures
            r == self.edges().len(),
    {
        graph_edge_count(&self.graph)
    }

    /// The node stored under an index.
    pub fn node(&self, index: usize) -> (r: Node<Line>)
        requires
            index < self.nodes().len(),
        ensures
            r == self.nodes()[index as int],
    {
        graph_node(&self.graph, index)
    }

    /// The edge stored under an index: the two nodes that it joins and the
    /// point where they meet.
    pub fn edge(&self, index: usize) -> (r: (usize, usize, Point))
        requires
            index < self.edges().len(),
        ensures
            r.0 == self.edges()[index as int].0,
            r.1 == self.edges()[index as int].1,
            r.2 == self.edges()[index as int].2,
            r.0 < self.nodes().len(),
            r.1 < self.nodes().len(),
    {
        let ends = graph_edge_endpoints(&self.graph, index);
        (ends.0, ends.1, graph_edge_weight(&self.graph, index))
    }
}

/// A taxi route: the nodes to pass, each with the point where it is entered,
/// and where and how the aircraft stands at its end.
#[derive(Clone, Debug, PartialEq, Eq)]
pub struct Path {
    pub path: Vec<Node<Point>>,
    pub final_pos: Point,
    pub final_heading: i64,
}

/// The mathematical value of a `Path`.
pub struct PathView {
    pub path: Seq<Node<Point>>,
    pub final_pos: Point,
    pub final_heading: i64,
}

impl View for Path {
    type V = PathView;

    open spec fn view(&self) -> PathView {
        PathView { path: self.path@, final_pos: self.final_pos, final_heading: self.final_heading }
    }
}

impl Pathfinder {
    /// The index of the first node of the graph with the name and kind of
    /// `place`.
    pub open spec fn index_of(&self, place: Node<()>) -> Option<int> {
        first_index(self.nodes(), |n: Node<Line>| n.same_place(place))
    }

    /// Whether the edge `k` joins the nodes `u` and `v`.
    pub open spec fn joins(&self, k: int, u: int, v: int) -> bool {
        &&& 0 <= k < self.edges().len()
        &&& {
            ||| (self.edges()[k].0 == u && self.edges()[k].1 == v)
            ||| (self.edges()[k].0 == v && self.edges()[k].1 == u)
        }
    }

    /// Whether one can go from the node `from` through `nodes` in turn, each
    /// time along the edge that `edges` names.
    pub open spec fn is_walk(&self, from: int, nodes: Seq<int>, edges: Seq<int>) -> bool {
        &&& nodes.len() == edges.len()
        &&& forall|i: int|
            0 <= i < nodes.len() ==> self.joins(
                #[trigger] edges[i],
                if i == 0 {
                    from
                } else {
                    nodes[i - 1]
                },
                nodes[i],
            )
    }

    /// Whether some walk of at least one edge leads from `from` to `to`.
    pub open spec fn connected(&self, from: int, to: int) -> bool {
        exists|nodes: Seq<int>, edges: Seq<int>|
            nodes.len() > 0 && #[trigger] self.is_walk(from, nodes, edges) && nodes.last() == to
    }

    /// The steps of a walk as a taxi route: each node with the point where
    /// its edge enters it; the last with the behaviour asked for there, the
    /// others passed through.
    pub open spec fn walk_route(
        &self,
        nodes: Seq<int>,
        edges: Seq<int>,
        behavior: NodeBehavior,
    ) -> Seq<Node<Point>> {
        Seq::new(
            nodes.len(),
            |i: int|
                Node {
                    name: self.nodes()[nodes[i]].name,
                    kind: self.nodes()[nodes[i]].kind,
                    behavior: if i == nodes.len() - 1 {
                        behavior
                    } else {
                        NodeBehavior::GoTo
                    },
                    data: self.edges()[edges[i]].2,
                },
        )
    }

    /// Whether a route can be asked for: both places are nodes of the
    /// graph, they are not the same node, and a walk leads from the one to
    /// the other.
    pub open spec fn routable(&self, from: Node<()>, to: Node<()>) -> bool {
        match (self.index_of(from), self.index_of(to)) {
            (Some(f), Some(t)) => f != t && self.connected(f, t),
            _ => false,
        }
    }

    /// Whether no walk from `from` to `to` has fewer steps than `steps`.
    pub open spec fn fewest_steps(&self, from: Node<()>, to: Node<()>, steps: int) -> bool {
        forall|nodes: Seq<int>, edges: Seq<int>|
            nodes.len() > 0 && self.index_of(from) is Some && #[trigger] self.is_walk(
                self.index_of(from)->0,
                nodes,
                edges,
            ) && self.index_of(to) == Some(nodes.last()) ==> steps <= nodes.len()
    }

    /// Whether `route` answers the question for a way from `from` to `to`:
    /// its steps are those of a walk between the two, it ends at the point
    /// where the last node is entered, and its final heading is the bearing
    /// of its last leg, or `heading` where that leg has no length.
    pub open spec fn is_route(
        &self,
        from: Node<()>,
        to: Node<()>,
        pos: Point,
        heading: i64,
        route: PathView,
    ) -> bool {
        exists|nodes: Seq<int>, edges: Seq<int>|
            {
                &&& nodes.len() > 0
                &&& self.index_of(from) is Some
                &&& #[trigger] self.is_walk(self.index_of(from)->0, nodes, edges)
                &&& self.index_of(to) == Some(nodes.last())
                &&& route.path == self.walk_route(nodes, edges, to.behavior)
                &&& route.final_pos == route.path.last().data
                &&& route.final_heading == arrival_heading(pos, heading, route.path)
            }
    }
}

/// The heading at the end of a route: the bearing from the point before the
/// last, or from `pos` where the route has one step, to the last point; and
/// `heading` where the two are the same point.
pub open spec fn arrival_heading(pos: Point, heading: i64, path: Seq<Node<Point>>) -> i64 {
    let before = if path.len() >= 2 {
        path[path.len() - 2].data
    } else {
        pos
    };
    if before == path.last().data {
        heading
    } else {
        bearing_between(before, path.last().data) as i64
    }
}

/// What a search from one node has found.
struct Reach {
    /// Which nodes a walk from the start leads to; the start itself too.
    visited: Vec<bool>,
    /// For each such node but the start, the node before it on a walk that
    /// leads to it.
    parent: Vec<usize>,
    /// The edge from that node.
    through: Vec<usize>,
    /// The length of that walk.
    depth: Ghost<Seq<nat>>,
}

impl Reach {
    spec fn wf(&self, finder: &Pathfinder, start: int) -> bool {
        let n = finder.nodes().len();
        &&& self.visited@.len() == n
        &&& self.parent@.len() == n
        &&& self.through@.len() == n
        &&& self.depth@.len() == n
        &&& 0 <= start < n
        &&& self.visited@[start]
        &&& forall|v: int|
            0 <= v < n && #[trigger] self.visited@[v] && v != start ==> {
                &&& self.parent@[v] < n
                &&& self.visited@[self.parent@[v] as int]
                &&& finder.joins(self.through@[v] as int, self.parent@[v] as int, v)
                &&& self.depth@[v] == self.depth@[self.parent@[v] as int] + 1
            }
    }

    /// Every edge with one end found has its other end found too.
    spec fn closed(&self, finder: &Pathfinder) -> bool {
        forall|k: int|
            0 <= k < finder.edges().len() ==> {
                let e = #[trigger] finder.edges()[k];
                self.visited@[e.0] == self.visited@[e.1]
            }
    }
}

/// How far from the start the node at the place `j` of the queue was found.
spec fn depth_at(depth: Seq<nat>, queue: Seq<usize>, j: int) -> nat {
    depth[queue[j] as int]
}

impl Reach {
    /// No edge leads from a found node to a node that is more than one
    /// step further from the start.
    spec fn layered(&self, finder: &Pathfinder) -> bool {
        forall|k: int|
            0 <= k < finder.edges().len() ==> {
                let e = #[trigger] finder.edges()[k];
                &&& (self.visited@[e.0] ==> self.depth@[e.1] <= self.depth@[e.0] + 1)
                &&& (self.visited@[e.1] ==> self.depth@[e.0] <= self.depth@[e.1] + 1)
            }
    }
}

/// No walk from the start reaches a node in fewer steps than the search
/// found it in.
proof fn lemma_walk_no_shorter(
    finder: &Pathfinder,
    reach: &Reach,
    start: int,
    nodes: Seq<int>,
    edges: Seq<int>,
    i: int,
)
    requires
        finder.wf(),
        reach.wf(finder, start),
        reach.closed(finder),
        reach.layered(finder),
        reach.depth@[start] == 0,
        finder.is_walk(start, nodes, edges),
        0 <= i < nodes.len(),
    ensures
        reach.depth@[nodes[i]] <= i + 1,
    decreases i,
{
    let before = if i == 0 {
        start
    } else {
        nodes[i - 1]
    };
    if i > 0 {
        lemma_walk_no_shorter(finder, reach, start, nodes, edges, i - 1);
        lemma_walk_stays_found(finder, reach, start, start, nodes, edges, i - 1);
    }
    assert(finder.joins(edges[i], before, nodes[i]));
    let e = finder.edges()[edges[i]];
    assert(reach.visited@[before]);
}

/// Every node of a walk from a found node is found, where the search is
/// closed.
proof fn lemma_walk_stays_found(
    finder: &Pathfinder,
    reach: &Reach,
    start: int,
    from: int,
    nodes: Seq<int>,
    edges: Seq<int>,
    i: int,
)
    requires
        finder.wf(),
        reach.wf(finder, start),
        reach.closed(finder),
        0 <= from < finder.nodes().len(),
        reach.visited@[from],
        finder.is_walk(from, nodes, edges),
        0 <= i < nodes.len(),
    ensures
        0 <= nodes[i] < finder.nodes().len(),
        reach.visited@[nodes[i]],
    decreases i,
{
    let before = if i == 0 {
        from
    } else {
        nodes[i - 1]
    };
    if i > 0 {
        lemma_walk_stays_found(finder, reach, start, from, nodes, edges, i - 1);
    }
    assert(finder.joins(edges[i], before, nodes[i]));
    let e = finder.edges()[edges[i]];
    assert(reach.visited@[e.0] == reach.visited@[e.1]);
}

impl Pathfinder {
    /// The index of the first node with the name and kind of `place`.
    pub fn find_node(&self, place: &Node<()>) -> (r: Option<usize>)
        ensures
            r is Some == self.index_of(*place) is Some,
            r matches Some(i) ==> self.index_of(*place) == Some(i as int) && i
                < self.nodes().len() && self.nodes()[i as int].same_place(*place),
    {
        let ghost wanted = |n: Node<Line>| n.same_place(*place);
        let count = self.node_count();
        let mut i: usize = 0;
        while i < count
            invariant
                i <= count == self.nodes().len(),
                wanted == (|n: Node<Line>| n.same_place(*place)),
                forall|j: int| 0 <= j < i ==> !wanted(#[trigger] self.nodes()[j]),
            decreases count - i,
        {
            if self.node(i).name_and_kind_eq(place) {
                proof {
                    lemma_first_index_found(self.nodes(), wanted, i as int);
                }
                return Some(i);
            }
            i = i + 1;
        }
        proof {
            lemma_first_index_absent(self.nodes(), wanted);
        }
        None
    }

    /// Searches the graph from `start`, breadth first.
    #[verifier::rlimit(40)]
    fn explore(&self, start: usize) -> (reach: Reach)
        requires
            self.wf(),
            start < self.nodes().len(),
        ensures
            reach.wf(self, start as int),
            reach.closed(self),
            reach.layered(self),
            reach.depth@[start as int] == 0,
    {
        let n = self.node_count();
        let m = self.edge_count();
        let mut visited: Vec<bool> = Vec::new();
        let mut parent: Vec<usize> = Vec::new();
        let mut through: Vec<usize> = Vec::new();
        let mut i: usize = 0;
        while i < n
            invariant
                i <= n,
                visited@.len() == i,
                parent@.len() == i,
                through@.len() == i,
                forall|v: int| 0 <= v < i ==> !visited@[v],
            decreases n - i,
        {
            visited.push(false);
            parent.push(0);
            through.push(0);
            i = i + 1;
        }
        visited.set(start, true);
        let mut reach = Reach { visited, parent, through, depth: Ghost(Seq::new(n as nat, |v: int| 0nat)) };
        let mut queue: Vec<usize> = Vec::new();
        queue.push(start);
        assert(queue@[0] == start);
        let mut head: usize = 0;
        while head < queue.len()
            invariant
                self.wf(),
                n == self.nodes().len(),
                m == self.edges().len(),
                reach.wf(self, start as int),
                head <= queue@.len(),
                queue@.no_duplicates(),
                forall|i: int| 0 <= i < queue@.len() ==> (#[trigger] queue@[i]) < n && reach.visited@[queue@[i] as int],
                forall|v: int| 0 <= v < n && #[trigger] reach.visited@[v] ==> queue@.contains(v as usize),
                forall|i: int, k: int|
                    0 <= i < head && 0 <= k < m ==> {
                        let e = #[trigger] self.edges()[k];
                        &&& (e.0 == #[trigger] queue@[i] ==> reach.visited@[e.1]
                            && reach.depth@[e.1] <= reach.depth@[e.0] + 1)
                        &&& (e.1 == queue@[i] ==> reach.visited@[e.0] && reach.depth@[e.0]
                            <= reach.depth@[e.1] + 1)
                    },
                reach.depth@[start as int] == 0,
                forall|i: int, j: int|
                    0 <= i <= j < queue@.len() ==> #[trigger] depth_at(reach.depth@, queue@, i)
                        <= #[trigger] depth_at(reach.depth@, queue@, j),
                forall|j: int|
                    head < queue@.len() && 0 <= j < queue@.len() ==> #[trigger] depth_at(
                        reach.depth@,
                        queue@,
                        j,
                    ) <= depth_at(reach.depth@, queue@, head as int) + 1,
            decreases n - head,
        {
            proof {
                lemma_distinct_bounded(queue@, n as nat);
            }
            let u = queue[head];
            let mut k: usize = 0;
            while k < m
                invariant
                    self.wf(),
                    n == self.nodes().len(),
                    m == self.edges().len(),
                    k <= m,
                    reach.wf(self, start as int),
                    head < queue@.len(),
                    u == queue@[head as int],
                    queue@.no_duplicates(),
                    forall|i: int| 0 <= i < queue@.len() ==> (#[trigger] queue@[i]) < n && reach.visited@[queue@[i] as int],
                    forall|v: int| 0 <= v < n && #[trigger] reach.visited@[v] ==> queue@.contains(v as usize),
                    forall|i: int, k: int|
                        0 <= i < head && 0 <= k < m ==> {
                            let e = #[trigger] self.edges()[k];
                            &&& (e.0 == #[trigger] queue@[i] ==> reach.visited@[e.1]
                                && reach.depth@[e.1] <= reach.depth@[e.0] + 1)
                            &&& (e.1 == queue@[i] ==> reach.visited@[e.0] && reach.depth@[e.0]
                                <= reach.depth@[e.1] + 1)
                        },
                    forall|j: int|
                        0 <= j < k ==> {
                            let e = #[trigger] self.edges()[j];
                            &&& (e.0 == u ==> reach.visited@[e.1] && reach.depth@[e.1]
                                <= reach.depth@[e.0] + 1)
                            &&& (e.1 == u ==> reach.visited@[e.0] && reach.depth@[e.0]
                                <= reach.depth@[e.1] + 1)
                        },
                    reach.depth@[start as int] == 0,
                    forall|i: int, j: int|
                        0 <= i <= j < queue@.len() ==> #[trigger] depth_at(reach.depth@, queue@, i)
                            <= #[trigger] depth_at(reach.depth@, queue@, j),
                    forall|j: int|
                        0 <= j < queue@.len() ==> #[trigger] depth_at(reach.depth@, queue@, j)
                            <= reach.depth@[u as int] + 1,
                decreases m - k,
            {
                let edge = self.edge(k);
                let ghost e = self.edges()[k as int];
                let next = if edge.0 == u {
                    Some(edge.1)
                } else if edge.1 == u {
                    Some(edge.0)
                } else {
                    None
                };
                if let Some(v) = next {
                    proof {
                        if reach.visited@[v as int] {
                            assert(queue@.contains(v));
                            let at = choose|at: int| 0 <= at < queue@.len() && queue@[at] == v;
                            assert(depth_at(reach.depth@, queue@, at) <= reach.depth@[u as int] + 1);
                        }
                    }
                    if !reach.visited[v] {
                        let ghost before = reach.visited@;
                        let ghost queue_before = queue@;
                        let ghost depth_before = reach.depth@;
                        reach.visited.set(v, true);
                        reach.parent.set(v, u);
                        reach.through.set(v, k);
                        proof {
                            reach.depth@ = reach.depth@.update(v as int, reach.depth@[u as int] + 1);
                        }
                        queue.push(v);
                        proof {
                            assert(self.joins(k as int, u as int, v as int));
                            assert forall|w: int|
                                0 <= w < n && #[trigger] reach.visited@[w] implies queue@.contains(
                                w as usize,
                            ) by {
                                if w == v {
                                    assert(queue@[queue@.len() - 1] == v);
                                } else {
                                    assert(before[w]);
                                    assert(queue_before.contains(w as usize));
                                    let i = choose|i: int|
                                        0 <= i < queue_before.len() && queue_before[i] == w as usize;
                                    assert(queue@[i] == w as usize);
                                }
                            }
                            assert forall|i: int| 0 <= i < queue_before.len() implies depth_at(
                                reach.depth@,
                                queue@,
                                i,
                            ) == depth_at(depth_before, queue_before, i) by {
                                assert(before[queue_before[i] as int]);
                            }
                            assert(depth_at(reach.depth@, queue@, queue@.len() - 1)
                                == depth_before[u as int] + 1);
                            assert(depth_at(depth_before, queue_before, head as int)
                                == depth_before[u as int]);
                            assert(before[u as int]);
                            assert(reach.depth@[u as int] == depth_before[u as int]);
                            assert forall|j: int| 0 <= j < queue@.len() implies #[trigger] depth_at(
                                reach.depth@,
                                queue@,
                                j,
                            ) <= reach.depth@[u as int] + 1 by {
                                if j < queue_before.len() {
                                    assert(depth_at(depth_before, queue_before, j)
                                        <= depth_before[u as int] + 1);
                                }
                            }
                            assert forall|i: int, j: int|
                                0 <= i <= j < queue@.len() implies #[trigger] depth_at(
                                reach.depth@,
                                queue@,
                                i,
                            ) <= #[trigger] depth_at(reach.depth@, queue@, j) by {
                                if j < queue_before.len() {
                                    assert(depth_at(depth_before, queue_before, i) <= depth_at(
                                        depth_before,
                                        queue_before,
                                        j,
                                    ));
                                } else if i < queue_before.len() {
                                    assert(depth_at(depth_before, queue_before, i)
                                        <= depth_before[u as int] + 1);
                                }
                            }
                            assert(queue@.no_duplicates()) by {
                                assert forall|a: int, b: int|
                                    0 <= a < queue@.len() && 0 <= b < queue@.len() && a
                                        != b implies queue@[a] != queue@[b] by {
                                    if a < queue_before.len() {
                                        assert(before[queue_before[a] as int]);
                                    }
                                    if b < queue_before.len() {
                                        assert(before[queue_before[b] as int]);
                                    }
                                }
                            }
                        }
                    }
                }
                k = k + 1;
            }
            proof {
                assert(depth_at(reach.depth@, queue@, head as int) == reach.depth@[u as int]);
                assert forall|j: int|
                    head + 1 < queue@.len() && 0 <= j < queue@.len() implies #[trigger] depth_at(
                    reach.depth@,
                    queue@,
                    j,
                ) <= depth_at(reach.depth@, queue@, head + 1) + 1 by {
                    assert(depth_at(reach.depth@, queue@, head as int) <= depth_at(
                        reach.depth@,
                        queue@,
                        head + 1,
                    ));
                }
            }
            head = head + 1;
        }
        proof {
            assert forall|k: int| 0 <= k < self.edges().len() implies {
                let e = #[trigger] self.edges()[k];
                &&& (reach.visited@[e.0] ==> reach.depth@[e.1] <= reach.depth@[e.0] + 1)
                &&& (reach.visited@[e.1] ==> reach.depth@[e.0] <= reach.depth@[e.1] + 1)
            } by {
                let e = self.edges()[k];
                if reach.visited@[e.0] {
                    assert(queue@.contains(e.0 as usize));
                    let i = choose|i: int| 0 <= i < queue@.len() && queue@[i] == e.0 as usize;
                    assert(queue@[i] == e.0);
                }
                if reach.visited@[e.1] {
                    assert(queue@.contains(e.1 as usize));
                    let i = choose|i: int| 0 <= i < queue@.len() && queue@[i] == e.1 as usize;
                    assert(queue@[i] == e.1);
                }
            }
            assert forall|k: int| 0 <= k < self.edges().len() implies {
                let e = #[trigger] self.edges()[k];
                reach.visited@[e.0] == reach.visited@[e.1]
            } by {
                let e = self.edges()[k];
                if reach.visited@[e.0] {
                    assert(queue@.contains(e.0 as usize));
                    let i = choose|i: int| 0 <= i < queue@.len() && queue@[i] == e.0 as usize;
                    assert(queue@[i] == e.0);
                }
                if reach.visited@[e.1] {
                    assert(queue@.contains(e.1 as usize));
                    let i = choose|i: int| 0 <= i < queue@.len() && queue@[i] == e.1 as usize;
                    assert(queue@[i] == e.1);
                }
            }
        }
        reach
    }
}

impl Pathfinder {
    /// Finds a taxi route from one place to another for an aircraft that
    /// stands at `pos` with `heading`: one with the fewest steps.
    pub fn path_to(&self, from: Node<()>, to: Node<()>, pos: Point, heading: i64) -> (r: Option<Path>)
        requires
            self.wf(),
            pos.in_range(),
        ensures
            r is Some <==> self.routable(from, to),
            r matches Some(route) ==> self.is_route(from, to, pos, heading, route@),
            r matches Some(route) ==> self.fewest_steps(from, to, route@.path.len() as int),
            r matches Some(route) ==> route@.path.len() > 0 && route.final_pos.in_range()
                && forall|i: int|
                0 <= i < route@.path.len() ==> (#[trigger] route@.path[i]).data.in_range(),
    {
        let f = match self.find_node(&from) {
            Some(f) => f,
            None => {
                return None;
            },
        };
        let t = match self.find_node(&to) {
            Some(t) => t,
            None => {
                return None;
            },
        };
        if f == t {
            return None;
        }
        let reach = self.explore(f);
        if !reach.visited[t] {
            proof {
                if self.connected(f as int, t as int) {
                    let (nodes, edges) = choose|nodes: Seq<int>, edges: Seq<int>|
                        nodes.len() > 0 && #[trigger] self.is_walk(f as int, nodes, edges)
                            && nodes.last() == t;
                    lemma_walk_stays_found(
                        self,
                        &reach,
                        f as int,
                        f as int,
                        nodes,
                        edges,
                        nodes.len() - 1,
                    );
                }
            }
            return None;
        }
        let mut back_nodes: Vec<usize> = Vec::new();
        let mut back_edges: Vec<usize> = Vec::new();
        let mut at: usize = t;
        while at != f
            invariant
                self.wf(),
                reach.wf(self, f as int),
                at < self.nodes().len(),
                reach.visited@[at as int],
                back_nodes@.len() == back_edges@.len(),
                forall|i: int|
                    0 <= i < back_nodes@.len() ==> self.joins(
                        #[trigger] back_edges@[i] as int,
                        if i + 1 < back_nodes@.len() {
                            back_nodes@[i + 1] as int
                        } else {
                            at as int
                        },
                        back_nodes@[i] as int,
                    ),
                forall|i: int| 0 <= i < back_nodes@.len() ==> (#[trigger] back_nodes@[i]) < self.nodes().len(),
                back_nodes@.len() > 0 ==> back_nodes@[0] == t,
                back_nodes@.len() == 0 ==> at == t,
                back_nodes@.len() + reach.depth@[at as int] == reach.depth@[t as int],
            decreases reach.depth@[at as int],
        {
            back_nodes.push(at);
            back_edges.push(reach.through[at]);
            at = reach.parent[at];
        }
        let count = back_nodes.len();
        let ghost nodes = Seq::new(count as nat, |i: int| back_nodes@[count - 1 - i] as int);
        let ghost edges = Seq::new(count as nat, |i: int| back_edges@[count - 1 - i] as int);
        assert(self.is_walk(f as int, nodes, edges)) by {
            assert forall|i: int| 0 <= i < nodes.len() implies self.joins(
                #[trigger] edges[i],
                if i == 0 {
                    f as int
                } else {
                    nodes[i - 1]
                },
                nodes[i],
            ) by {
                let b = count - 1 - i;
                assert(self.joins(
                    back_edges@[b] as int,
                    if b + 1 < back_nodes@.len() {
                        back_nodes@[b + 1] as int
                    } else {
                        at as int
                    },
                    back_nodes@[b] as int,
                ));
            }
        }
        let ghost whole = self.walk_route(nodes, edges, to.behavior);
        let mut path: Vec<Node<Point>> = Vec::new();
        let mut i: usize = 0;
        while i < count
            invariant
                self.wf(),
                i <= count == back_nodes@.len() == back_edges@.len(),
                count == nodes.len(),
                self.is_walk(f as int, nodes, edges),
                nodes == Seq::new(count as nat, |i: int| back_nodes@[count - 1 - i] as int),
                edges == Seq::new(count as nat, |i: int| back_edges@[count - 1 - i] as int),
                forall|i: int| 0 <= i < back_nodes@.len() ==> (#[trigger] back_nodes@[i]) < self.nodes().len(),
                whole == self.walk_route(nodes, edges, to.behavior),
                path@ == whole.take(i as int),
                forall|j: int| 0 <= j < i ==> (#[trigger] path@[j]).data.in_range(),
            decreases count - i,
        {
            let b = count - 1 - i;
            assert(self.joins(edges[i as int], if i == 0 {
                f as int
            } else {
                nodes[i - 1]
            }, nodes[i as int]));
            let node = self.node(back_nodes[b]);
            let edge = self.edge(back_edges[b]);
            let behavior = if i == count - 1 {
                to.behavior
            } else {
                NodeBehavior::GoTo
            };
            path.push(Node { name: node.name, kind: node.kind, behavior, data: edge.2 });
            assert(path@ =~= whole.take(i + 1));
            i = i + 1;
        }
        assert(path@ =~= whole);
        let last = path[count - 1].data;
        let before = if count >= 2 {
            path[count - 2].data
        } else {
            pos
        };
        let final_heading = if before == last {
            heading
        } else {
            angle_between_points(before, last)
        };
        let route = Path { path, final_pos: last, final_heading };
        proof {
            assert(nodes.len() > 0);
            assert(nodes.last() == t);
            assert(route@.path == self.walk_route(nodes, edges, to.behavior));
            assert(route@.final_pos == route@.path.last().data);
            assert(route@.final_heading == arrival_heading(pos, heading, route@.path));
            assert(self.is_walk(self.index_of(from)->0, nodes, edges));
            assert(self.connected(f as int, t as int));
            assert(route@.path.len() == reach.depth@[t as int]);
            assert forall|other: Seq<int>, taken: Seq<int>|
                other.len() > 0 && #[trigger] self.is_walk(f as int, other, taken) && other.last()
                    == t implies route@.path.len() <= other.len() by {
                lemma_walk_no_shorter(self, &reach, f as int, other, taken, other.len() - 1);
            }
        }
        assert(self.is_route(from, to, pos, heading, route@));
        Some(route)
    }
}

} // verus!
