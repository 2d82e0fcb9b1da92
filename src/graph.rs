use vstd::prelude::*;
use vstd::string::*;
use crate::util::IDGen;

verus! {

/// Plain value of a graph.
pub ghost struct GraphView<T> {
    /// Node slots; a removed node leaves `None`.
    pub nodes: Seq<Option<T>>,
    /// `edges[i][j]`: an edge runs from node `i` to node `j`.
    pub edges: Seq<Seq<bool>>,
    /// Slots freed by removals, in the order in which they will be reused.
    pub free: Seq<usize>,
}

/// `i` names a node that is present.
pub open spec fn is_node<T>(v: GraphView<T>, i: int) -> bool {
    0 <= i < v.nodes.len() && v.nodes[i] is Some
}

/// The matrix grown by one row and one column of `false`.
pub open spec fn grown(e: Seq<Seq<bool>>, n: int) -> Seq<Seq<bool>> {
    Seq::new(
        (n + 1) as nat,
        |i: int| Seq::new((n + 1) as nat, |j: int| if i < n && j < n { e[i][j] } else { false }),
    )
}

/// The matrix with row and column `k` cleared.
pub open spec fn cleared(e: Seq<Seq<bool>>, n: int, k: int) -> Seq<Seq<bool>> {
    Seq::new(
        n as nat,
        |i: int| Seq::new(n as nat, |j: int| if i == k || j == k { false } else { e[i][j] }),
    )
}

/// The matrix with entry (`i`, `j`) set to `b`.
pub open spec fn with_edge(e: Seq<Seq<bool>>, i: int, j: int, b: bool) -> Seq<Seq<bool>> {
    e.update(i, e[i].update(j, b))
}

/// Positions below `k` at which `row` holds `true`, in increasing order.
pub open spec fn true_positions(row: Seq<bool>, k: int) -> Seq<usize>
    decreases k,
{
    if k <= 0 {
        Seq::empty()
    } else {
        true_positions(row, k - 1) + if row[k - 1] {
            seq![(k - 1) as usize]
        } else {
            Seq::empty()
        }
    }
}

/// A directed graph on numbered nodes, stored as an adjacency matrix. Removed nodes leave their
/// slot empty, and their number is reused by a later addition.
#[derive(Debug, Clone)]
pub struct Graph<T> {
    nodes: Vec<Option<T>>,
    adj_mat: Vec<Vec<bool>>,
    id_gen: IDGen,
}

impl<T> View for Graph<T> {
    type V = GraphView<T>;

    closed spec fn view(&self) -> GraphView<T> {
        GraphView {
            nodes: self.nodes@,
            edges: Seq::new(self.adj_mat@.len(), |i: int| self.adj_mat@[i]@),
            free: self.id_gen@.available,
        }
    }
}

fn false_row(n: usize) -> (r: Vec<bool>)
    ensures
        r@ == Seq::new(n as nat, |j: int| false),
{
    let mut r: Vec<bool> = Vec::new();
    let mut k: usize = 0;
    while k < n
        invariant
            k <= n,
            r@ == Seq::new(k as nat, |j: int| false),
        decreases n - k,
    {
        r.push(false);
        k = k + 1;
        assert(r@ =~= Seq::new(k as nat, |j: int| false));
    }
    r
}

fn copy_row(row: &Vec<bool>) -> (r: Vec<bool>)
    ensures
        r@ == row@,
{
    let mut r: Vec<bool> = Vec::new();
    let mut k: usize = 0;
    while k < row.len()
        invariant
            k <= row@.len(),
            r@ == row@.take(k as int),
        decreases row@.len() - k,
    {
        r.push(row[k]);
        k = k + 1;
        assert(r@ =~= row@.take(k as int));
    }
    assert(row@.take(row@.len() as int) =~= row@);
    r
}

impl<T> Graph<T> {
    /// Rows and slots agree in number, the free slots are empty, and fresh numbers start at the
    /// number of slots.
    pub closed spec fn wf(&self) -> bool {
        &&& self.adj_mat@.len() == self.nodes@.len()
        &&& self.id_gen@.current == self.nodes@.len()
        &&& forall|i: int| 0 <= i < self.adj_mat@.len() ==> #[trigger] self.adj_mat@[i]@.len() == self.nodes@.len()
        &&& forall|k: int| 0 <= k < self.id_gen@.available.len() ==> {
            let f = #[trigger] self.id_gen@.available[k];
            &&& f < self.nodes@.len()
            &&& self.nodes@[f as int] is None
        }
        &&& forall|k1: int, k2: int|
            0 <= k1 < k2 < self.id_gen@.available.len() ==> #[trigger] self.id_gen@.available[k1]
                != #[trigger] self.id_gen@.available[k2]
    }

    pub fn new() -> (r: Self)
        ensures
            r.wf(),
            r@ == (GraphView::<T> { nodes: Seq::empty(), edges: Seq::empty(), free: Seq::empty() }),
    {
        let r = Graph { nodes: Vec::new(), adj_mat: Vec::new(), id_gen: IDGen::new() };
        assert(r@.edges =~= Seq::<Seq<bool>>::empty());
        r
    }

    /// Whether `node_id` names a node that is present.
    fn validate_node_id(&self, node_id: usize) -> (r: bool)
        ensures
            r == is_node(self@, node_id as int),
    {
        if node_id < self.nodes.len() {
            self.nodes[node_id].is_some()
        } else {
            false
        }
    }

    /// Adds a node and returns its number: the oldest freed slot if there is one, else a new
    /// slot with no edges. Fails once the fresh numbers are used up.
    pub fn add_node(&mut self, val: T) -> (r: Result<usize, String>)
        requires
            old(self).wf(),
        ensures
            final(self).wf(),
            old(self)@.nodes.len() == usize::MAX ==> r is Err && final(self)@ == old(self)@,
            old(self)@.nodes.len() < usize::MAX && old(self)@.free.len() > 0 ==> r == Ok::<
                usize,
                String,
            >(old(self)@.free[0]) && final(self)@ == (GraphView {
                nodes: old(self)@.nodes.update(old(self)@.free[0] as int, Some(val)),
                edges: old(self)@.edges,
                free: old(self)@.free.drop_first(),
            }),
            old(self)@.nodes.len() < usize::MAX && old(self)@.free.len() == 0 ==> r == Ok::<
                usize,
                String,
            >(old(self)@.nodes.len() as usize) && final(self)@ == (GraphView {
                nodes: old(self)@.nodes.push(Some(val)),
                edges: grown(old(self)@.edges, old(self)@.nodes.len() as int),
                free: old(self)@.free,
            }),
    {
        let ghost old_edges = self@.edges;
        match self.id_gen.get_id() {
            Ok(id) => {
                let n = self.nodes.len();
                if id == n {
                    self.nodes.push(Some(val));
                    let mut rows: Vec<Vec<bool>> = Vec::new();
                    let mut i: usize = 0;
                    while i < n
                        invariant
                            i <= n,
                            n == self.adj_mat@.len(),
                            forall|k: int| 0 <= k < n ==> #[trigger] self.adj_mat@[k]@.len() == n,
                            rows@.len() == i,
                            old_edges == Seq::new(self.adj_mat@.len(), |k: int| self.adj_mat@[k]@),
                            forall|k: int| 0 <= k < i ==> #[trigger] rows@[k]@ == grown(old_edges, n as int)[k],
                        decreases n - i,
                    {
                        let mut row = copy_row(&self.adj_mat[i]);
                        row.push(false);
                        assert(row@ =~= grown(old_edges, n as int)[i as int]);
                        rows.push(row);
                        i = i + 1;
                    }
                    let last = false_row(n + 1);
                    rows.push(last);
                    assert(rows@[n as int]@ =~= grown(old_edges, n as int)[n as int]);
                    self.adj_mat = rows;
                    assert(self@.edges =~= grown(old_edges, n as int));
                    assert forall|k: int| 0 <= k < self.adj_mat@.len() implies #[trigger] self.adj_mat@[k]@.len()
                        == self.nodes@.len() by {
                        assert(self.adj_mat@[k]@ == self@.edges[k]);
                    }
                    assert(self@.nodes =~= old(self)@.nodes.push(Some(val)));
                } else {
                    self.nodes.set(id, Some(val));
                    assert(self.id_gen@.available =~= old(self).id_gen@.available.drop_first());
                    assert forall|k1: int, k2: int|
                        0 <= k1 < k2 < self.id_gen@.available.len() implies #[trigger] self.id_gen@.available[k1]
                            != #[trigger] self.id_gen@.available[k2] by {
                        assert(self.id_gen@.available[k1] == old(self).id_gen@.available[k1 + 1]);
                        assert(self.id_gen@.available[k2] == old(self).id_gen@.available[k2 + 1]);
                    }
                    assert forall|k: int| 0 <= k < self.id_gen@.available.len() implies {
                        let f = #[trigger] self.id_gen@.available[k];
                        &&& f < self.nodes@.len()
                        &&& self.nodes@[f as int] is None
                    } by {
                        assert(self.id_gen@.available[k] == old(self).id_gen@.available[k + 1]);
                        assert(old(self).id_gen@.available[k + 1] != old(self).id_gen@.available[0]);
                    }
                }
                Ok(id)
            },
            Err(_) => Err(String::from_str("Max Nodes Reached!")),
        }
    }

    /// Sets one entry of the matrix.
    fn set_edge(&mut self, i: usize, j: usize, b: bool)
        requires
            old(self).wf(),
            i < old(self)@.nodes.len(),
            j < old(self)@.nodes.len(),
        ensures
            final(self).wf(),
            final(self)@ == (GraphView {
                edges: with_edge(old(self)@.edges, i as int, j as int, b),
                ..old(self)@
            }),
    {
        let mut row = copy_row(&self.adj_mat[i]);
        row.set(j, b);
        self.adj_mat.set(i, row);
        assert(self@.edges =~= with_edge(old(self)@.edges, i as int, j as int, b));
        assert forall|k: int| 0 <= k < self.adj_mat@.len() implies #[trigger] self.adj_mat@[k]@.len()
            == self.nodes@.len() by {
            if k != i {
                assert(self.adj_mat@[k] == old(self).adj_mat@[k]);
            }
        }
    }

    /// Removes a node that is present: its slot is emptied, its edges in both directions go, and
    /// its number joins the free slots. Any other number leaves the graph as it was.
    pub fn remove_node(&mut self, node_id: usize)
        requires
            old(self).wf(),
        ensures
            final(self).wf(),
            final(self)@ == if is_node(old(self)@, node_id as int) {
                GraphView {
                    nodes: old(self)@.nodes.update(node_id as int, None),
                    edges: cleared(old(self)@.edges, old(self)@.nodes.len() as int, node_id as int),
                    free: old(self)@.free.push(node_id),
                }
            } else {
                old(self)@
            },
    {
        if !self.validate_node_id(node_id) {
            return;
        }
        let n = self.nodes.len();
        let ghost e0 = self@.edges;
        self.nodes.set(node_id, None);
        let mut rows: Vec<Vec<bool>> = Vec::new();
        let mut i: usize = 0;
        while i < n
            invariant
                i <= n,
                node_id < n,
                n == self.adj_mat@.len(),
                forall|k: int| 0 <= k < n ==> #[trigger] self.adj_mat@[k]@.len() == n,
                rows@.len() == i,
                e0 == Seq::new(self.adj_mat@.len(), |k: int| self.adj_mat@[k]@),
                forall|k: int| 0 <= k < i ==> #[trigger] rows@[k]@ == cleared(e0, n as int, node_id as int)[k],
            decreases n - i,
        {
            let row = if i == node_id {
                false_row(n)
            } else {
                let mut r = copy_row(&self.adj_mat[i]);
                r.set(node_id, false);
                r
            };
            assert(row@ =~= cleared(e0, n as int, node_id as int)[i as int]);
            rows.push(row);
            i = i + 1;
        }
        self.adj_mat = rows;
        assert(self@.edges =~= cleared(e0, n as int, node_id as int));
        proof {
            assert(!old(self).id_gen@.available.contains(node_id)) by {
                if old(self).id_gen@.available.contains(node_id) {
                    let k = choose|k: int| 0 <= k < old(self).id_gen@.available.len() && old(self).id_gen@.available[k] == node_id;
                    assert(old(self).id_gen@.available[k] == node_id);
                }
            }
        }
        self.id_gen.return_id(node_id);
        assert forall|k: int| 0 <= k < self.adj_mat@.len() implies #[trigger] self.adj_mat@[k]@.len()
            == self.nodes@.len() by {
            assert(self.adj_mat@[k]@ == self@.edges[k]);
        }
        assert forall|k: int| 0 <= k < self.id_gen@.available.len() implies {
            let f = #[trigger] self.id_gen@.available[k];
            &&& f < self.nodes@.len()
            &&& self.nodes@[f as int] is None
        } by {
            if k < old(self).id_gen@.available.len() {
                assert(self.id_gen@.available[k] == old(self).id_gen@.available[k]);
            }
        }
        assert forall|k1: int, k2: int|
            0 <= k1 < k2 < self.id_gen@.available.len() implies #[trigger] self.id_gen@.available[k1]
                != #[trigger] self.id_gen@.available[k2] by {
            assert(self.id_gen@.available[k1] == old(self).id_gen@.available[k1]);
            if k2 < old(self).id_gen@.available.len() {
                assert(self.id_gen@.available[k2] == old(self).id_gen@.available[k2]);
            }
        }
    }

    /// Adds the edge from `src_node` to `dest_node` when both are present.
    pub fn add_edge(&mut self, src_node: usize, dest_node: usize)
        requires
            old(self).wf(),
        ensures
            final(self).wf(),
            final(self)@ == if is_node(old(self)@, src_node as int) && is_node(old(self)@, dest_node as int) {
                GraphView {
                    edges: with_edge(old(self)@.edges, src_node as int, dest_node as int, true),
                    ..old(self)@
                }
            } else {
                old(self)@
            },
    {
        if !self.validate_node_id(src_node) || !self.validate_node_id(dest_node) {
            return;
        }
        self.set_edge(src_node, dest_node, true);
    }

    /// Adds the edges in both directions between two nodes when both are present.
    pub fn add_dual_edge(&mut self, node_0: usize, node_1: usize)
        requires
            old(self).wf(),
        ensures
            final(self).wf(),
            final(self)@ == if is_node(old(self)@, node_0 as int) && is_node(old(self)@, node_1 as int) {
                GraphView {
                    edges: with_edge(
                        with_edge(old(self)@.edges, node_0 as int, node_1 as int, true),
                        node_1 as int,
                        node_0 as int,
                        true,
                    ),
                    ..old(self)@
                }
            } else {
                old(self)@
            },
    {
        if !self.validate_node_id(node_0) || !self.validate_node_id(node_1) {
            return;
        }
        self.add_edge(node_0, node_1);
        self.add_edge(node_1, node_0);
    }

    /// Removes the edge from `src_node` to `dest_node` when both are present.
    pub fn remove_edge(&mut self, src_node: usize, dest_node: usize)
        requires
            old(self).wf(),
        ensures
            final(self).wf(),
            final(self)@ == if is_node(old(self)@, src_node as int) && is_node(old(self)@, dest_node as int) {
                GraphView {
                    edges: with_edge(old(self)@.edges, src_node as int, dest_node as int, false),
                    ..old(self)@
                }
            } else {
                old(self)@
            },
    {
        if !self.validate_node_id(src_node) || !self.validate_node_id(dest_node) {
            return;
        }
        self.set_edge(src_node, dest_node, false);
    }

    /// Removes the edges in both directions between two nodes when both are present.
    pub fn remove_dual_edge(&mut self, node_0: usize, node_1: usize)
        requires
            old(self).wf(),
        ensures
            final(self).wf(),
            final(self)@ == if is_node(old(self)@, node_0 as int) && is_node(old(self)@, node_1 as int) {
                GraphView {
                    edges: with_edge(
                        with_edge(old(self)@.edges, node_0 as int, node_1 as int, false),
                        node_1 as int,
                        node_0 as int,
                        false,
                    ),
                    ..old(self)@
                }
            } else {
                old(self)@
            },
    {
        if !self.validate_node_id(node_0) || !self.validate_node_id(node_1) {
            return;
        }
        self.remove_edge(node_0, node_1);
        self.remove_edge(node_1, node_0);
    }

    /// The numbers of the nodes that `node_id` has an edge to, in increasing order; `None` when
    /// `node_id` is not present.
    pub fn connected_nodes(&self, node_id: usize) -> (r: Option<Vec<usize>>)
        requires
            self.wf(),
        ensures
            match r {
                Some(v) => is_node(self@, node_id as int) && v@ == true_positions(
                    self@.edges[node_id as int],
                    self@.nodes.len() as int,
                ),
                None => !is_node(self@, node_id as int),
            },
    {
        if !self.validate_node_id(node_id) {
            return None;
        }
        let row = &self.adj_mat[node_id];
        assert(row@ == self@.edges[node_id as int]);
        let mut out: Vec<usize> = Vec::new();
        let mut j: usize = 0;
        while j < row.len()
            invariant
                j <= row@.len(),
                out@ == true_positions(row@, j as int),
            decreases row@.len() - j,
        {
            if row[j] {
                out.push(j);
            }
            j = j + 1;
            assert(true_positions(row@, j as int) =~= true_positions(row@, j - 1) + if row@[j - 1] {
                seq![(j - 1) as usize]
            } else {
                Seq::empty()
            });
            assert(out@ =~= true_positions(row@, j as int));
        }
        Some(out)
    }

    /// The value of a node that is present.
    pub fn get(&self, node_id: usize) -> (r: Option<&T>)
        ensures
            match r {
                Some(v) => is_node(self@, node_id as int) && self@.nodes[node_id as int] == Some(*v),
                None => !is_node(self@, node_id as int),
            },
    {
        if !self.validate_node_id(node_id) {
            return None;
        }
        self.nodes[node_id].as_ref()
    }

    /// The value of a node that is present, to change in place.
    pub fn get_mut(&mut self, node_id: usize) -> (r: Option<&mut T>)
        requires
            old(self).wf(),
        ensures
            final(self).wf(),
            match r {
                Some(m) => is_node(old(self)@, node_id as int) && old(self)@.nodes[node_id as int]
                    == Some(*m) && final(self)@ == (GraphView {
                    nodes: old(self)@.nodes.update(node_id as int, Some(*final(m))),
                    ..old(self)@
                }),
                None => !is_node(old(self)@, node_id as int) && final(self)@ == old(self)@,
            },
    {
        if !self.validate_node_id(node_id) {
            return None;
        }
        self.nodes[node_id].as_mut()
    }

    /// Whether an edge runs from `node_src` to `node_dest`, both being present.
    pub fn is_connected(&self, node_src: usize, node_dest: usize) -> (r: bool)
        requires
            self.wf(),
        ensures
            r == (is_node(self@, node_src as int) && is_node(self@, node_dest as int)
                && self@.edges[node_src as int][node_dest as int]),
    {
        if !self.validate_node_id(node_src) || !self.validate_node_id(node_dest) {
            return false;
        }
        self.adj_mat[node_src][node_dest]
    }
}

impl<T> Default for Graph<T> {
    fn default() -> (r: Self)
        ensures
            r.wf(),
            r@ == (GraphView::<T> { nodes: Seq::empty(), edges: Seq::empty(), free: Seq::empty() }),
    {
        Self::new()
    }
}

} // verus!
