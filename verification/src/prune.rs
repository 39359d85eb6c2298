//! The pruning pass over the nodes of a genome: hidden nodes that feed no
//! action, and nodes that nothing feeds, are dropped.

use crate::assoc::find;
use crate::assoc::has_key;
use crate::assoc::keys_distinct;
use crate::net::NetGenome;
use crate::net::NeuralSource;
use crate::net::NeuralSourceGenome;
use crate::net::NeuralTarget;
use crate::net::NeuronID;
use crate::net::node_views;
use crate::net::nodes_wf;
use crate::net::NodeView;
use vstd::prelude::*;

verus! {

/// The hidden neuron `h` feeds an action: a synapse reads it into an action
/// node, or into a hidden node that feeds an action through at most `depth`
/// further nodes.
pub open spec fn feeds_action(nodes: Seq<NodeView>, h: NeuronID, depth: nat) -> bool
    decreases depth,
{
    exists|j: int|
        0 <= j < nodes.len() && has_key((#[trigger] nodes[j]).1, NeuralSource::Hidden(h))
            && match nodes[j].0 {
            NeuralTarget::Action(_) => true,
            NeuralTarget::Neuron(t) => depth > 0 && feeds_action(nodes, t, (depth - 1) as nat),
        }
}

/// The marks tell, for every hidden node, whether it feeds an action within
/// `depth` further nodes.
pub open spec fn marks_at(nodes: Seq<NodeView>, marks: Seq<bool>, depth: nat) -> bool {
    &&& marks.len() == nodes.len()
    &&& forall|j: int|
        0 <= j < nodes.len() ==> match (#[trigger] nodes[j]).0 {
            NeuralTarget::Action(_) => true,
            NeuralTarget::Neuron(t) => marks[j] == feeds_action(nodes, t, depth),
        }
}

/// Whether node `i` survives the pruning: it has a synapse, and it is an
/// action node or a hidden node that feeds an action through no more nodes
/// than there are.
pub open spec fn keeps(nodes: Seq<NodeView>, i: int) -> bool {
    &&& nodes[i].1.len() > 0
    &&& match nodes[i].0 {
        NeuralTarget::Action(_) => true,
        NeuralTarget::Neuron(h) => feeds_action(nodes, h, nodes.len()),
    }
}

/// The survivors among the first `n` nodes, in their order.
pub open spec fn kept_nodes(nodes: Seq<NodeView>, n: int) -> Seq<NodeView>
    decreases n,
{
    if n <= 0 {
        Seq::empty()
    } else if keeps(nodes, n - 1) {
        kept_nodes(nodes, n - 1).push(nodes[n - 1])
    } else {
        kept_nodes(nodes, n - 1)
    }
}

/// The nodes after pruning.
pub open spec fn pruned(nodes: Seq<NodeView>) -> Seq<NodeView> {
    kept_nodes(nodes, nodes.len() as int)
}

/// Every survivor is one of the first `n` nodes and passes the test, and the
/// survivors are well formed if the nodes are.
pub proof fn lemma_kept_nodes(nodes: Seq<NodeView>, n: int)
    requires
        0 <= n <= nodes.len(),
    ensures
        forall|p: int|
            0 <= p < kept_nodes(nodes, n).len() ==> exists|k: int|
                0 <= k < n && keeps(nodes, k) && #[trigger] kept_nodes(nodes, n)[p] == nodes[k],
        forall|k: int|
            0 <= k < n && keeps(nodes, k) ==> has_key(kept_nodes(nodes, n), (#[trigger] nodes[k]).0),
        nodes_wf(nodes) ==> nodes_wf(kept_nodes(nodes, n)),
    decreases n,
{
    if n > 0 {
        lemma_kept_nodes(nodes, n - 1);
        let before = kept_nodes(nodes, n - 1);
        let after = kept_nodes(nodes, n);
        assert forall|p: int| 0 <= p < after.len() implies exists|k: int|
            0 <= k < n && keeps(nodes, k) && #[trigger] after[p] == nodes[k] by {
            if p < before.len() {
                let k = choose|k: int| 0 <= k < n - 1 && keeps(nodes, k) && before[p] == nodes[k];
                assert(after[p] == nodes[k]);
            } else {
                assert(after[p] == nodes[n - 1]);
            }
        }
        assert forall|k: int| 0 <= k < n && keeps(nodes, k) implies has_key(
            after,
            (#[trigger] nodes[k]).0,
        ) by {
            if k < n - 1 {
                let p = choose|p: int|
                    0 <= p < before.len() && (#[trigger] before[p]).0 == nodes[k].0;
                assert(after[p].0 == nodes[k].0);
            } else {
                assert(after[after.len() - 1].0 == nodes[k].0);
            }
        }
        if nodes_wf(nodes) {
            assert forall|p: int, q: int| 0 <= p < q < after.len() implies (#[trigger] after[p]).0
                != (#[trigger] after[q]).0 by {
                let kp = choose|k: int|
                    0 <= k < n - 1 && keeps(nodes, k) && before[p] == nodes[k];
                if q < before.len() {
                    assert(before[p].0 != before[q].0);
                } else {
                    assert(nodes[kp].0 != nodes[n - 1].0);
                }
            }
            assert forall|p: int| 0 <= p < after.len() implies keys_distinct(
                (#[trigger] after[p]).1,
            ) by {
                let k = choose|k: int| 0 <= k < n && keeps(nodes, k) && after[p] == nodes[k];
                assert(keys_distinct(nodes[k].1));
            }
        }
    }
}

/// Whether some node reads the hidden neuron `h` towards an action. On the
/// first sweep only action nodes count; later the marks of the sweep before
/// tell which hidden nodes pass a signal on.
fn read_on(
    nodes: &Vec<(NeuralTarget, NeuralSourceGenome)>,
    marks: &Vec<bool>,
    h: NeuronID,
    first: bool,
    Ghost(depth): Ghost<nat>,
) -> (b: bool)
    requires
        marks.len() == nodes.len(),
        first ==> depth == 0,
        !first ==> depth > 0 && marks_at(node_views(nodes@), marks@, (depth - 1) as nat),
    ensures
        b == feeds_action(node_views(nodes@), h, depth),
{
    let ghost views = node_views(nodes@);
    let mut j: usize = 0;
    while j < nodes.len()
        invariant
            j <= nodes.len(),
            views == node_views(nodes@),
            marks.len() == nodes.len(),
            first ==> depth == 0,
            !first ==> depth > 0 && marks_at(views, marks@, (depth - 1) as nat),
            forall|k: int|
                0 <= k < j ==> !(has_key((#[trigger] views[k]).1, NeuralSource::Hidden(h))
                    && match views[k].0 {
                    NeuralTarget::Action(_) => true,
                    NeuralTarget::Neuron(t) => depth > 0 && feeds_action(
                        views,
                        t,
                        (depth - 1) as nat,
                    ),
                }),
        decreases nodes.len() - j,
    {
        let reads = find(&nodes[j].1.inputs, &NeuralSource::Hidden(h)).is_some();
        assert(views[j as int] == (nodes[j as int].0, nodes[j as int].1@));
        let onward = match nodes[j].0 {
            NeuralTarget::Action(_) => true,
            NeuralTarget::Neuron(_) => !first && marks[j],
        };
        if reads && onward {
            return true;
        }
        j += 1;
    }
    false
}

/// One sweep over the nodes: the marks one node deeper.
fn sweep(
    nodes: &Vec<(NeuralTarget, NeuralSourceGenome)>,
    marks: &Vec<bool>,
    first: bool,
    Ghost(depth): Ghost<nat>,
) -> (next: Vec<bool>)
    requires
        marks.len() == nodes.len(),
        first ==> depth == 0,
        !first ==> depth > 0 && marks_at(node_views(nodes@), marks@, (depth - 1) as nat),
    ensures
        marks_at(node_views(nodes@), next@, depth),
{
    let ghost views = node_views(nodes@);
    let mut next: Vec<bool> = Vec::new();
    let mut k: usize = 0;
    while k < nodes.len()
        invariant
            k <= nodes.len(),
            views == node_views(nodes@),
            marks.len() == nodes.len(),
            next.len() == k,
            first ==> depth == 0,
            !first ==> depth > 0 && marks_at(views, marks@, (depth - 1) as nat),
            forall|j: int|
                0 <= j < k ==> match (#[trigger] views[j]).0 {
                    NeuralTarget::Action(_) => true,
                    NeuralTarget::Neuron(t) => next[j] == feeds_action(views, t, depth),
                },
        decreases nodes.len() - k,
    {
        assert(views[k as int] == (nodes[k as int].0, nodes[k as int].1@));
        let mark = match nodes[k].0 {
            NeuralTarget::Action(_) => true,
            NeuralTarget::Neuron(h) => read_on(nodes, marks, h, first, Ghost(depth)),
        };
        next.push(mark);
        k += 1;
    }
    next
}

impl NetGenome {
    /// Prunes the nodes: drops every hidden node that feeds no action,
    /// directly or through other hidden nodes, and every node without a
    /// synapse. The order of the survivors is kept.
    pub fn clear(&mut self)
        requires
            old(self).wf(),
        ensures
            final(self)@.nodes == pruned(old(self)@.nodes),
            final(self)@.color == old(self)@.color,
            final(self).wf(),
    {
        let ghost views = self@.nodes;
        let n: usize = self.nodes.len();
        let mut marks: Vec<bool> = Vec::new();
        let mut i: usize = 0;
        while i < n
            invariant
                i <= n,
                marks.len() == i,
            decreases n - i,
        {
            marks.push(false);
            i += 1;
        }
        marks = sweep(&self.nodes, &marks, true, Ghost(0nat));
        let mut round: usize = 0;
        while round < n
            invariant
                round <= n,
                n == self.nodes.len(),
                views == node_views(self.nodes@),
                marks_at(views, marks@, round as nat),
            decreases n - round,
        {
            marks = sweep(&self.nodes, &marks, false, Ghost((round + 1) as nat));
            round += 1;
        }
        let mut kept: Vec<(NeuralTarget, NeuralSourceGenome)> = Vec::new();
        let mut i: usize = 0;
        while i < n
            invariant
                i <= n,
                n == self.nodes.len(),
                views == node_views(self.nodes@),
                marks_at(views, marks@, n as nat),
                node_views(kept@) == kept_nodes(views, i as int),
            decreases n - i,
        {
            assert(views[i as int] == (self.nodes[i as int].0, self.nodes[i as int].1@));
            let keep = self.nodes[i].1.inputs.len() > 0 && match self.nodes[i].0 {
                NeuralTarget::Action(_) => true,
                NeuralTarget::Neuron(_) => marks[i],
            };
            assert(keep == keeps(views, i as int));
            if keep {
                let node = self.nodes[i].1.clone();
                let ghost before = kept@;
                kept.push((self.nodes[i].0, node));
                proof {
                    assert(node_views(before).len() == before.len());
                    assert forall|p: int| 0 <= p < before.len() implies node_views(kept@)[p]
                        == node_views(before)[p] by {
                        assert(kept@[p] == before[p]);
                    }
                    assert(node_views(kept@) =~= node_views(before).push(views[i as int]));
                }
            }
            i += 1;
        }
        proof {
            lemma_kept_nodes(views, n as int);
        }
        self.nodes = kept;
    }
}

} // verus!
