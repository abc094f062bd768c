//! The layout of flat CFR+ storage: every node of a game tree owns one
//! contiguous block of `actions * hands` entries, laid out node after node.
//! Entry `(node, hand, action)` lives at `offsets[node] + hand * actions + action`.
//! The regret and strategy values stored in such a layout are kept by the
//! caller; this module decides where each value lives.

use vstd::prelude::*;

verus! {

/// Number of entries a node with `actions` actions and `hands` hands owns.
pub open spec fn node_size(node: (u8, u16)) -> int {
    node.0 as int * node.1 as int
}

/// Number of entries owned by the first `n` nodes.
pub open spec fn prefix_size(nodes: Seq<(u8, u16)>, n: int) -> int
    decreases n,
{
    if n <= 0 {
        0
    } else {
        prefix_size(nodes, n - 1) + node_size(nodes[n - 1])
    }
}

/// Position of entry `(node, hand, action)` in the flat arrays.
pub open spec fn slot_of(nodes: Seq<(u8, u16)>, node: int, hand: int, action: int) -> int {
    prefix_size(nodes, node) + hand * nodes[node].0 as int + action
}

/// A valid entry: an existing node, one of its hands and one of its actions.
pub open spec fn valid_entry(nodes: Seq<(u8, u16)>, node: int, hand: int, action: int) -> bool {
    0 <= node < nodes.len() && 0 <= hand < nodes[node].1 as int && 0 <= action < nodes[node].0 as int
}

/// The layout of flat CFR+ arrays for a list of `(actions, hands)` nodes.
#[derive(Clone)]
pub struct FlatCfr {
    num_actions: Vec<u8>,
    num_hands: Vec<u16>,
    offsets: Vec<u32>,
    entries: usize,
}

impl FlatCfr {
    /// The `(actions, hands)` of each node.
    pub closed spec fn nodes(&self) -> Seq<(u8, u16)> {
        Seq::new(self.num_actions@.len(), |i: int| (self.num_actions@[i], self.num_hands@[i]))
    }

    /// Each node's offset is the number of entries before it, and the total
    /// fits the `u32` offsets.
    pub closed spec fn wf(&self) -> bool {
        &&& self.num_hands@.len() == self.num_actions@.len()
        &&& self.offsets@.len() == self.num_actions@.len()
        &&& forall|i: int| 0 <= i < self.offsets@.len() ==> self.offsets@[i] as int == #[trigger] prefix_size(self.nodes(), i)
        &&& self.entries as int == prefix_size(self.nodes(), self.num_actions@.len() as int)
        &&& self.entries <= u32::MAX
    }

    /// Number of entries in each of the flat arrays.
    pub closed spec fn entry_count(&self) -> int {
        self.entries as int
    }

    /// The layout for the given nodes, in order.
    pub fn new(nodes: &[(u8, u16)]) -> (c: FlatCfr)
        requires
            prefix_size(nodes@, nodes@.len() as int) <= u32::MAX,
        ensures
            c.wf(),
            c.nodes() == nodes@,
            c.entry_count() == prefix_size(nodes@, nodes@.len() as int),
    {
        let mut offsets: Vec<u32> = Vec::new();
        let mut num_actions: Vec<u8> = Vec::new();
        let mut num_hands: Vec<u16> = Vec::new();
        let mut offset: u32 = 0;
        let mut i: usize = 0;
        while i < nodes.len()
            invariant
                i <= nodes@.len(),
                prefix_size(nodes@, nodes@.len() as int) <= u32::MAX,
                offsets@.len() == i,
                num_actions@.len() == i,
                num_hands@.len() == i,
                offset as int == prefix_size(nodes@, i as int),
                forall|k: int| 0 <= k < i ==> num_actions@[k] == nodes@[k].0 && num_hands@[k] == nodes@[k].1,
                forall|k: int| 0 <= k < i ==> offsets@[k] as int == #[trigger] prefix_size(nodes@, k),
            decreases nodes@.len() - i,
        {
            let (actions, hands) = nodes[i];
            offsets.push(offset);
            num_actions.push(actions);
            num_hands.push(hands);
            proof {
                lemma_prefix_monotone(nodes@, i as int + 1, nodes@.len() as int);
                assert(node_size(nodes@[i as int]) >= 0) by (nonlinear_arith)
                    requires
                        node_size(nodes@[i as int]) == nodes@[i as int].0 as int * nodes@[i as int].1 as int,
                ;
            }
            offset = offset + actions as u32 * hands as u32;
            i = i + 1;
        }
        let c = FlatCfr { num_actions, num_hands, offsets, entries: offset as usize };
        assert(c.nodes() =~= nodes@);
        c
    }

    /// Number of nodes.
    pub fn num_nodes(&self) -> (n: usize)
        requires
            self.wf(),
        ensures
            n == self.nodes().len(),
    {
        self.offsets.len()
    }

    /// Number of actions at a node.
    pub fn node_num_actions(&self, node: usize) -> (a: u8)
        requires
            self.wf(),
            node < self.nodes().len(),
        ensures
            a == self.nodes()[node as int].0,
    {
        self.num_actions[node]
    }

    /// Number of entries in each of the regret and strategy arrays.
    pub fn total_entries(&self) -> (n: usize)
        requires
            self.wf(),
        ensures
            n == self.entry_count(),
    {
        self.entries
    }

    /// Bytes used by the two `f32` arrays and the node tables: four bytes per
    /// entry in each array, then one, two and four bytes per node.
    pub fn memory_bytes(&self) -> (b: usize)
        requires
            self.wf(),
            8 * self.entry_count() + 7 * self.nodes().len() <= usize::MAX,
        ensures
            b == 8 * self.entry_count() + 7 * self.nodes().len(),
    {
        self.entries * 4 * 2 + self.num_actions.len() + self.num_hands.len() * 2 + self.offsets.len() * 4
    }

    /// Position in the flat arrays where the entries of `hand` at `node` start.
    pub fn base(&self, node: usize, hand: usize) -> (i: usize)
        requires
            self.wf(),
            node < self.nodes().len(),
            prefix_size(self.nodes(), node as int) + hand * self.nodes()[node as int].0 as int <= usize::MAX,
        ensures
            i == prefix_size(self.nodes(), node as int) + hand * self.nodes()[node as int].0 as int,
    {
        self.offsets[node] as usize + hand * self.num_actions[node] as usize
    }
}

/// More nodes never own fewer entries.
pub proof fn lemma_prefix_monotone(nodes: Seq<(u8, u16)>, i: int, j: int)
    requires
        0 <= i <= j <= nodes.len(),
    ensures
        prefix_size(nodes, i) <= prefix_size(nodes, j),
    decreases j - i,
{
    if i < j {
        lemma_prefix_monotone(nodes, i, j - 1);
        assert(node_size(nodes[j - 1]) >= 0) by (nonlinear_arith)
            requires
                node_size(nodes[j - 1]) == nodes[j - 1].0 as int * nodes[j - 1].1 as int,
        ;
    }
}

/// A valid entry of a node lies inside the node's block.
proof fn lemma_slot_in_block(nodes: Seq<(u8, u16)>, node: int, hand: int, action: int)
    requires
        valid_entry(nodes, node, hand, action),
    ensures
        prefix_size(nodes, node) <= slot_of(nodes, node, hand, action) < prefix_size(nodes, node + 1),
{
    let na = nodes[node].0 as int;
    let nh = nodes[node].1 as int;
    assert(hand * na + action < nh * na) by (nonlinear_arith)
        requires
            0 <= hand < nh,
            0 <= action < na,
    {
        assert(hand * na + action < hand * na + na);
        assert(hand * na + na == (hand + 1) * na);
        assert((hand + 1) * na <= nh * na);
    }
    assert(hand * na >= 0) by (nonlinear_arith)
        requires
            0 <= hand,
            0 <= na,
    ;
    assert(node_size(nodes[node]) == na * nh);
    assert(na * nh == nh * na) by (nonlinear_arith);
}

/// Every valid entry has a slot of its own inside the arrays: two different
/// entries never share a slot, so updating one info set leaves every other
/// untouched.
pub proof fn law_slots_disjoint(
    c: FlatCfr,
    n1: int,
    h1: int,
    a1: int,
    n2: int,
    h2: int,
    a2: int,
)
    requires
        c.wf(),
        valid_entry(c.nodes(), n1, h1, a1),
        valid_entry(c.nodes(), n2, h2, a2),
        (n1, h1, a1) != (n2, h2, a2),
    ensures
        slot_of(c.nodes(), n1, h1, a1) != slot_of(c.nodes(), n2, h2, a2),
        0 <= slot_of(c.nodes(), n1, h1, a1) < c.entry_count(),
{
    let nodes = c.nodes();
    lemma_slot_in_block(nodes, n1, h1, a1);
    lemma_slot_in_block(nodes, n2, h2, a2);
    lemma_prefix_monotone(nodes, 0, n1);
    lemma_prefix_monotone(nodes, n1 + 1, nodes.len() as int);
    if n1 < n2 {
        lemma_prefix_monotone(nodes, n1 + 1, n2);
    } else if n2 < n1 {
        lemma_prefix_monotone(nodes, n2 + 1, n1);
    } else {
        let na = nodes[n1].0 as int;
        assert(h1 * na + a1 != h2 * na + a2) by (nonlinear_arith)
            requires
                0 <= a1 < na,
                0 <= a2 < na,
                0 <= h1,
                0 <= h2,
                h1 != h2 || a1 != a2,
        {
            if h1 < h2 {
                assert(h1 * na + na <= h2 * na);
            } else if h2 < h1 {
                assert(h2 * na + na <= h1 * na);
            }
        }
    }
}

} // verus!
