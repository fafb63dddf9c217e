//! Checks, at run time, of what the operations on pools and blocks ask of
//! their callers.

use crate::block::{closed, lemma_chain_unique, nested_blocks};
use crate::builder::IrBuilder;
use crate::module::{lemma_distinct_bounded, Module};
use crate::node::{BasicBlock, Instruction, NodeRef};
use crate::pool::ModulePools;
use vstd::prelude::*;

verus! {

impl ModulePools {
    /// The links of node `r` are sound.
    pub open spec fn links_sound(&self, r: NodeRef) -> bool {
        &&& self.next(r) != NodeRef(0) ==> self.contains(self.next(r)) && self.prev(self.next(r))
            == r
        &&& self.prev(r) != NodeRef(0) ==> self.contains(self.prev(r)) && self.next(self.prev(r))
            == r
    }

    /// Whether the pool has link integrity.
    pub fn is_wf(&self) -> (r: bool)
        ensures
            r == self.wf(),
    {
        let n = self.node_pool.len();
        let mut i: usize = 0;
        while i < n
            invariant
                i <= n,
                n == self.len(),
                forall|r: NodeRef| 1 <= r.0 <= i ==> #[trigger] self.links_sound(r),
            decreases n - i,
        {
            let r = NodeRef(i + 1);
            let node = r.get(self);
            let next = node.next;
            let prev = node.prev;
            if next.valid() {
                if !self.has(next) || next.get(self).prev != r {
                    assert(self.contains(r) && !self.links_sound(r));
                    return false;
                }
            }
            if prev.valid() {
                if !self.has(prev) || prev.get(self).next != r {
                    assert(self.contains(r) && !self.links_sound(r));
                    return false;
                }
            }
            assert(self.links_sound(r));
            i += 1;
        }
        assert forall|r: NodeRef| #[trigger] self.contains(r) implies self.links_sound(r) by {}
        true
    }
}

/// A sequence of nodes that follows the links from the head sentinel to
/// the tail sentinel of a block goes through no node twice.
proof fn lemma_walk_distinct(p: &ModulePools, b: BasicBlock, s: Seq<NodeRef>)
    requires
        forall|i: int| 0 <= i < s.len() ==> (#[trigger] s[i]) != b.last,
        forall|i: int| -1 <= i < s.len() ==> p.next(#[trigger] b.at(s, i)) == b.after(s, i),
    ensures
        s.no_duplicates(),
{
    assert forall|i: int, j: int| 0 <= i < s.len() && 0 <= j < s.len() && i != j implies s[i]
        != s[j] by {
        if s[i] == s[j] {
            if i < j {
                lemma_walk_repeats(p, b, s, i, j, s.len() - 1 - j);
                assert(p.next(b.at(s, s.len() - 1)) == b.after(s, s.len() - 1));
                assert(p.next(b.at(s, i + s.len() - 1 - j)) == b.after(s, i + s.len() - 1 - j));
            } else {
                lemma_walk_repeats(p, b, s, j, i, s.len() - 1 - i);
                assert(p.next(b.at(s, s.len() - 1)) == b.after(s, s.len() - 1));
                assert(p.next(b.at(s, j + s.len() - 1 - i)) == b.after(s, j + s.len() - 1 - i));
            }
        }
    }
}

proof fn lemma_walk_repeats(p: &ModulePools, b: BasicBlock, s: Seq<NodeRef>, i: int, j: int, m: int)
    requires
        forall|k: int| -1 <= k < s.len() ==> p.next(#[trigger] b.at(s, k)) == b.after(s, k),
        0 <= i < j,
        0 <= m,
        j + m < s.len(),
        s[i] == s[j],
    ensures
        s[i + m] == s[j + m],
    decreases m,
{
    if m > 0 {
        lemma_walk_repeats(p, b, s, i, j, m - 1);
        assert(p.next(b.at(s, i + m - 1)) == b.after(s, i + m - 1));
        assert(p.next(b.at(s, j + m - 1)) == b.after(s, j + m - 1));
    }
}

impl BasicBlock {
    /// The nodes of the block where it is well formed; `None` where it is
    /// not.
    pub fn checked_nodes(&self, pools: &ModulePools) -> (r: Option<Vec<NodeRef>>)
        ensures
            r is Some == self.wf(pools),
            r matches Some(v) ==> v@ == self.nodes_spec(pools),
    {
        if !pools.has(self.first) || !pools.has(self.last) || self.first == self.last {
            return None;
        }
        if self.first.get(pools).prev.valid() || self.last.get(pools).next.valid() {
            return None;
        }
        let ghost witness = self.nodes_spec(pools);
        let limit = pools.node_pool.len();
        let mut v: Vec<NodeRef> = Vec::new();
        let mut cur = self.first.get(pools).next;
        proof {
            if self.wf(pools) {
                assert(pools.next(self.at(witness, -1)) == self.after(witness, -1));
                lemma_distinct_bounded(witness, pools.len());
            }
        }
        while cur != self.last
            invariant
                pools.contains(self.first),
                pools.contains(self.last),
                self.first != self.last,
                pools.prev(self.first) == NodeRef(0),
                pools.next(self.last) == NodeRef(0),
                limit == pools.len(),
                v@.len() <= limit,
                witness == self.nodes_spec(pools),
                self.wf(pools) ==> witness.len() <= limit,
                forall|i: int|
                    0 <= i < v@.len() ==> pools.contains(#[trigger] v@[i]) && v@[i] != self.first
                        && v@[i] != self.last,
                forall|i: int|
                    -1 <= i < v@.len() - 1 ==> pools.next(#[trigger] self.at(v@, i)) == self.after(
                        v@,
                        i,
                    ),
                cur == pools.next(self.at(v@, v@.len() - 1)),
                self.wf(pools) ==> v@.len() <= witness.len() && v@ == witness.take(v@.len() as int),
            decreases limit - v@.len(),
        {
            let ghost k = v@.len() as int;
            proof {
                if self.wf(pools) {
                    assert(self.at(v@, k - 1) == self.at(witness, k - 1));
                    assert(pools.next(self.at(witness, k - 1)) == self.after(witness, k - 1));
                    assert(k < witness.len());
                    assert(cur == witness[k]);
                    assert(pools.contains(witness[k]));
                }
            }
            if !pools.has(cur) || cur == self.first || v.len() >= limit {
                return None;
            }
            let ghost before = v@;
            v.push(cur);
            proof {
                assert forall|i: int| -1 <= i < v@.len() - 1 implies pools.next(
                    #[trigger] self.at(v@, i),
                ) == self.after(v@, i) by {
                    if i < k - 1 {
                        assert(self.at(v@, i) == self.at(before, i));
                        assert(pools.next(self.at(before, i)) == self.after(before, i));
                    }
                }
                if self.wf(pools) {
                    assert(v@ =~= witness.take(k + 1));
                }
            }
            cur = cur.get(pools).next;
        }
        proof {
            assert forall|i: int| -1 <= i < v@.len() implies pools.next(#[trigger] self.at(v@, i))
                == self.after(v@, i) by {}
            lemma_walk_distinct(pools, *self, v@);
            assert(self.chain(pools, v@));
            lemma_chain_unique(pools, *self, self.nodes_spec(pools), v@);
        }
        Some(v)
    }

    /// Whether the block is well formed.
    pub fn is_wf(&self, pools: &ModulePools) -> (r: bool)
        ensures
            r == self.wf(pools),
    {
        self.checked_nodes(pools).is_some()
    }
}

/// Whether `node` is among `nodes`.
fn holds(nodes: &Vec<NodeRef>, node: NodeRef) -> (r: bool)
    ensures
        r == nodes@.contains(node),
{
    let mut i: usize = 0;
    while i < nodes.len()
        invariant
            i <= nodes.len(),
            forall|j: int| 0 <= j < i ==> nodes@[j] != node,
        decreases nodes.len() - i,
    {
        if nodes[i] == node {
            return true;
        }
        i += 1;
    }
    false
}

impl IrBuilder {
    /// Whether the builder is well formed in these pools.
    pub fn is_wf(&self, pools: &ModulePools) -> (r: bool)
        ensures
            r == self.wf(pools),
    {
        if !pools.is_wf() {
            return false;
        }
        match self.bb.checked_nodes(pools) {
            Some(nodes) => self.insert_point == self.bb.first || holds(&nodes, self.insert_point),
            None => false,
        }
    }
}

/// Whether the blocks nested in the instruction are well formed.
fn nested_wf(pools: &ModulePools, instruction: &Instruction) -> (r: bool)
    ensures
        r == (forall|j: int|
            0 <= j < nested_blocks(*instruction).len() ==> (#[trigger] nested_blocks(
                *instruction,
            )[j]).wf(pools)),
{
    let ghost blocks = nested_blocks(*instruction);
    match instruction {
        Instruction::AdScope { body } => {
            assert(blocks[0] == *body);
            body.is_wf(pools)
        },
        Instruction::AdDetach(body) => {
            assert(blocks[0] == *body);
            body.is_wf(pools)
        },
        Instruction::Loop { body, cond: _ } => {
            assert(blocks[0] == *body);
            body.is_wf(pools)
        },
        Instruction::If { cond: _, true_branch, false_branch } => {
            assert(blocks[0] == *true_branch && blocks[1] == *false_branch);
            true_branch.is_wf(pools) && false_branch.is_wf(pools)
        },
        Instruction::RayQuery { ray_query: _, on_triangle_hit, on_procedural_hit } => {
            assert(blocks[0] == *on_triangle_hit && blocks[1] == *on_procedural_hit);
            on_triangle_hit.is_wf(pools) && on_procedural_hit.is_wf(pools)
        },
        Instruction::GenericLoop { prepare, cond: _, body, update } => {
            assert(blocks[0] == *prepare && blocks[1] == *body && blocks[2] == *update);
            prepare.is_wf(pools) && body.is_wf(pools) && update.is_wf(pools)
        },
        Instruction::Switch { value: _, default, cases } => {
            assert(blocks[0] == *default);
            if !default.is_wf(pools) {
                return false;
            }
            let mut i: usize = 0;
            while i < cases.len()
                invariant
                    i <= cases.len(),
                    blocks == nested_blocks(*instruction),
                    blocks.len() == cases@.len() + 1,
                    blocks[0].wf(pools),
                    forall|j: int| 0 <= j < cases@.len() ==> blocks[j + 1] == cases@[j].block,
                    forall|j: int| 0 <= j < i ==> (#[trigger] cases@[j]).block.wf(pools),
                decreases cases.len() - i,
            {
                if !cases[i].block.is_wf(pools) {
                    assert(!blocks[i as int + 1].wf(pools));
                    return false;
                }
                i += 1;
            }
            assert forall|j: int| 0 <= j < blocks.len() implies (#[trigger] blocks[j]).wf(pools) by {
                if j > 0 {
                    assert(blocks[j] == cases@[j - 1].block);
                }
            }
            true
        },
        _ => {
            assert(blocks.len() == 0);
            true
        },
    }
}

impl Module {
    /// Whether the module is well formed.
    pub fn is_wf(&self) -> (r: bool)
        ensures
            r == self.wf(),
    {
        if !self.pools.is_wf() || !self.entry.is_wf(&self.pools) {
            return false;
        }
        let n = self.pools.node_pool.len();
        let mut i: usize = 0;
        while i < n
            invariant
                i <= n,
                n == self.pools.len(),
                forall|r: NodeRef, j: int|
                    1 <= r.0 <= i && 0 <= j < nested_blocks(self.pools.instruction(r)).len()
                        ==> (#[trigger] nested_blocks(self.pools.instruction(r))[j]).wf(
                        &self.pools,
                    ),
            decreases n - i,
        {
            let r = NodeRef(i + 1);
            if !nested_wf(&self.pools, r.instruction(&self.pools)) {
                assert(self.pools.contains(r));
                assert(!closed(&self.pools));
                return false;
            }
            i += 1;
        }
        assert(closed(&self.pools));
        true
    }
}

} // verus!
