//! Basic blocks: the nodes linked between two sentinel nodes.
//!
//! The nodes of a block, in order, are a sequence: the model of the block.
//! It is read off the links of the pool, so a block is a pair of handles and
//! can be copied freely.

use crate::node::{invalid_ref, BasicBlock, Instruction, Node, NodeRef, SwitchCase};
use crate::pool::{new_node, with_next, with_prev, ModulePools};
use crate::types::Type;
use std::sync::Arc;
use vstd::prelude::*;

verus! {

impl BasicBlock {
    /// The node that follows position `i` of `s` in this block; position
    /// -1 is the head sentinel.
    pub open spec fn after(&self, s: Seq<NodeRef>, i: int) -> NodeRef {
        if i + 1 < s.len() {
            s[i + 1]
        } else {
            self.last
        }
    }

    /// The node at position `i` of `s` in this block; position -1 is the
    /// head sentinel.
    pub open spec fn at(&self, s: Seq<NodeRef>, i: int) -> NodeRef {
        if i < 0 {
            self.first
        } else {
            s[i]
        }
    }

    /// `s` is the sequence of the nodes of this block: the head sentinel has
    /// nothing before it, the tail sentinel nothing after it, and following
    /// the `next` links from the head sentinel goes through `s` and ends at
    /// the tail sentinel.
    pub open spec fn chain(&self, p: &ModulePools, s: Seq<NodeRef>) -> bool {
        &&& p.contains(self.first)
        &&& p.contains(self.last)
        &&& self.first != self.last
        &&& p.prev(self.first) == NodeRef(0)
        &&& p.next(self.last) == NodeRef(0)
        &&& s.no_duplicates()
        &&& forall|i: int|
            0 <= i < s.len() ==> p.contains(#[trigger] s[i]) && s[i] != self.first && s[i]
                != self.last
        &&& forall|i: int| -1 <= i < s.len() ==> p.next(#[trigger] self.at(s, i)) == self.after(s, i)
    }

    /// The block is well formed in `p`.
    pub open spec fn wf(&self, p: &ModulePools) -> bool {
        exists|s: Seq<NodeRef>| self.chain(p, s)
    }

    /// The nodes of the block, in order.
    pub open spec fn nodes_spec(&self, p: &ModulePools) -> Seq<NodeRef> {
        choose|s: Seq<NodeRef>| self.chain(p, s)
    }

    /// `r` is a sentinel or a node of the block.
    pub open spec fn member(&self, s: Seq<NodeRef>, r: NodeRef) -> bool {
        r == self.first || r == self.last || s.contains(r)
    }

    /// The block is as it was: well formed if it was, with the same nodes.
    pub open spec fn kept(&self, old: &ModulePools, new: &ModulePools) -> bool {
        self.wf(old) ==> self.wf(new) && self.nodes_spec(new) == self.nodes_spec(old)
    }
}

/// Every block that does not start at the head sentinel of `a` is as it was.
pub open spec fn others_kept(old: &ModulePools, new: &ModulePools, a: BasicBlock) -> bool {
    forall|b: BasicBlock| b.first != a.first ==> #[trigger] b.kept(old, new)
}

/// Every block is as it was.
pub open spec fn all_kept(old: &ModulePools, new: &ModulePools) -> bool {
    forall|b: BasicBlock| #[trigger] b.kept(old, new)
}

/// Every block that was well formed still is.
pub open spec fn wf_kept(old: &ModulePools, new: &ModulePools) -> bool {
    forall|b: BasicBlock| b.wf(old) ==> #[trigger] b.wf(new)
}

/// The block of a case of a switch.
pub open spec fn case_block(c: SwitchCase) -> BasicBlock {
    c.block
}

/// The blocks nested in an instruction, in the order in which they run.
pub open spec fn nested_blocks(i: Instruction) -> Seq<BasicBlock> {
    match i {
        Instruction::AdScope { body } => seq![body],
        Instruction::AdDetach(body) => seq![body],
        Instruction::If { true_branch, false_branch, .. } => seq![true_branch, false_branch],
        Instruction::Loop { body, .. } => seq![body],
        Instruction::GenericLoop { prepare, body, update, .. } => seq![prepare, body, update],
        Instruction::Switch { default, cases, .. } => seq![default] + Seq::new(
            cases@.len(),
            |j: int| case_block(cases@[j]),
        ),
        Instruction::RayQuery { on_triangle_hit, on_procedural_hit, .. } => seq![
            on_triangle_hit,
            on_procedural_hit,
        ],
        _ => Seq::empty(),
    }
}

/// Every block nested in an instruction of a node of the pool is well formed.
pub open spec fn closed(p: &ModulePools) -> bool {
    forall|r: NodeRef, j: int|
        p.contains(r) && 0 <= j < nested_blocks(p.instruction(r)).len() ==> (#[trigger] nested_blocks(
            p.instruction(r),
        )[j]).wf(p)
}

/// Where every block that was well formed still is and no node has
/// another instruction, nested blocks stay well formed.
pub open spec fn closed_kept(old: &ModulePools, new: &ModulePools) -> bool {
    closed(old) ==> closed(new)
}

/// A block has one sequence of nodes.
pub proof fn lemma_chain_unique(p: &ModulePools, b: BasicBlock, sa: Seq<NodeRef>, sb: Seq<NodeRef>)
    requires
        b.chain(p, sa),
        b.chain(p, sb),
    ensures
        sa == sb,
{
    lemma_chain_prefix(p, b, sa, sb, if sa.len() <= sb.len() {
        sa.len() as int
    } else {
        sb.len() as int
    });
    if sa.len() < sb.len() {
        let k = sa.len() as int;
        assert(p.next(b.at(sa, k - 1)) == b.after(sa, k - 1));
        assert(p.next(b.at(sb, k - 1)) == b.after(sb, k - 1));
        assert(b.at(sa, k - 1) == b.at(sb, k - 1));
        assert(sb[k] != b.last);
    } else if sb.len() < sa.len() {
        let k = sb.len() as int;
        assert(p.next(b.at(sa, k - 1)) == b.after(sa, k - 1));
        assert(p.next(b.at(sb, k - 1)) == b.after(sb, k - 1));
        assert(b.at(sa, k - 1) == b.at(sb, k - 1));
        assert(sa[k] != b.last);
    }
    assert(sa =~= sb);
}

proof fn lemma_chain_prefix(
    p: &ModulePools,
    b: BasicBlock,
    sa: Seq<NodeRef>,
    sb: Seq<NodeRef>,
    k: int,
)
    requires
        b.chain(p, sa),
        b.chain(p, sb),
        0 <= k <= sa.len(),
        k <= sb.len(),
    ensures
        forall|i: int| 0 <= i < k ==> sa[i] == sb[i],
    decreases k,
{
    if k > 0 {
        lemma_chain_prefix(p, b, sa, sb, k - 1);
        assert(p.next(b.at(sa, k - 2)) == b.after(sa, k - 2));
        assert(p.next(b.at(sb, k - 2)) == b.after(sb, k - 2));
        assert(b.at(sa, k - 2) == b.at(sb, k - 2));
    }
}

/// In a pool with link integrity the node at a position of a block has the
/// node at the position before it as its `prev`, and so has the tail
/// sentinel.
pub proof fn lemma_chain_prev(p: &ModulePools, b: BasicBlock, s: Seq<NodeRef>, i: int)
    requires
        p.wf(),
        b.chain(p, s),
        0 <= i <= s.len(),
    ensures
        p.prev(b.after(s, i - 1)) == b.at(s, i - 1),
        p.contains(b.at(s, i - 1)),
        p.contains(b.after(s, i - 1)),
{
    let x = b.at(s, i - 1);
    assert(p.next(x) == b.after(s, i - 1));
    assert(p.contains(x));
    if i < s.len() {
        assert(p.contains(s[i]));
    }
}

/// The members of a block are linked.
pub proof fn lemma_members_linked(p: &ModulePools, b: BasicBlock, s: Seq<NodeRef>, r: NodeRef)
    requires
        p.wf(),
        b.chain(p, s),
        b.member(s, r),
    ensures
        p.contains(r),
        p.linked(r),
{
    if r == b.first {
        assert(p.next(b.at(s, -1)) == b.after(s, -1));
        lemma_chain_prev(p, b, s, 0);
    } else if r == b.last {
        lemma_chain_prev(p, b, s, s.len() as int);
    } else {
        let i = choose|i: int| 0 <= i < s.len() && s[i] == r;
        assert(p.next(b.at(s, i)) == b.after(s, i));
        lemma_chain_prev(p, b, s, i + 1);
    }
}

proof fn lemma_no_common(
    p: &ModulePools,
    ba: BasicBlock,
    sa: Seq<NodeRef>,
    bb: BasicBlock,
    sb: Seq<NodeRef>,
    i: int,
    j: int,
)
    requires
        p.wf(),
        ba.chain(p, sa),
        bb.chain(p, sb),
        ba.first != bb.first,
        -1 <= i < sa.len(),
        -1 <= j < sb.len(),
    ensures
        ba.at(sa, i) != bb.at(sb, j),
    decreases i + 1,
{
    if i >= 0 && j >= 0 {
        lemma_no_common(p, ba, sa, bb, sb, i - 1, j - 1);
        lemma_chain_prev(p, ba, sa, i);
        lemma_chain_prev(p, bb, sb, j);
    } else if i >= 0 {
        lemma_chain_prev(p, ba, sa, i);
    } else if j >= 0 {
        lemma_chain_prev(p, bb, sb, j);
    }
}

/// Two blocks with different head sentinels share no member: a node is
/// linked in at most one block.
pub proof fn lemma_disjoint(
    p: &ModulePools,
    ba: BasicBlock,
    sa: Seq<NodeRef>,
    bb: BasicBlock,
    sb: Seq<NodeRef>,
)
    requires
        p.wf(),
        ba.chain(p, sa),
        bb.chain(p, sb),
        ba.first != bb.first,
    ensures
        forall|r: NodeRef| ba.member(sa, r) ==> !bb.member(sb, r),
{
    assert forall|r: NodeRef| ba.member(sa, r) implies !bb.member(sb, r) by {
        if bb.member(sb, r) {
            lemma_members_linked(p, ba, sa, r);
            // positions of r in both blocks; the tail sentinel is at position len
            let i: int = if r == ba.first {
                -1
            } else if r == ba.last {
                sa.len() as int
            } else {
                choose|i: int| 0 <= i < sa.len() && sa[i] == r
            };
            let j: int = if r == bb.first {
                -1
            } else if r == bb.last {
                sb.len() as int
            } else {
                choose|j: int| 0 <= j < sb.len() && sb[j] == r
            };
            if i < sa.len() && j < sb.len() {
                lemma_no_common(p, ba, sa, bb, sb, i, j);
            } else if i == sa.len() && j == sb.len() {
                lemma_chain_prev(p, ba, sa, i);
                lemma_chain_prev(p, bb, sb, j);
                lemma_no_common(p, ba, sa, bb, sb, i - 1, j - 1);
            } else if i == sa.len() {
                // r is the tail of ba: nothing after it, but something after r in bb
                assert(p.next(bb.at(sb, j)) == bb.after(sb, j));
                lemma_chain_prev(p, bb, sb, j + 1);
            } else {
                assert(p.next(ba.at(sa, i)) == ba.after(sa, i));
                lemma_chain_prev(p, ba, sa, i + 1);
            }
        }
    }
}

/// A block whose members have the links they had is as it was.
pub proof fn lemma_chain_kept(old: &ModulePools, new: &ModulePools, b: BasicBlock, s: Seq<NodeRef>)
    requires
        b.chain(old, s),
        new.len() >= old.len(),
        forall|r: NodeRef| b.member(s, r) ==> #[trigger] new.same_links(old, r),
    ensures
        b.chain(new, s),
        b.wf(new),
        b.nodes_spec(new) == s,
        b.nodes_spec(old) == s,
{
    assert forall|i: int| -1 <= i < s.len() implies new.next(#[trigger] b.at(s, i)) == b.after(
        s,
        i,
    ) by {
        assert(old.next(b.at(s, i)) == b.after(s, i));
        if i >= 0 {
            assert(s.contains(s[i]));
        }
        assert(new.same_links(old, b.at(s, i)));
    }
    assert(new.same_links(old, b.first));
    assert(new.same_links(old, b.last));
    assert(b.chain(new, s));
    lemma_chain_unique(new, b, b.nodes_spec(new), s);
    lemma_chain_unique(old, b, b.nodes_spec(old), s);
}

/// Where only members of the block `a` and nodes that were not linked got
/// new links, every other block is as it was.
pub proof fn lemma_others_kept(
    old: &ModulePools,
    new: &ModulePools,
    a: BasicBlock,
    sa: Seq<NodeRef>,
)
    requires
        old.wf(),
        a.chain(old, sa),
        new.len() >= old.len(),
        forall|r: NodeRef|
            old.contains(r) && old.linked(r) && !a.member(sa, r) ==> #[trigger] new.same_links(
                old,
                r,
            ),
    ensures
        others_kept(old, new, a),
{
    assert forall|b: BasicBlock| b.first != a.first implies #[trigger] b.kept(old, new) by {
        if b.wf(old) {
            let sb = b.nodes_spec(old);
            lemma_disjoint(old, b, sb, a, sa);
            assert forall|r: NodeRef| b.member(sb, r) implies #[trigger] new.same_links(old, r) by {
                lemma_members_linked(old, b, sb, r);
                assert(!a.member(sa, r));
            }
            lemma_chain_kept(old, new, b, sb);
        }
    }
}

/// Where only nodes that were not linked got new links, every block is as
/// it was.
pub proof fn lemma_all_kept(old: &ModulePools, new: &ModulePools)
    requires
        old.wf(),
        new.len() >= old.len(),
        forall|r: NodeRef| old.contains(r) && old.linked(r) ==> #[trigger] new.same_links(old, r),
    ensures
        all_kept(old, new),
{
    assert forall|b: BasicBlock| #[trigger] b.kept(old, new) by {
        if b.wf(old) {
            let sb = b.nodes_spec(old);
            assert forall|r: NodeRef| b.member(sb, r) implies #[trigger] new.same_links(old, r) by {
                lemma_members_linked(old, b, sb, r);
            }
            lemma_chain_kept(old, new, b, sb);
        }
    }
}

impl BasicBlock {
    /// An empty block: two fresh sentinels, linked to each other.
    pub fn new(pools: &mut ModulePools) -> (b: Self)
        requires
            old(pools).wf(),
        ensures
            final(pools).wf(),
            final(pools).extends(old(pools)),
            final(pools).len() == old(pools).len() + 2,
            final(pools).bb_pool == old(pools).bb_pool,
            b.first.0 == old(pools).len() + 1,
            b.last.0 == old(pools).len() + 2,
            b.chain(final(pools), Seq::empty()),
            b.wf(final(pools)),
            b.nodes_spec(final(pools)) == Seq::<NodeRef>::empty(),
            final(pools).instruction(b.first) == Instruction::Invalid,
            final(pools).instruction(b.last) == Instruction::Invalid,
            final(pools).node(b.first).type_ == Type::spec_void(),
            final(pools).node(b.last).type_ == Type::spec_void(),
            all_kept(old(pools), final(pools)),
            wf_kept(old(pools), final(pools)),
            closed_kept(old(pools), final(pools)),
    {
        let first = new_node(pools, Node::new(Arc::new(Instruction::Invalid), Type::void()));
        let last = new_node(pools, Node::new(Arc::new(Instruction::Invalid), Type::void()));
        let ghost mid = *pools;
        pools.node_pool.items[first.0 - 1].next = last;
        pools.node_pool.items[last.0 - 1].prev = first;
        let b = BasicBlock { first, last };
        proof {
            assert forall|x: NodeRef| #[trigger] pools.contains(x) implies {
                &&& pools.next(x) != NodeRef(0) ==> pools.contains(pools.next(x)) && pools.prev(
                    pools.next(x),
                ) == x
                &&& pools.prev(x) != NodeRef(0) ==> pools.contains(pools.prev(x)) && pools.next(
                    pools.prev(x),
                ) == x
            } by {
                if x != first && x != last {
                    assert(old(pools).contains(x));
                    assert(pools.node(x) == old(pools).node(x));
                    if old(pools).next(x) != NodeRef(0) {
                        assert(old(pools).contains(old(pools).next(x)));
                    }
                    if old(pools).prev(x) != NodeRef(0) {
                        assert(old(pools).contains(old(pools).prev(x)));
                    }
                }
            }
            let empty = Seq::<NodeRef>::empty();
            assert forall|i: int| -1 <= i < empty.len() implies pools.next(#[trigger] b.at(empty, i))
                == b.after(empty, i) by {}
            assert(b.chain(pools, empty));
            lemma_chain_unique(pools, b, b.nodes_spec(pools), empty);
            assert forall|r: NodeRef|
                old(pools).contains(r) && old(pools).linked(r) implies #[trigger] pools.same_links(
                old(pools),
                r,
            ) by {
                assert(pools.node(r) == old(pools).node(r));
            }
            lemma_all_kept(old(pools), pools);
            assert forall|c: BasicBlock| c.wf(old(pools)) implies #[trigger] c.wf(pools) by {
                assert(c.kept(old(pools), pools));
            }
            if closed(old(pools)) {
                assert forall|r: NodeRef| #[trigger] old(pools).contains(r) implies pools.node(
                    r,
                ).instruction == old(pools).node(r).instruction by {
                    assert(pools.node(r) == old(pools).node(r));
                }
                lemma_closed_kept(old(pools), pools);
            }
        }
        b
    }

    /// The nodes of the block, in order.
    pub fn nodes(&self, pools: &ModulePools) -> (v: Vec<NodeRef>)
        requires
            self.wf(pools),
        ensures
            v@ == self.nodes_spec(pools),
    {
        let ghost s = self.nodes_spec(pools);
        let mut v: Vec<NodeRef> = Vec::new();
        let mut cur = self.first.get(pools).next;
        let ghost mut k: int = 0;
        proof {
            assert(pools.next(self.at(s, -1)) == self.after(s, -1));
        }
        while cur != self.last
            invariant
                self.chain(pools, s),
                0 <= k <= s.len(),
                cur == self.after(s, k - 1),
                v@ == s.take(k),
            decreases s.len() - k,
        {
            assert(cur == s[k]);
            v.push(cur);
            proof {
                assert(pools.next(self.at(s, k)) == self.after(s, k));
                assert(s.take(k + 1) =~= s.take(k).push(s[k]));
            }
            cur = cur.get(pools).next;
            proof {
                k = k + 1;
            }
        }
        assert(s.take(k) =~= s);
        v
    }

    /// Number of nodes of the block.
    pub fn len(&self, pools: &ModulePools) -> (n: usize)
        requires
            self.wf(pools),
        ensures
            n == self.nodes_spec(pools).len(),
    {
        self.nodes(pools).len()
    }

    /// Whether the head sentinel has lost its link.  A well-formed block
    /// never has: its head sentinel is linked even when it has no nodes.
    pub fn is_empty(&self, pools: &ModulePools) -> (r: bool)
        requires
            pools.contains(self.first),
        ensures
            r == (pools.next(self.first) == NodeRef(0)),
            self.wf(pools) ==> !r,
    {
        proof {
            if self.wf(pools) {
                let s = self.nodes_spec(pools);
                assert(pools.next(self.at(s, -1)) == self.after(s, -1));
                if s.len() > 0 {
                    assert(pools.contains(s[0]));
                }
            }
        }
        !self.first.get(pools).next.valid()
    }

    /// Links `node` in as the last node of the block.
    pub fn push(&self, pools: &mut ModulePools, node: NodeRef)
        requires
            old(pools).wf(),
            self.wf(old(pools)),
            old(pools).contains(node),
            !old(pools).linked(node),
        ensures
            final(pools).wf(),
            final(pools).same_payload(old(pools)),
            self.wf(final(pools)),
            self.nodes_spec(final(pools)) == self.nodes_spec(old(pools)).push(node),
            forall|r: NodeRef|
                old(pools).contains(r) && !self.member(self.nodes_spec(old(pools)), r) && r != node
                    ==> #[trigger] final(pools).same_links(old(pools), r),
            others_kept(old(pools), final(pools), *self),
            wf_kept(old(pools), final(pools)),
            closed_kept(old(pools), final(pools)),
    {
        let ghost s = self.nodes_spec(old(pools));
        proof {
            lemma_chain_prev(old(pools), *self, s, s.len() as int);
            lemma_members_linked(old(pools), *self, s, self.last);
        }
        self.last.insert_before_self(pools, node);
        proof {
            lemma_pushed(old(pools), pools, *self, s, node);
            lemma_wf_kept(old(pools), pools, *self);
            lemma_closed_same(old(pools), pools);
        }
    }
}

/// The pool after linking `node` before the tail sentinel of `b`.
proof fn lemma_pushed(
    old: &ModulePools,
    new: &ModulePools,
    b: BasicBlock,
    s: Seq<NodeRef>,
    node: NodeRef,
)
    requires
        old.wf(),
        b.chain(old, s),
        old.contains(node),
        !old.linked(node),
        new.len() == old.len(),
        new.node_pool@ == with_next(
            with_prev(
                with_next(with_prev(old.node_pool@, b.last, node), old.prev(b.last), node),
                node,
                old.prev(b.last),
            ),
            node,
            b.last,
        ),
    ensures
        b.chain(new, s.push(node)),
        b.wf(new),
        b.nodes_spec(new) == s.push(node),
        b.nodes_spec(old) == s,
        forall|r: NodeRef|
            old.contains(r) && !b.member(s, r) && r != node ==> #[trigger] new.same_links(old, r),
        others_kept(old, new, b),
{
    let t = s.push(node);
    let n = s.len() as int;
    lemma_chain_prev(old, b, s, n);
    let pred = b.at(s, n - 1);
    assert(old.prev(b.last) == pred);
    lemma_chain_unique(old, b, b.nodes_spec(old), s);
    assert forall|r: NodeRef| b.member(s, r) implies r != node by {
        lemma_members_linked(old, b, s, r);
    }
    assert(b.member(s, b.first));
    assert(b.member(s, b.last));
    assert(b.member(s, pred)) by {
        if n > 0 {
            assert(s.contains(s[n - 1]));
        }
    }
    assert forall|i: int| 0 <= i < s.len() implies s[i] != node by {
        assert(s.contains(s[i]));
        assert(b.member(s, s[i]));
    }
    assert(t.no_duplicates());
    assert forall|i: int| -1 <= i < t.len() implies new.next(#[trigger] b.at(t, i)) == b.after(
        t,
        i,
    ) by {
        if i == n {
        } else {
            assert(b.at(t, i) == b.at(s, i));
            assert(old.next(b.at(s, i)) == b.after(s, i));
            if i >= 0 {
                assert(s.contains(s[i]));
            }
        }
    }
    assert(b.chain(new, t));
    lemma_chain_unique(new, b, b.nodes_spec(new), t);
    assert forall|r: NodeRef|
        old.contains(r) && old.linked(r) && !b.member(s, r) implies #[trigger] new.same_links(
        old,
        r,
    ) by {}
    lemma_others_kept(old, new, b, s);
}

/// The neighbours of a node that is no member of a block are no members of
/// it either.
proof fn lemma_neighbours_outside(p: &ModulePools, b: BasicBlock, s: Seq<NodeRef>, x: NodeRef)
    requires
        p.wf(),
        b.chain(p, s),
        p.contains(x),
        !b.member(s, x),
    ensures
        !b.member(s, p.next(x)),
        !b.member(s, p.prev(x)),
{
    let y = p.next(x);
    if b.member(s, y) {
        lemma_members_linked(p, b, s, y);
        assert(p.prev(y) == x);
        if y == b.first {
        } else if y == b.last {
            lemma_chain_prev(p, b, s, s.len() as int);
            if s.len() > 0 {
                assert(s.contains(s[s.len() - 1]));
            }
        } else {
            let i = choose|i: int| 0 <= i < s.len() && s[i] == y;
            lemma_chain_prev(p, b, s, i);
            if i > 0 {
                assert(s.contains(s[i - 1]));
            }
        }
    }
    let z = p.prev(x);
    if b.member(s, z) {
        lemma_members_linked(p, b, s, z);
        assert(p.next(z) == x);
        if z == b.last {
        } else {
            let i: int = if z == b.first {
                -1
            } else {
                choose|i: int| 0 <= i < s.len() && s[i] == z
            };
            assert(p.next(b.at(s, i)) == b.after(s, i));
            if i + 1 < s.len() {
                assert(s.contains(s[i + 1]));
            }
        }
    }
}

/// The pool after unlinking every node of `b` and linking its sentinels to
/// each other.
proof fn lemma_drained(old: &ModulePools, new: &ModulePools, b: BasicBlock, s: Seq<NodeRef>)
    requires
        old.wf(),
        b.chain(old, s),
        new.len() == old.len(),
        forall|j: int| 0 <= j < s.len() ==> !new.linked(#[trigger] s[j]),
        new.next(b.first) == b.last,
        new.prev(b.first) == NodeRef(0),
        new.prev(b.last) == b.first,
        new.next(b.last) == NodeRef(0),
        forall|r: NodeRef| old.contains(r) && !b.member(s, r) ==> #[trigger] new.same_links(old, r),
    ensures
        new.wf(),
        b.chain(new, Seq::empty()),
        b.wf(new),
        b.nodes_spec(new) == Seq::<NodeRef>::empty(),
        others_kept(old, new, b),
{
    assert forall|x: NodeRef| #[trigger] new.contains(x) implies {
        &&& new.next(x) != NodeRef(0) ==> new.contains(new.next(x)) && new.prev(new.next(x)) == x
        &&& new.prev(x) != NodeRef(0) ==> new.contains(new.prev(x)) && new.next(new.prev(x)) == x
    } by {
        assert(old.contains(x));
        if x == b.first || x == b.last {
        } else if s.contains(x) {
            let j = choose|j: int| 0 <= j < s.len() && s[j] == x;
            assert(!new.linked(s[j]));
        } else {
            assert(new.same_links(old, x));
            lemma_neighbours_outside(old, b, s, x);
            if old.next(x) != NodeRef(0) {
                assert(old.contains(old.next(x)));
                assert(new.same_links(old, old.next(x)));
            }
            if old.prev(x) != NodeRef(0) {
                assert(old.contains(old.prev(x)));
                assert(new.same_links(old, old.prev(x)));
            }
        }
    }
    let empty = Seq::<NodeRef>::empty();
    assert forall|i: int| -1 <= i < empty.len() implies new.next(#[trigger] b.at(empty, i))
        == b.after(empty, i) by {}
    assert(b.chain(new, empty));
    lemma_chain_unique(new, b, b.nodes_spec(new), empty);
    assert forall|r: NodeRef|
        old.contains(r) && old.linked(r) && !b.member(s, r) implies #[trigger] new.same_links(
        old,
        r,
    ) by {}
    lemma_others_kept(old, new, b, s);
}

impl BasicBlock {
    /// Takes every node out of the block and returns them in order.  The
    /// nodes come out unlinked and the block is left empty.
    pub fn into_vec(&self, pools: &mut ModulePools) -> (v: Vec<NodeRef>)
        requires
            old(pools).wf(),
            self.wf(old(pools)),
        ensures
            v@ == self.nodes_spec(old(pools)),
            final(pools).wf(),
            final(pools).same_payload(old(pools)),
            self.wf(final(pools)),
            self.nodes_spec(final(pools)) == Seq::<NodeRef>::empty(),
            forall|i: int| 0 <= i < v@.len() ==> !final(pools).linked(#[trigger] v@[i]),
            forall|r: NodeRef|
                old(pools).contains(r) && !self.member(self.nodes_spec(old(pools)), r)
                    ==> #[trigger] final(pools).same_links(old(pools), r),
            others_kept(old(pools), final(pools), *self),
            wf_kept(old(pools), final(pools)),
            closed_kept(old(pools), final(pools)),
    {
        let ghost s = self.nodes_spec(old(pools));
        let mut vec: Vec<NodeRef> = Vec::new();
        let mut cur = self.first.get(pools).next;
        let ghost mut k: int = 0;
        proof {
            assert(pools.next(self.at(s, -1)) == self.after(s, -1));
        }
        while cur != self.last
            invariant
                old(pools).wf(),
                self.chain(old(pools), s),
                0 <= k <= s.len(),
                cur == self.after(s, k - 1),
                vec@ == s.take(k),
                pools.same_payload(old(pools)),
                forall|j: int| 0 <= j < k ==> !pools.linked(#[trigger] s[j]),
                forall|r: NodeRef|
                    old(pools).contains(r) && !s.take(k).contains(r) ==> #[trigger] pools.same_links(
                        old(pools),
                        r,
                    ),
            decreases s.len() - k,
        {
            assert(cur == s[k]);
            assert(!s.take(k).contains(cur)) by {
                if s.take(k).contains(cur) {
                    let j = choose|j: int| 0 <= j < k && s.take(k)[j] == cur;
                    assert(s[j] == s[k]);
                }
            }
            assert(pools.same_links(old(pools), cur));
            vec.push(cur);
            let next = cur.get(pools).next;
            proof {
                assert(old(pools).next(self.at(s, k)) == self.after(s, k));
                assert(s.take(k + 1) =~= s.take(k).push(s[k]));
            }
            let ghost before = *pools;
            pools.node_pool.items[cur.0 - 1].prev = invalid_ref();
            pools.node_pool.items[cur.0 - 1].next = invalid_ref();
            proof {
                assert forall|j: int| 0 <= j < k + 1 implies !pools.linked(#[trigger] s[j]) by {
                    if j < k {
                        assert(!before.linked(s[j]));
                        assert(s[j] != s[k]);
                    }
                }
                assert forall|r: NodeRef|
                    old(pools).contains(r) && !s.take(k + 1).contains(
                        r,
                    ) implies #[trigger] pools.same_links(old(pools), r) by {
                    assert(r != cur) by {
                        if r == cur {
                            assert(s.take(k + 1)[k] == cur);
                        }
                    }
                    assert(!s.take(k).contains(r)) by {
                        if s.take(k).contains(r) {
                            let j = choose|j: int| 0 <= j < k && s.take(k)[j] == r;
                            assert(s.take(k + 1)[j] == r);
                        }
                    }
                    assert(before.same_links(old(pools), r));
                }
                assert forall|r: NodeRef| #[trigger] old(pools).contains(r) implies pools.node(
                    r,
                ).instruction == old(pools).node(r).instruction && pools.node(r).type_ == old(
                    pools,
                ).node(r).type_ by {
                    assert(before.node(r).instruction == old(pools).node(r).instruction);
                }
            }
            cur = next;
            proof {
                k = k + 1;
            }
        }
        assert(s.take(k) =~= s);
        let ghost mid = *pools;
        pools.node_pool.items[self.first.0 - 1].next = self.last;
        pools.node_pool.items[self.last.0 - 1].prev = self.first;
        proof {
            assert(!s.contains(self.first)) by {
                if s.contains(self.first) {
                    let j = choose|j: int| 0 <= j < s.len() && s[j] == self.first;
                }
            }
            assert(!s.contains(self.last)) by {
                if s.contains(self.last) {
                    let j = choose|j: int| 0 <= j < s.len() && s[j] == self.last;
                }
            }
            assert(mid.same_links(old(pools), self.first));
            assert(mid.same_links(old(pools), self.last));
            assert forall|j: int| 0 <= j < s.len() implies !pools.linked(#[trigger] s[j]) by {
                assert(!mid.linked(s[j]));
            }
            assert forall|r: NodeRef|
                old(pools).contains(r) && !self.member(s, r) implies #[trigger] pools.same_links(
                old(pools),
                r,
            ) by {
                assert(mid.same_links(old(pools), r));
            }
            assert forall|r: NodeRef| #[trigger] old(pools).contains(r) implies pools.node(
                r,
            ).instruction == old(pools).node(r).instruction && pools.node(r).type_ == old(
                pools,
            ).node(r).type_ by {
                assert(mid.node(r).instruction == old(pools).node(r).instruction);
            }
            lemma_drained(old(pools), pools, *self, s);
            lemma_wf_kept(old(pools), pools, *self);
            lemma_closed_same(old(pools), pools);
        }
        vec
    }
}

proof fn lemma_same_first_prefix(
    p: &ModulePools,
    ba: BasicBlock,
    sa: Seq<NodeRef>,
    bb: BasicBlock,
    sb: Seq<NodeRef>,
    k: int,
)
    requires
        ba.chain(p, sa),
        bb.chain(p, sb),
        ba.first == bb.first,
        0 <= k <= sa.len(),
        k <= sb.len(),
    ensures
        forall|i: int| 0 <= i < k ==> sa[i] == sb[i],
    decreases k,
{
    if k > 0 {
        lemma_same_first_prefix(p, ba, sa, bb, sb, k - 1);
        assert(p.next(ba.at(sa, k - 2)) == ba.after(sa, k - 2));
        assert(p.next(bb.at(sb, k - 2)) == bb.after(sb, k - 2));
        assert(ba.at(sa, k - 2) == bb.at(sb, k - 2));
    }
}

/// Two well-formed blocks with the same head sentinel are the same block.
pub proof fn lemma_same_first(
    p: &ModulePools,
    ba: BasicBlock,
    sa: Seq<NodeRef>,
    bb: BasicBlock,
    sb: Seq<NodeRef>,
)
    requires
        ba.chain(p, sa),
        bb.chain(p, sb),
        ba.first == bb.first,
    ensures
        ba == bb,
        sa == sb,
{
    let k: int = if sa.len() <= sb.len() {
        sa.len() as int
    } else {
        sb.len() as int
    };
    lemma_same_first_prefix(p, ba, sa, bb, sb, k);
    assert(p.next(ba.at(sa, k - 1)) == ba.after(sa, k - 1));
    assert(p.next(bb.at(sb, k - 1)) == bb.after(sb, k - 1));
    assert(ba.at(sa, k - 1) == bb.at(sb, k - 1));
    if sa.len() < sb.len() {
        // the tail of ba would be a node of bb, which has a node after it
        assert(p.next(bb.at(sb, k)) == bb.after(sb, k));
        if k + 1 < sb.len() {
            assert(p.contains(sb[k + 1]));
        }
    } else if sb.len() < sa.len() {
        assert(p.next(ba.at(sa, k)) == ba.after(sa, k));
        if k + 1 < sa.len() {
            assert(p.contains(sa[k + 1]));
        }
    }
    assert(sa =~= sb);
}

impl BasicBlock {
    /// Moves the nodes of `other` to the end of this block, in order;
    /// `other` is left empty.  Merging a block into itself leaves it as it is.
    pub fn merge(&self, pools: &mut ModulePools, other: BasicBlock)
        requires
            old(pools).wf(),
            self.wf(old(pools)),
            other.wf(old(pools)),
        ensures
            final(pools).wf(),
            final(pools).same_payload(old(pools)),
            self.wf(final(pools)),
            other.wf(final(pools)),
            other.first != self.first ==> self.nodes_spec(final(pools)) == self.nodes_spec(
                old(pools),
            ) + other.nodes_spec(old(pools)) && other.nodes_spec(final(pools)) == Seq::<
                NodeRef,
            >::empty(),
            other.first == self.first ==> self.nodes_spec(final(pools)) == self.nodes_spec(
                old(pools),
            ),
            forall|b: BasicBlock|
                b.first != self.first && b.first != other.first ==> #[trigger] b.kept(
                    old(pools),
                    final(pools),
                ),
            wf_kept(old(pools), final(pools)),
            closed_kept(old(pools), final(pools)),
    {
        let ghost s = self.nodes_spec(old(pools));
        let ghost t = other.nodes_spec(old(pools));
        let nodes = other.into_vec(pools);
        let ghost drained = *pools;
        let ghost base = self.nodes_spec(&drained);
        proof {
            if other.first == self.first {
                lemma_same_first(old(pools), *self, s, other, t);
            } else {
                assert(self.kept(old(pools), &drained));
            }
            assert(base + t.take(0) =~= base);
            assert forall|j: int| 0 <= j < t.len() implies drained.contains(#[trigger] t[j]) by {
                assert(old(pools).contains(t[j]));
            }
        }
        let mut i: usize = 0;
        while i < nodes.len()
            invariant
                i <= nodes.len(),
                nodes@ == t,
                t.no_duplicates(),
                pools.wf(),
                pools.same_payload(old(pools)),
                self.wf(pools),
                self.nodes_spec(pools) == base + t.take(i as int),
                other.first != self.first ==> other.wf(pools) && other.nodes_spec(pools) == Seq::<
                    NodeRef,
                >::empty(),
                forall|j: int|
                    i <= j < t.len() ==> pools.contains(#[trigger] t[j]) && !pools.linked(t[j]),
                forall|b: BasicBlock|
                    b.first != self.first && b.first != other.first ==> #[trigger] b.kept(
                        old(pools),
                        pools,
                    ),
            decreases nodes.len() - i,
        {
            let ghost before = *pools;
            let ghost sb = self.nodes_spec(pools);
            let node = nodes[i];
            self.push(pools, node);
            proof {
                assert(t.take(i as int + 1) =~= t.take(i as int).push(t[i as int]));
                assert(sb.push(node) =~= base + t.take(i as int + 1));
                assert forall|j: int| i + 1 <= j < t.len() implies pools.contains(#[trigger] t[j])
                    && !pools.linked(t[j]) by {
                    assert(before.contains(t[j]) && !before.linked(t[j]));
                    if self.member(sb, t[j]) {
                        lemma_members_linked(&before, *self, sb, t[j]);
                    }
                    assert(t[j] != t[i as int]);
                    assert(pools.same_links(&before, t[j]));
                }
                if other.first != self.first {
                    assert(other.kept(&before, pools));
                }
                assert forall|b: BasicBlock|
                    b.first != self.first && b.first != other.first implies #[trigger] b.kept(
                    old(pools),
                    pools,
                ) by {
                    assert(b.kept(old(pools), &before));
                    assert(b.kept(&before, pools));
                }
                assert forall|r: NodeRef| #[trigger] old(pools).contains(r) implies pools.node(
                    r,
                ).instruction == old(pools).node(r).instruction && pools.node(r).type_ == old(
                    pools,
                ).node(r).type_ by {
                    assert(before.contains(r));
                    assert(before.node(r).instruction == old(pools).node(r).instruction);
                }
            }
            i += 1;
        }
        proof {
            assert(t.take(t.len() as int) =~= t);
            if other.first == self.first {
                assert(Seq::<NodeRef>::empty() + t =~= t);
            }
            assert forall|b: BasicBlock| b.wf(old(pools)) implies #[trigger] b.wf(pools) by {
                if b.first == self.first {
                    lemma_same_first(old(pools), *self, s, b, b.nodes_spec(old(pools)));
                } else if b.first == other.first {
                    lemma_same_first(old(pools), other, t, b, b.nodes_spec(old(pools)));
                } else {
                    assert(b.kept(old(pools), pools));
                }
            }
            lemma_closed_same(old(pools), pools);
        }
    }
}

/// Position at which a block is cut when it is split at `at`: the number
/// of nodes that stay, `at` being the last of them, or none when `at` is
/// the head sentinel.
pub open spec fn cut(b: BasicBlock, s: Seq<NodeRef>, at: NodeRef) -> int {
    if at == b.first {
        0
    } else {
        s.index_of(at) + 1
    }
}

/// The links after the nodes of `a` from position `k` on were moved to the
/// block `nb`, which was empty.
spec fn split_links(
    base: &ModulePools,
    new: &ModulePools,
    a: BasicBlock,
    s: Seq<NodeRef>,
    nb: BasicBlock,
    k: int,
) -> bool {
    let n = s.len() as int;
    &&& new.len() == base.len()
    &&& forall|i: int|
        -1 <= i < n ==> new.next(#[trigger] a.at(s, i)) == (if i == k - 1 {
            a.last
        } else if i == n - 1 {
            nb.last
        } else {
            a.after(s, i)
        })
    &&& forall|i: int|
        0 <= i < n ==> new.prev(#[trigger] s[i]) == (if i == k {
            nb.first
        } else {
            a.at(s, i - 1)
        })
    &&& new.prev(a.last) == a.at(s, k - 1)
    &&& new.next(a.last) == NodeRef(0)
    &&& new.prev(a.first) == NodeRef(0)
    &&& new.next(nb.first) == s[k]
    &&& new.prev(nb.first) == NodeRef(0)
    &&& new.prev(nb.last) == s[n - 1]
    &&& new.next(nb.last) == NodeRef(0)
    &&& forall|r: NodeRef|
        base.contains(r) && !a.member(s, r) && r != nb.first && r != nb.last
            ==> #[trigger] new.same_links(base, r)
}

spec fn split_before(base: &ModulePools, a: BasicBlock, s: Seq<NodeRef>, nb: BasicBlock, k: int) -> bool {
    &&& base.wf()
    &&& a.chain(base, s)
    &&& nb.chain(base, Seq::empty())
    &&& nb.first != a.first
    &&& 0 <= k < s.len()
}

/// The links after the six assignments of a split, node by node.
spec fn split_assigned(
    base: &ModulePools,
    new: &ModulePools,
    a: BasicBlock,
    s: Seq<NodeRef>,
    nb: BasicBlock,
    k: int,
) -> bool {
    let at = a.at(s, k - 1);
    let first_moved = s[k];
    let last_moved = s[s.len() - 1];
    &&& new.len() == base.len()
    &&& forall|x: NodeRef| #[trigger]
        base.contains(x) ==> new.next(x) == (if x == at {
            a.last
        } else if x == last_moved {
            nb.last
        } else if x == nb.first {
            first_moved
        } else {
            base.next(x)
        })
    &&& forall|x: NodeRef| #[trigger]
        base.contains(x) ==> new.prev(x) == (if x == a.last {
            at
        } else if x == first_moved {
            nb.first
        } else if x == nb.last {
            last_moved
        } else {
            base.prev(x)
        })
}

#[verifier::spinoff_prover]
#[verifier::rlimit(40)]
proof fn lemma_split_assigned(
    base: &ModulePools,
    new: &ModulePools,
    a: BasicBlock,
    s: Seq<NodeRef>,
    nb: BasicBlock,
    k: int,
)
    requires
        0 <= k < s.len(),
        base.contains(a.at(s, k - 1)),
        base.contains(a.last),
        base.contains(nb.first),
        base.contains(nb.last),
        base.contains(s[k]),
        base.contains(s[s.len() - 1]),
        new.len() == base.len(),
        new.node_pool@ == with_prev(
            with_next(
                with_prev(
                    with_next(
                        with_prev(with_next(base.node_pool@, nb.first, s[k]), nb.last, s[s.len() - 1]),
                        s[s.len() - 1],
                        nb.last,
                    ),
                    s[k],
                    nb.first,
                ),
                a.at(s, k - 1),
                a.last,
            ),
            a.last,
            a.at(s, k - 1),
        ),
    ensures
        split_assigned(base, new, a, s, nb, k),
{
    let q0 = base.node_pool@;
    let q1 = with_next(q0, nb.first, s[k]);
    let q2 = with_prev(q1, nb.last, s[s.len() - 1]);
    let q3 = with_next(q2, s[s.len() - 1], nb.last);
    let q4 = with_prev(q3, s[k], nb.first);
    let q5 = with_next(q4, a.at(s, k - 1), a.last);
    let q6 = with_prev(q5, a.last, a.at(s, k - 1));
    assert(new.node_pool@ == q6);
    assert forall|x: NodeRef| #[trigger] base.contains(x) implies new.next(x) == (if x == a.at(
        s,
        k - 1,
    ) {
        a.last
    } else if x == s[s.len() - 1] {
        nb.last
    } else if x == nb.first {
        s[k]
    } else {
        base.next(x)
    }) by {
        let i = x.0 - 1;
        assert(q1[i].next == if x == nb.first { s[k] } else { q0[i].next });
        assert(q2[i].next == q1[i].next);
        assert(q3[i].next == if x == s[s.len() - 1] { nb.last } else { q2[i].next });
        assert(q4[i].next == q3[i].next);
        assert(q5[i].next == if x == a.at(s, k - 1) { a.last } else { q4[i].next });
        assert(q6[i].next == q5[i].next);
    }
    assert forall|x: NodeRef| #[trigger] base.contains(x) implies new.prev(x) == (if x == a.last {
        a.at(s, k - 1)
    } else if x == s[k] {
        nb.first
    } else if x == nb.last {
        s[s.len() - 1]
    } else {
        base.prev(x)
    }) by {
        let i = x.0 - 1;
        assert(q1[i].prev == q0[i].prev);
        assert(q2[i].prev == if x == nb.last { s[s.len() - 1] } else { q1[i].prev });
        assert(q3[i].prev == q2[i].prev);
        assert(q4[i].prev == if x == s[k] { nb.first } else { q3[i].prev });
        assert(q5[i].prev == q4[i].prev);
        assert(q6[i].prev == if x == a.last { a.at(s, k - 1) } else { q5[i].prev });
    }
}

#[verifier::spinoff_prover]
#[verifier::rlimit(40)]
proof fn lemma_split_links(
    base: &ModulePools,
    new: &ModulePools,
    a: BasicBlock,
    s: Seq<NodeRef>,
    nb: BasicBlock,
    k: int,
)
    requires
        split_before(base, a, s, nb, k),
        split_assigned(base, new, a, s, nb, k),
    ensures
        split_links(base, new, a, s, nb, k),
{
    let n = s.len() as int;
    let e = Seq::<NodeRef>::empty();
    let at = a.at(s, k - 1);
    lemma_disjoint(base, nb, e, a, s);
    assert(nb.member(e, nb.first));
    assert(nb.member(e, nb.last));
    assert(a.member(s, a.first));
    assert(a.member(s, a.last));
    assert forall|i: int| 0 <= i < n implies a.member(s, #[trigger] s[i]) by {
        assert(s.contains(s[i]));
    }
    assert(a.member(s, s[k]));
    assert(a.member(s, s[n - 1]));
    assert(a.member(s, at));
    assert(base.next(nb.at(e, -1)) == nb.after(e, -1));
    lemma_chain_prev(base, nb, e, 0);
    assert forall|i: int| -1 <= i < n implies new.next(#[trigger] a.at(s, i)) == (if i == k - 1 {
        a.last
    } else if i == n - 1 {
        nb.last
    } else {
        a.after(s, i)
    }) by {
        assert(base.next(a.at(s, i)) == a.after(s, i));
        assert(base.contains(a.at(s, i)));
        if i >= 0 {
            assert(a.member(s, s[i]));
        }
    }
    assert forall|i: int| 0 <= i < n implies new.prev(#[trigger] s[i]) == (if i == k {
        nb.first
    } else {
        a.at(s, i - 1)
    }) by {
        lemma_chain_prev(base, a, s, i);
        assert(a.member(s, s[i]));
        assert(base.contains(s[i]));
    }
    lemma_chain_prev(base, a, s, n);
    assert(base.contains(a.last) && base.contains(a.first));
    assert(base.contains(nb.last) && base.contains(nb.first));
    assert forall|r: NodeRef|
        base.contains(r) && !a.member(s, r) && r != nb.first && r != nb.last
            implies #[trigger] new.same_links(base, r) by {}
}

#[verifier::spinoff_prover]
#[verifier::rlimit(40)]
proof fn lemma_split_wf(
    base: &ModulePools,
    new: &ModulePools,
    a: BasicBlock,
    s: Seq<NodeRef>,
    nb: BasicBlock,
    k: int,
)
    requires
        split_before(base, a, s, nb, k),
        split_links(base, new, a, s, nb, k),
    ensures
        new.wf(),
{
    let n = s.len() as int;
    let e = Seq::<NodeRef>::empty();
    assert forall|x: NodeRef| #[trigger] new.contains(x) implies {
        &&& new.next(x) != NodeRef(0) ==> new.contains(new.next(x)) && new.prev(new.next(x)) == x
        &&& new.prev(x) != NodeRef(0) ==> new.contains(new.prev(x)) && new.next(new.prev(x)) == x
    } by {
        assert(base.contains(x));
        assert(base.contains(s[k]));
        assert(base.contains(s[n - 1]));
        if x == nb.first {
            assert(new.prev(s[k]) == nb.first);
        } else if x == nb.last {
            assert(new.next(a.at(s, n - 1)) == nb.last);
        } else if x == a.first {
            assert(new.next(a.at(s, -1)) == if k == 0 {
                a.last
            } else {
                a.after(s, -1)
            });
            if k > 0 {
                assert(new.prev(s[0]) == a.at(s, -1));
                assert(base.contains(s[0]));
            }
        } else if x == a.last {
            assert(new.next(a.at(s, k - 1)) == a.last);
            if k > 0 {
                assert(base.contains(s[k - 1]));
            }
        } else if s.contains(x) {
            let i = choose|i: int| 0 <= i < n && s[i] == x;
            assert(new.next(a.at(s, i)) == (if i == k - 1 {
                a.last
            } else if i == n - 1 {
                nb.last
            } else {
                a.after(s, i)
            }));
            assert(new.prev(s[i]) == (if i == k {
                nb.first
            } else {
                a.at(s, i - 1)
            }));
            if i + 1 < n {
                assert(base.contains(s[i + 1]));
                assert(new.prev(s[i + 1]) == (if i + 1 == k {
                    nb.first
                } else {
                    a.at(s, i)
                }));
            }
            if i > 0 {
                assert(base.contains(s[i - 1]));
                assert(new.next(a.at(s, i - 1)) == (if i - 1 == k - 1 {
                    a.last
                } else {
                    a.after(s, i - 1)
                }));
            } else {
                assert(new.next(a.at(s, -1)) == if k == 0 {
                    a.last
                } else {
                    a.after(s, -1)
                });
            }
        } else {
            assert(!a.member(s, x));
            assert(new.same_links(base, x));
            lemma_neighbours_outside(base, a, s, x);
            lemma_neighbours_outside(base, nb, e, x);
            if base.next(x) != NodeRef(0) {
                assert(base.contains(base.next(x)));
                assert(!nb.member(e, base.next(x)));
                assert(new.same_links(base, base.next(x)));
            }
            if base.prev(x) != NodeRef(0) {
                assert(base.contains(base.prev(x)));
                assert(!nb.member(e, base.prev(x)));
                assert(new.same_links(base, base.prev(x)));
            }
        }
    }
}

/// The sentinels of the new block are no members of the block that is split.
spec fn split_apart(a: BasicBlock, s: Seq<NodeRef>, nb: BasicBlock) -> bool {
    &&& !a.member(s, nb.first)
    &&& !a.member(s, nb.last)
    &&& nb.first != nb.last
}

proof fn lemma_split_apart(
    base: &ModulePools,
    a: BasicBlock,
    s: Seq<NodeRef>,
    nb: BasicBlock,
    k: int,
)
    requires
        split_before(base, a, s, nb, k),
    ensures
        split_apart(a, s, nb),
{
    let e = Seq::<NodeRef>::empty();
    lemma_disjoint(base, nb, e, a, s);
    assert(nb.member(e, nb.first));
    assert(nb.member(e, nb.last));
}

#[verifier::spinoff_prover]
#[verifier::rlimit(40)]
proof fn lemma_split_kept_part(
    base: &ModulePools,
    new: &ModulePools,
    a: BasicBlock,
    s: Seq<NodeRef>,
    nb: BasicBlock,
    k: int,
)
    requires
        a.chain(base, s),
        0 <= k < s.len(),
        split_links(base, new, a, s, nb, k),
    ensures
        a.chain(new, s.take(k)),
{
    let n = s.len() as int;
    let sa = s.take(k);
    assert forall|i: int| -1 <= i < sa.len() implies new.next(#[trigger] a.at(sa, i)) == a.after(
        sa,
        i,
    ) by {
        assert(a.at(sa, i) == a.at(s, i));
        assert(new.next(a.at(s, i)) == (if i == k - 1 {
            a.last
        } else if i == n - 1 {
            nb.last
        } else {
            a.after(s, i)
        }));
    }
    assert(sa.no_duplicates());
    assert forall|i: int| 0 <= i < sa.len() implies new.contains(#[trigger] sa[i]) && sa[i]
        != a.first && sa[i] != a.last by {
        assert(base.contains(s[i]));
    }
}

#[verifier::spinoff_prover]
#[verifier::rlimit(40)]
proof fn lemma_split_moved_part(
    base: &ModulePools,
    new: &ModulePools,
    a: BasicBlock,
    s: Seq<NodeRef>,
    nb: BasicBlock,
    k: int,
)
    requires
        a.chain(base, s),
        base.contains(nb.first),
        base.contains(nb.last),
        split_apart(a, s, nb),
        0 <= k < s.len(),
        split_links(base, new, a, s, nb, k),
    ensures
        nb.chain(new, s.skip(k)),
{
    let n = s.len() as int;
    let sb = s.skip(k);
    assert forall|i: int| -1 <= i < sb.len() implies new.next(#[trigger] nb.at(sb, i)) == nb.after(
        sb,
        i,
    ) by {
        if i >= 0 {
            assert(nb.at(sb, i) == a.at(s, i + k));
            assert(new.next(a.at(s, i + k)) == (if i + k == k - 1 {
                a.last
            } else if i + k == n - 1 {
                nb.last
            } else {
                a.after(s, i + k)
            }));
        }
    }
    assert(sb.no_duplicates());
    assert forall|i: int| 0 <= i < sb.len() implies new.contains(#[trigger] sb[i]) && sb[i]
        != nb.first && sb[i] != nb.last by {
        assert(s.contains(s[i + k]));
        assert(a.member(s, s[i + k]));
        assert(base.contains(s[i + k]));
    }
}

/// Pools with the same nodes have the same blocks.
pub proof fn lemma_same_node_pool(p: &ModulePools, q: &ModulePools)
    requires
        p.node_pool@ == q.node_pool@,
    ensures
        p.wf() == q.wf(),
        all_kept(p, q),
        forall|b: BasicBlock, s: Seq<NodeRef>| #[trigger] b.chain(p, s) == b.chain(q, s),
{
    assert forall|b: BasicBlock, s: Seq<NodeRef>| #[trigger] b.chain(p, s) == b.chain(q, s) by {
        assert forall|r: NodeRef| p.node(r) == q.node(r) by {}
        if b.chain(p, s) {
            assert forall|i: int| -1 <= i < s.len() implies q.next(#[trigger] b.at(s, i))
                == b.after(s, i) by {
                assert(p.next(b.at(s, i)) == b.after(s, i));
            }
            assert(b.chain(q, s));
        }
        if b.chain(q, s) {
            assert forall|i: int| -1 <= i < s.len() implies p.next(#[trigger] b.at(s, i))
                == b.after(s, i) by {
                assert(q.next(b.at(s, i)) == b.after(s, i));
            }
            assert(b.chain(p, s));
        }
    }
    assert forall|b: BasicBlock| #[trigger] b.kept(p, q) by {
        if b.wf(p) {
            let s = b.nodes_spec(p);
            assert(b.chain(q, s) == b.chain(p, s));
            lemma_chain_unique(q, b, b.nodes_spec(q), s);
        }
    }
    if p.wf() {
        assert forall|r: NodeRef| #[trigger] q.contains(r) implies {
            &&& q.next(r) != NodeRef(0) ==> q.contains(q.next(r)) && q.prev(q.next(r)) == r
            &&& q.prev(r) != NodeRef(0) ==> q.contains(q.prev(r)) && q.next(q.prev(r)) == r
        } by {
            assert(p.contains(r));
        }
    }
    if q.wf() {
        assert forall|r: NodeRef| #[trigger] p.contains(r) implies {
            &&& p.next(r) != NodeRef(0) ==> p.contains(p.next(r)) && p.prev(p.next(r)) == r
            &&& p.prev(r) != NodeRef(0) ==> p.contains(p.prev(r)) && p.next(p.prev(r)) == r
        } by {
            assert(q.contains(r));
        }
    }
}

/// Where only members of the blocks `a` and `c` got new links, every other
/// block is as it was.
proof fn lemma_others_kept_two(
    old: &ModulePools,
    new: &ModulePools,
    a: BasicBlock,
    sa: Seq<NodeRef>,
    c: BasicBlock,
    sc: Seq<NodeRef>,
)
    requires
        old.wf(),
        a.chain(old, sa),
        c.chain(old, sc),
        new.len() >= old.len(),
        forall|r: NodeRef|
            old.contains(r) && !a.member(sa, r) && !c.member(sc, r) ==> #[trigger] new.same_links(
                old,
                r,
            ),
    ensures
        forall|b: BasicBlock|
            b.first != a.first && b.first != c.first ==> #[trigger] b.kept(old, new),
{
    assert forall|b: BasicBlock| b.first != a.first && b.first != c.first implies #[trigger] b.kept(
        old,
        new,
    ) by {
        if b.wf(old) {
            let sb = b.nodes_spec(old);
            lemma_disjoint(old, b, sb, a, sa);
            lemma_disjoint(old, b, sb, c, sc);
            assert forall|r: NodeRef| b.member(sb, r) implies #[trigger] new.same_links(old, r) by {
                lemma_members_linked(old, b, sb, r);
            }
            lemma_chain_kept(old, new, b, sb);
        }
    }
}

/// What a split leaves: the block keeps its first `k` nodes, the new block
/// has the others, and every other block is as it was.
#[verifier::spinoff_prover]
#[verifier::rlimit(40)]
proof fn lemma_split_result(
    old: &ModulePools,
    base: &ModulePools,
    new: &ModulePools,
    a: BasicBlock,
    s: Seq<NodeRef>,
    nb: BasicBlock,
    k: int,
)
    requires
        old.wf(),
        a.chain(old, s),
        split_before(base, a, s, nb, k),
        split_assigned(base, new, a, s, nb, k),
        all_kept(old, base),
        base.len() == old.len() + 2,
        nb.first.0 == old.len() + 1,
        nb.last.0 == old.len() + 2,
        forall|r: NodeRef| #[trigger] old.contains(r) ==> base.node(r) == old.node(r),
        base.instruction(nb.first) == Instruction::Invalid,
        base.instruction(nb.last) == Instruction::Invalid,
        forall|r: NodeRef| #[trigger]
            base.contains(r) ==> new.node(r).instruction == base.node(r).instruction && new.node(
                r,
            ).type_ == base.node(r).type_,
    ensures
        new.wf(),
        a.wf(new),
        nb.wf(new),
        a.nodes_spec(new) == s.take(k),
        nb.nodes_spec(new) == s.skip(k),
        others_kept(old, new, a),
        wf_kept(old, new),
        closed_kept(old, new),
{
    lemma_split_links(base, new, a, s, nb, k);
    lemma_split_wf(base, new, a, s, nb, k);
    lemma_split_apart(base, a, s, nb, k);
    lemma_split_kept_part(base, new, a, s, nb, k);
    lemma_split_moved_part(base, new, a, s, nb, k);
    lemma_chain_unique(new, a, a.nodes_spec(new), s.take(k));
    lemma_chain_unique(new, nb, nb.nodes_spec(new), s.skip(k));
    let e = Seq::<NodeRef>::empty();
    assert forall|r: NodeRef|
        base.contains(r) && !a.member(s, r) && !nb.member(e, r) implies #[trigger] new.same_links(
        base,
        r,
    ) by {}
    lemma_others_kept_two(base, new, a, s, nb, e);
    assert forall|b: BasicBlock| b.first != a.first implies #[trigger] b.kept(old, new) by {
        assert(b.kept(old, base));
        if b.wf(old) {
            assert(old.contains(b.first));
            assert(b.first != nb.first);
            assert(b.kept(base, new));
        }
    }
    lemma_wf_kept(old, new, a);
    if closed(old) {
        assert forall|r: NodeRef| #[trigger] old.contains(r) implies new.node(r).instruction
            == old.node(r).instruction by {
            assert(base.contains(r));
        }
        assert forall|r: NodeRef, j: int|
            new.contains(r) && !old.contains(r) && 0 <= j < nested_blocks(new.instruction(r)).len()
                implies (#[trigger] nested_blocks(new.instruction(r))[j]).wf(new) by {
            assert(r == nb.first || r == nb.last);
            assert(base.contains(r));
            assert(new.node(r).instruction == base.node(r).instruction);
        }
        lemma_closed_kept(old, new);
    }
}

impl BasicBlock {
    /// Splits the block after `at`: the nodes after `at` move, in order, to
    /// a new block, which is returned; `at` stays, as the last node of this
    /// block.  Splitting at the head sentinel moves every node.
    pub fn split(&self, at: NodeRef, pools: &mut ModulePools) -> (nb: BasicBlock)
        requires
            old(pools).wf(),
            self.wf(old(pools)),
            at == self.first || self.nodes_spec(old(pools)).contains(at),
        ensures
            final(pools).wf(),
            final(pools).len() == old(pools).len() + 2,
            forall|r: NodeRef| #[trigger]
                old(pools).contains(r) ==> final(pools).node(r).instruction == old(pools).node(
                    r,
                ).instruction && final(pools).node(r).type_ == old(pools).node(r).type_,
            final(pools).bb_pool@ == old(pools).bb_pool@.push(nb),
            !old(pools).contains(nb.first),
            !old(pools).contains(nb.last),
            self.wf(final(pools)),
            nb.wf(final(pools)),
            self.nodes_spec(final(pools)) == self.nodes_spec(old(pools)).take(
                cut(*self, self.nodes_spec(old(pools)), at),
            ),
            nb.nodes_spec(final(pools)) == self.nodes_spec(old(pools)).skip(
                cut(*self, self.nodes_spec(old(pools)), at),
            ),
            others_kept(old(pools), final(pools), *self),
            wf_kept(old(pools), final(pools)),
            closed_kept(old(pools), final(pools)),
    {
        let ghost s = self.nodes_spec(old(pools));
        let ghost k = cut(*self, s, at);
        let nb = BasicBlock::new(pools);
        let ghost fresh = *pools;
        pools.bb_pool.allocate(nb);
        let ghost base = *pools;
        proof {
            lemma_same_node_pool(&fresh, &base);
            assert(nb.chain(&base, Seq::empty()) == nb.chain(&fresh, Seq::empty()));
            assert forall|b: BasicBlock| #[trigger] b.kept(old(pools), &base) by {
                assert(b.kept(old(pools), &fresh));
                assert(b.kept(&fresh, &base));
            }
            assert(self.kept(old(pools), &base));
            assert(self.chain(&base, s));
            if at != self.first {
                assert(s[s.index_of(at)] == at);
            }
            assert(at == self.at(s, k - 1));
            assert(base.next(self.at(s, k - 1)) == self.after(s, k - 1));
            lemma_chain_prev(&base, *self, s, s.len() as int);
            assert forall|r: NodeRef| #[trigger] old(pools).contains(r) implies base.node(r) == old(
                pools,
            ).node(r) by {}
        }
        let start = at.get(pools).next;
        if start == self.last {
            proof {
                assert(k == s.len());
                assert(s.take(k) =~= s);
                assert(s.skip(k) =~= Seq::<NodeRef>::empty());
                lemma_chain_unique(pools, nb, nb.nodes_spec(pools), Seq::empty());
                assert forall|b: BasicBlock| b.first != self.first implies #[trigger] b.kept(
                    old(pools),
                    pools,
                ) by {
                    assert(b.kept(old(pools), &base));
                }
                lemma_wf_kept(old(pools), pools, *self);
                if closed(old(pools)) {
                    lemma_closed_kept(old(pools), pools);
                }
            }
            return nb;
        }
        let second_last = self.last.get(pools).prev;
        proof {
            assert(k < s.len());
            assert(start == s[k]);
            assert(second_last == s[s.len() - 1]);
            assert(base.contains(s[k]));
            assert(base.contains(s[s.len() - 1]));
        }
        pools.node_pool.items[nb.first.0 - 1].next = start;
        pools.node_pool.items[nb.last.0 - 1].prev = second_last;
        pools.node_pool.items[second_last.0 - 1].next = nb.last;
        pools.node_pool.items[start.0 - 1].prev = nb.first;
        pools.node_pool.items[at.0 - 1].next = self.last;
        pools.node_pool.items[self.last.0 - 1].prev = at;
        proof {
            lemma_split_assigned(&base, pools, *self, s, nb, k);
            assert forall|r: NodeRef| #[trigger] base.contains(r) implies pools.node(r).instruction
                == base.node(r).instruction && pools.node(r).type_ == base.node(r).type_ by {}
            lemma_split_result(old(pools), &base, pools, *self, s, nb, k);
        }
        nb
    }

    /// The phi nodes of the block, in order.
    pub fn phis(&self, pools: &ModulePools) -> (v: Vec<NodeRef>)
        requires
            self.wf(pools),
        ensures
            v@ == self.nodes_spec(pools).filter(|r: NodeRef| pools.instruction(r) is Phi),
    {
        let ghost s = self.nodes_spec(pools);
        let ghost keep = |r: NodeRef| pools.instruction(r) is Phi;
        let nodes = self.nodes(pools);
        let mut v: Vec<NodeRef> = Vec::new();
        let mut i: usize = 0;
        assert(s.take(0).filter(keep) =~= Seq::<NodeRef>::empty());
        while i < nodes.len()
            invariant
                i <= nodes.len(),
                nodes@ == s,
                self.chain(pools, s),
                keep == |r: NodeRef| pools.instruction(r) is Phi,
                v@ == s.take(i as int).filter(keep),
            decreases nodes.len() - i,
        {
            let node = nodes[i];
            proof {
                assert(pools.contains(s[i as int]));
                assert(s.take(i as int + 1) =~= s.take(i as int).push(s[i as int]));
                lemma_filter_one(s.take(i as int), keep, s[i as int]);
            }
            if node.instruction(pools).is_phi() {
                v.push(node);
            }
            i += 1;
        }
        assert(s.take(s.len() as int) =~= s);
        v
    }
}

/// Filtering a sequence with one more element at its end.
pub proof fn lemma_filter_one<A>(a: Seq<A>, keep: spec_fn(A) -> bool, x: A)
    ensures
        a.push(x).filter(keep) == if keep(x) {
            a.filter(keep).push(x)
        } else {
            a.filter(keep)
        },
{
    reveal(Seq::filter);
    assert(a.push(x).drop_last() =~= a);
}

/// Splitting a sequence of nodes at any position and appending the second
/// part to the first gives the sequence back: a block that is split and then
/// merged with the block that was split off has the nodes it had.
pub proof fn lemma_split_merge(s: Seq<NodeRef>, k: int)
    requires
        0 <= k <= s.len(),
    ensures
        s.take(k) + s.skip(k) == s,
{
    assert(s.take(k) + s.skip(k) =~= s);
}

/// Where the block `a` is still well formed and every other block is as it
/// was, every block that was well formed still is.
pub proof fn lemma_wf_kept(old: &ModulePools, new: &ModulePools, a: BasicBlock)
    requires
        a.wf(old),
        a.wf(new),
        others_kept(old, new, a),
    ensures
        wf_kept(old, new),
{
    assert forall|b: BasicBlock| b.wf(old) implies #[trigger] b.wf(new) by {
        if b.first == a.first {
            lemma_same_first(old, a, a.nodes_spec(old), b, b.nodes_spec(old));
        } else {
            assert(b.kept(old, new));
        }
    }
}

/// The pool after linking `node` after position `k - 1` of the block `b`.
pub proof fn lemma_inserted(
    old: &ModulePools,
    new: &ModulePools,
    b: BasicBlock,
    s: Seq<NodeRef>,
    k: int,
    node: NodeRef,
)
    requires
        old.wf(),
        b.chain(old, s),
        0 <= k <= s.len(),
        old.contains(node),
        !old.linked(node),
        new.len() == old.len(),
        new.node_pool@ == with_next(
            with_prev(
                with_prev(
                    with_next(old.node_pool@, b.at(s, k - 1), node),
                    old.next(b.at(s, k - 1)),
                    node,
                ),
                node,
                b.at(s, k - 1),
            ),
            node,
            old.next(b.at(s, k - 1)),
        ),
    ensures
        b.chain(new, s.insert(k, node)),
        b.wf(new),
        b.nodes_spec(new) == s.insert(k, node),
        b.nodes_spec(old) == s,
        forall|r: NodeRef|
            old.contains(r) && !b.member(s, r) && r != node ==> #[trigger] new.same_links(old, r),
        others_kept(old, new, b),
        wf_kept(old, new),
{
    let t = s.insert(k, node);
    let n = s.len() as int;
    let x = b.at(s, k - 1);
    let y = b.after(s, k - 1);
    assert(old.next(b.at(s, k - 1)) == y);
    lemma_chain_unique(old, b, b.nodes_spec(old), s);
    assert forall|r: NodeRef| b.member(s, r) implies r != node by {
        lemma_members_linked(old, b, s, r);
    }
    assert(b.member(s, b.first));
    assert(b.member(s, b.last));
    assert forall|i: int| 0 <= i < s.len() implies s[i] != node && b.member(s, #[trigger] s[i]) by {
        assert(s.contains(s[i]));
        assert(b.member(s, s[i]));
        lemma_members_linked(old, b, s, s[i]);
    }
    assert(b.member(s, x));
    assert(b.member(s, y));
    assert(t.no_duplicates()) by {
        assert forall|i: int, j: int| 0 <= i < t.len() && 0 <= j < t.len() && i != j implies t[i]
            != t[j] by {
            let ii = if i < k { i } else { i - 1 };
            let jj = if j < k { j } else { j - 1 };
            if i != k && j != k {
                assert(t[i] == s[ii]);
                assert(t[j] == s[jj]);
            } else if i == k {
                assert(t[j] == s[jj]);
            } else {
                assert(t[i] == s[ii]);
            }
        }
    }
    assert forall|i: int| -1 <= i < t.len() implies new.next(#[trigger] b.at(t, i)) == b.after(
        t,
        i,
    ) by {
        if i == k {
        } else if i < k {
            assert(b.at(t, i) == b.at(s, i));
            assert(old.next(b.at(s, i)) == b.after(s, i));
        } else {
            assert(b.at(t, i) == b.at(s, i - 1));
            assert(old.next(b.at(s, i - 1)) == b.after(s, i - 1));
        }
    }
    assert forall|i: int| 0 <= i < t.len() implies new.contains(#[trigger] t[i]) && t[i] != b.first
        && t[i] != b.last by {
        if i < k {
            assert(t[i] == s[i]);
        } else if i > k {
            assert(t[i] == s[i - 1]);
        }
    }
    assert(b.chain(new, t));
    lemma_chain_unique(new, b, b.nodes_spec(new), t);
    assert forall|r: NodeRef|
        old.contains(r) && old.linked(r) && !b.member(s, r) implies #[trigger] new.same_links(
        old,
        r,
    ) by {}
    lemma_others_kept(old, new, b, s);
    lemma_wf_kept(old, new, b);
}

/// A position in a block, from which its nodes are handed out one by one.
pub struct BasicBlockIter {
    pub cur: NodeRef,
    pub block: BasicBlock,
}

impl BasicBlockIter {
    /// The position is a node of the block, or its tail sentinel.
    pub open spec fn wf(&self, p: &ModulePools) -> bool {
        &&& self.block.wf(p)
        &&& (self.cur == self.block.last || self.block.nodes_spec(p).contains(self.cur))
    }

    /// The nodes that are still to come.
    pub open spec fn remaining(&self, p: &ModulePools) -> Seq<NodeRef> {
        if self.cur == self.block.last {
            Seq::empty()
        } else {
            self.block.nodes_spec(p).skip(self.block.nodes_spec(p).index_of(self.cur))
        }
    }

    /// Hands out the node at the position and moves to the node after it;
    /// `None` at the end of the block.
    pub fn next(&mut self, pools: &ModulePools) -> (r: Option<NodeRef>)
        requires
            old(self).wf(pools),
        ensures
            final(self).wf(pools),
            final(self).block == old(self).block,
            old(self).remaining(pools).len() == 0 ==> r is None && final(self).remaining(pools)
                == old(self).remaining(pools),
            old(self).remaining(pools).len() > 0 ==> r == Some(old(self).remaining(pools)[0])
                && final(self).remaining(pools) == old(self).remaining(pools).drop_first(),
    {
        if self.cur == self.block.last {
            None
        } else {
            let ret = self.cur;
            let ghost s = self.block.nodes_spec(pools);
            let ghost i = s.index_of(ret);
            proof {
                assert(s[i] == ret);
                assert(pools.contains(s[i]));
                assert(pools.next(self.block.at(s, i)) == self.block.after(s, i));
            }
            self.cur = self.cur.get(pools).next;
            proof {
                if i + 1 < s.len() {
                    assert(s.contains(s[i + 1]));
                    assert(s.index_of(s[i + 1]) == i + 1) by {
                        let j = s.index_of(s[i + 1]);
                        assert(s[j] == s[i + 1]);
                    }
                    assert(s.skip(i).drop_first() =~= s.skip(i + 1));
                } else {
                    assert(s.skip(i).drop_first() =~= Seq::<NodeRef>::empty());
                }
            }
            Some(ret)
        }
    }
}

impl BasicBlock {
    /// An iterator over the nodes of the block, from the first on.
    pub fn iter(&self, pools: &ModulePools) -> (it: BasicBlockIter)
        requires
            self.wf(pools),
        ensures
            it.wf(pools),
            it.block == *self,
            it.remaining(pools) == self.nodes_spec(pools),
    {
        let ghost s = self.nodes_spec(pools);
        proof {
            assert(pools.next(self.at(s, -1)) == self.after(s, -1));
            if s.len() > 0 {
                assert(s.contains(s[0]));
                assert(s.index_of(s[0]) == 0) by {
                    let j = s.index_of(s[0]);
                    assert(s[j] == s[0]);
                }
                assert(s.skip(0) =~= s);
            }
        }
        BasicBlockIter { cur: self.first.get(pools).next, block: *self }
    }
}

/// The pool after the node at position `k` of the block `b` was taken out.
pub proof fn lemma_removed(
    old: &ModulePools,
    new: &ModulePools,
    b: BasicBlock,
    s: Seq<NodeRef>,
    k: int,
)
    requires
        old.wf(),
        b.chain(old, s),
        0 <= k < s.len(),
        new.len() == old.len(),
        new.node_pool@ == with_prev(
            with_next(
                with_prev(
                    with_next(old.node_pool@, old.prev(s[k]), old.next(s[k])),
                    old.next(s[k]),
                    old.prev(s[k]),
                ),
                s[k],
                NodeRef(0),
            ),
            s[k],
            NodeRef(0),
        ),
    ensures
        b.chain(new, s.remove(k)),
        b.wf(new),
        b.nodes_spec(new) == s.remove(k),
        others_kept(old, new, b),
        wf_kept(old, new),
{
    let t = s.remove(k);
    let n = s.len() as int;
    let x = s[k];
    lemma_chain_prev(old, b, s, k);
    assert(old.next(b.at(s, k)) == b.after(s, k));
    let pred = b.at(s, k - 1);
    let succ = b.after(s, k);
    assert(old.prev(x) == pred);
    assert(old.next(x) == succ);
    assert forall|i: int| 0 <= i < n implies b.member(s, #[trigger] s[i]) by {
        assert(s.contains(s[i]));
    }
    assert(b.member(s, b.first) && b.member(s, b.last));
    assert forall|i: int| -1 <= i < t.len() implies new.next(#[trigger] b.at(t, i)) == b.after(
        t,
        i,
    ) by {
        if i < k - 1 {
            assert(b.at(t, i) == b.at(s, i));
            assert(old.next(b.at(s, i)) == b.after(s, i));
        } else if i == k - 1 {
            assert(b.at(t, i) == pred);
        } else {
            assert(b.at(t, i) == b.at(s, i + 1));
            assert(old.next(b.at(s, i + 1)) == b.after(s, i + 1));
        }
    }
    assert(t.no_duplicates()) by {
        assert forall|i: int, j: int| 0 <= i < t.len() && 0 <= j < t.len() && i != j implies t[i]
            != t[j] by {
            let ii = if i < k { i } else { i + 1 };
            let jj = if j < k { j } else { j + 1 };
            assert(t[i] == s[ii] && t[j] == s[jj]);
        }
    }
    assert forall|i: int| 0 <= i < t.len() implies new.contains(#[trigger] t[i]) && t[i] != b.first
        && t[i] != b.last by {
        let ii = if i < k { i } else { i + 1 };
        assert(t[i] == s[ii]);
    }
    assert(b.chain(new, t));
    lemma_chain_unique(new, b, b.nodes_spec(new), t);
    assert forall|r: NodeRef|
        old.contains(r) && old.linked(r) && !b.member(s, r) implies #[trigger] new.same_links(
        old,
        r,
    ) by {}
    lemma_others_kept(old, new, b, s);
    lemma_wf_kept(old, new, b);
}

/// The node reached from `n` by following `k` links `next`.
pub open spec fn nth_next(p: &ModulePools, n: NodeRef, k: nat) -> NodeRef
    decreases k,
{
    if k == 0 {
        n
    } else {
        nth_next(p, p.next(n), (k - 1) as nat)
    }
}

proof fn lemma_walk(p: &ModulePools, b: BasicBlock, s: Seq<NodeRef>, i: int, k: nat)
    requires
        b.chain(p, s),
        -1 <= i,
        k >= 1,
        i + k <= s.len(),
    ensures
        nth_next(p, b.at(s, i), k) == b.after(s, i + k - 1),
    decreases k,
{
    assert(p.next(b.at(s, i)) == b.after(s, i));
    if k > 1 {
        assert(b.after(s, i) == b.at(s, i + 1));
        lemma_walk(p, b, s, i + 1, (k - 1) as nat);
    } else {
        reveal_with_fuel(nth_next, 2);
    }
}

/// Link integrity of a well-formed block in a pool with link integrity:
/// nothing stands before the head sentinel and nothing after the tail
/// sentinel; every node of the block is the `next` of its `prev` and the
/// `prev` of its `next`; and following the links from the node after the
/// head sentinel reaches the tail sentinel in as many steps as the block
/// has nodes.
pub proof fn lemma_link_integrity(p: &ModulePools, b: BasicBlock)
    requires
        p.wf(),
        b.wf(p),
    ensures
        p.prev(b.first) == NodeRef(0),
        p.next(b.last) == NodeRef(0),
        forall|i: int|
            0 <= i < b.nodes_spec(p).len() ==> {
                let n = (#[trigger] b.nodes_spec(p)[i]);
                &&& p.linked(n)
                &&& p.next(p.prev(n)) == n
                &&& p.prev(p.next(n)) == n
            },
        nth_next(p, p.next(b.first), b.nodes_spec(p).len()) == b.last,
{
    let s = b.nodes_spec(p);
    assert forall|i: int| 0 <= i < s.len() implies {
        let n = (#[trigger] s[i]);
        &&& p.linked(n)
        &&& p.next(p.prev(n)) == n
        &&& p.prev(p.next(n)) == n
    } by {
        assert(s.contains(s[i]));
        lemma_members_linked(p, b, s, s[i]);
        lemma_chain_prev(p, b, s, i);
        lemma_chain_prev(p, b, s, i + 1);
        assert(p.next(b.at(s, i)) == b.after(s, i));
        assert(p.next(b.at(s, i - 1)) == b.after(s, i - 1));
    }
    assert(p.next(b.at(s, -1)) == b.after(s, -1));
    lemma_walk(p, b, s, 0 - 1, s.len() + 1);
    assert(nth_next(p, b.first, s.len() + 1) == nth_next(p, p.next(b.first), s.len()));
}

/// Nested blocks stay well formed where every block that was well formed
/// still is, the nodes that were there keep their instructions, and the
/// blocks nested in the new nodes are well formed.
pub proof fn lemma_closed_kept(old: &ModulePools, new: &ModulePools)
    requires
        closed(old),
        wf_kept(old, new),
        forall|r: NodeRef| #[trigger]
            old.contains(r) ==> new.node(r).instruction == old.node(r).instruction,
        forall|r: NodeRef, j: int|
            new.contains(r) && !old.contains(r) && 0 <= j < nested_blocks(new.instruction(r)).len()
                ==> (#[trigger] nested_blocks(new.instruction(r))[j]).wf(new),
    ensures
        closed(new),
{
    assert forall|r: NodeRef, j: int|
        new.contains(r) && 0 <= j < nested_blocks(new.instruction(r)).len() implies (#[trigger] nested_blocks(
        new.instruction(r),
    )[j]).wf(new) by {
        if old.contains(r) {
            assert(new.instruction(r) == old.instruction(r));
            assert(nested_blocks(old.instruction(r))[j].wf(old));
        }
    }
}


/// The same for pools with the same number of nodes.
pub proof fn lemma_closed_same(old: &ModulePools, new: &ModulePools)
    requires
        wf_kept(old, new),
        new.same_payload(old),
    ensures
        closed_kept(old, new),
{
    if closed(old) {
        lemma_closed_kept(old, new);
    }
}

} // verus!
