//! Pools of nodes and blocks, and the links between the nodes of a pool.
//!
//! A module owns one [`ModulePools`].  Nodes are never freed or moved: the
//! handle of a node is its position in the node pool, counted from 1.

use crate::node::{invalid_ref, BasicBlock, Instruction, Node, NodeRef};
use crate::registry::TypeRef;
use vstd::prelude::*;

verus! {

/// An arena: values are added at the end and stay where they are.
pub struct Pool<T> {
    pub items: Vec<T>,
}

impl<T> View for Pool<T> {
    type V = Seq<T>;

    open spec fn view(&self) -> Seq<T> {
        self.items@
    }
}

impl<T> Pool<T> {
    pub fn new() -> (r: Self)
        ensures
            r@ == Seq::<T>::empty(),
    {
        Pool { items: Vec::new() }
    }

    /// Moves `value` into the pool and returns its position.
    pub fn allocate(&mut self, value: T) -> (at: usize)
        ensures
            final(self)@ == old(self)@.push(value),
            at == old(self)@.len(),
    {
        self.items.push(value);
        self.items.len() - 1
    }

    pub fn len(&self) -> (n: usize)
        ensures
            n == self@.len(),
    {
        self.items.len()
    }

    pub fn get(&self, at: usize) -> (value: &T)
        requires
            at < self@.len(),
        ensures
            *value == self@[at as int],
    {
        &self.items[at]
    }
}

/// The pools of one module.
pub struct ModulePools {
    pub node_pool: Pool<Node>,
    pub bb_pool: Pool<BasicBlock>,
}

/// `nodes` with the `next` link of node `r` set to `to`.
pub open spec fn with_next(nodes: Seq<Node>, r: NodeRef, to: NodeRef) -> Seq<Node> {
    nodes.update(r.0 - 1, Node { next: to, ..nodes[r.0 - 1] })
}

/// `nodes` with the `prev` link of node `r` set to `to`.
pub open spec fn with_prev(nodes: Seq<Node>, r: NodeRef, to: NodeRef) -> Seq<Node> {
    nodes.update(r.0 - 1, Node { prev: to, ..nodes[r.0 - 1] })
}

impl ModulePools {
    /// Number of nodes.
    pub open spec fn len(&self) -> nat {
        self.node_pool@.len()
    }

    /// `r` is the handle of a node of these pools.
    pub open spec fn contains(&self, r: NodeRef) -> bool {
        1 <= r.0 <= self.node_pool@.len()
    }

    /// The node behind a handle.
    pub open spec fn node(&self, r: NodeRef) -> Node {
        self.node_pool@[r.0 - 1]
    }

    pub open spec fn next(&self, r: NodeRef) -> NodeRef {
        self.node(r).next
    }

    pub open spec fn prev(&self, r: NodeRef) -> NodeRef {
        self.node(r).prev
    }

    /// The instruction of a node.
    pub open spec fn instruction(&self, r: NodeRef) -> Instruction {
        *self.node(r).instruction
    }

    /// A node is linked when one of its links names a node.
    pub open spec fn linked(&self, r: NodeRef) -> bool {
        self.prev(r) != NodeRef(0) || self.next(r) != NodeRef(0)
    }

    /// Link integrity: every link names no node or a node of the pool, the
    /// node after a node has that node before it, and the node before a
    /// node has that node after it.
    pub open spec fn wf(&self) -> bool {
        forall|r: NodeRef| #[trigger]
            self.contains(r) ==> {
                &&& self.next(r) != NodeRef(0) ==> self.contains(self.next(r)) && self.prev(
                    self.next(r),
                ) == r
                &&& self.prev(r) != NodeRef(0) ==> self.contains(self.prev(r)) && self.next(
                    self.prev(r),
                ) == r
            }
    }

    /// Node `r` has the links it had in `old`.
    pub open spec fn same_links(&self, old: &ModulePools, r: NodeRef) -> bool {
        self.next(r) == old.next(r) && self.prev(r) == old.prev(r)
    }

    /// Same nodes as `old` but for their links.
    pub open spec fn same_payload(&self, old: &ModulePools) -> bool {
        &&& self.len() == old.len()
        &&& self.bb_pool == old.bb_pool
        &&& forall|r: NodeRef| #[trigger]
            old.contains(r) ==> self.node(r).instruction == old.node(r).instruction && self.node(
                r,
            ).type_ == old.node(r).type_
    }

    /// The nodes of `old` are nodes of `self`, unchanged.
    pub open spec fn extends(&self, old: &ModulePools) -> bool {
        &&& self.len() >= old.len()
        &&& forall|r: NodeRef| #[trigger] old.contains(r) ==> self.node(r) == old.node(r)
    }

    /// Whether `r` is the handle of a node of these pools.
    pub fn has(&self, r: NodeRef) -> (b: bool)
        ensures
            b == self.contains(r),
    {
        1 <= r.0 && r.0 <= self.node_pool.len()
    }

    pub fn new() -> (r: Self)
        ensures
            r.len() == 0,
            r.wf(),
            r.bb_pool@.len() == 0,
    {
        ModulePools { node_pool: Pool::new(), bb_pool: Pool::new() }
    }
}

/// Moves a node that is not linked into the pool and returns its handle.
pub fn new_node(pools: &mut ModulePools, node: Node) -> (r: NodeRef)
    requires
        old(pools).wf(),
        node.next == NodeRef(0),
        node.prev == NodeRef(0),
    ensures
        final(pools).node_pool@ == old(pools).node_pool@.push(node),
        final(pools).bb_pool == old(pools).bb_pool,
        r.0 == old(pools).len() + 1,
        final(pools).wf(),
        final(pools).extends(old(pools)),
        final(pools).contains(r),
        !old(pools).contains(r),
        final(pools).node(r) == node,
{
    pools.node_pool.allocate(node);
    let r = NodeRef(pools.node_pool.len());
    proof {
        assert forall|x: NodeRef| #[trigger] pools.contains(x) implies {
            &&& pools.next(x) != NodeRef(0) ==> pools.contains(pools.next(x)) && pools.prev(
                pools.next(x),
            ) == x
            &&& pools.prev(x) != NodeRef(0) ==> pools.contains(pools.prev(x)) && pools.next(
                pools.prev(x),
            ) == x
        } by {
            if x != r {
                assert(old(pools).contains(x));
                assert(pools.node(x) == old(pools).node(x));
                if pools.next(x) != NodeRef(0) {
                    assert(old(pools).contains(pools.next(x)));
                }
                if pools.prev(x) != NodeRef(0) {
                    assert(old(pools).contains(pools.prev(x)));
                }
            }
        }
    }
    r
}

impl NodeRef {
    /// The node behind the handle.
    pub fn get<'a>(&self, pools: &'a ModulePools) -> (node: &'a Node)
        requires
            pools.contains(*self),
        ensures
            *node == pools.node(*self),
    {
        pools.node_pool.get(self.0 - 1)
    }

    /// The node behind the handle, to be changed in place.
    pub fn get_mut<'a>(&self, pools: &'a mut ModulePools) -> (node: &'a mut Node)
        requires
            old(pools).contains(*self),
        ensures
            *node == old(pools).node(*self),
            final(pools).node_pool@ == old(pools).node_pool@.update(self.0 - 1, *final(node)),
            final(pools).bb_pool == old(pools).bb_pool,
    {
        &mut pools.node_pool.items[self.0 - 1]
    }

    /// Replaces the node behind the handle.
    pub fn set(&self, pools: &mut ModulePools, node: Node)
        requires
            old(pools).contains(*self),
        ensures
            final(pools).node_pool@ == old(pools).node_pool@.update(self.0 - 1, node),
            final(pools).bb_pool == old(pools).bb_pool,
    {
        pools.node_pool.items[self.0 - 1] = node;
    }

    /// The result type of the node.
    pub fn type_(&self, pools: &ModulePools) -> (t: TypeRef)
        requires
            pools.contains(*self),
        ensures
            t == pools.node(*self).type_,
    {
        self.get(pools).type_
    }

    /// The instruction of the node.
    pub fn instruction<'a>(&self, pools: &'a ModulePools) -> (i: &'a Instruction)
        requires
            pools.contains(*self),
        ensures
            *i == pools.instruction(*self),
    {
        &*self.get(pools).instruction
    }

    pub fn is_linked(&self, pools: &ModulePools) -> (r: bool)
        requires
            pools.contains(*self),
        ensures
            r == pools.linked(*self),
    {
        let node = self.get(pools);
        node.prev.valid() || node.next.valid()
    }

    /// Takes the node out from between its two neighbours.
    pub fn remove(&self, pools: &mut ModulePools)
        requires
            old(pools).wf(),
            old(pools).contains(*self),
            old(pools).prev(*self) != NodeRef(0),
            old(pools).next(*self) != NodeRef(0),
        ensures
            final(pools).node_pool@ == with_prev(
                with_next(
                    with_prev(
                        with_next(
                            old(pools).node_pool@,
                            old(pools).prev(*self),
                            old(pools).next(*self),
                        ),
                        old(pools).next(*self),
                        old(pools).prev(*self),
                    ),
                    *self,
                    NodeRef(0),
                ),
                *self,
                NodeRef(0),
            ),
            final(pools).same_payload(old(pools)),
            final(pools).wf(),
            !final(pools).linked(*self),
    {
        let prev = self.get(pools).prev;
        let next = self.get(pools).next;
        pools.node_pool.items[prev.0 - 1].next = next;
        pools.node_pool.items[next.0 - 1].prev = prev;
        pools.node_pool.items[self.0 - 1].prev = invalid_ref();
        pools.node_pool.items[self.0 - 1].next = invalid_ref();
        proof {
            let me = *self;
            assert forall|x: NodeRef| #[trigger] pools.contains(x) implies {
                &&& pools.next(x) != NodeRef(0) ==> pools.contains(pools.next(x)) && pools.prev(
                    pools.next(x),
                ) == x
                &&& pools.prev(x) != NodeRef(0) ==> pools.contains(pools.prev(x)) && pools.next(
                    pools.prev(x),
                ) == x
            } by {
                assert(old(pools).contains(x));
                if old(pools).next(x) != NodeRef(0) {
                    assert(old(pools).contains(old(pools).next(x)));
                }
                if old(pools).prev(x) != NodeRef(0) {
                    assert(old(pools).contains(old(pools).prev(x)));
                }
            }
        }
    }

    /// Links `node_ref` between this node and the node after it.
    pub fn insert_after_self(&self, pools: &mut ModulePools, node_ref: NodeRef)
        requires
            old(pools).wf(),
            old(pools).contains(*self),
            old(pools).contains(node_ref),
            !old(pools).linked(node_ref),
            old(pools).next(*self) != NodeRef(0),
        ensures
            final(pools).node_pool@ == with_next(
                with_prev(
                    with_prev(
                        with_next(old(pools).node_pool@, *self, node_ref),
                        old(pools).next(*self),
                        node_ref,
                    ),
                    node_ref,
                    *self,
                ),
                node_ref,
                old(pools).next(*self),
            ),
            final(pools).same_payload(old(pools)),
            final(pools).wf(),
    {
        let next = self.get(pools).next;
        pools.node_pool.items[self.0 - 1].next = node_ref;
        pools.node_pool.items[next.0 - 1].prev = node_ref;
        pools.node_pool.items[node_ref.0 - 1].prev = *self;
        pools.node_pool.items[node_ref.0 - 1].next = next;
        proof {
            assert forall|x: NodeRef| #[trigger] pools.contains(x) implies {
                &&& pools.next(x) != NodeRef(0) ==> pools.contains(pools.next(x)) && pools.prev(
                    pools.next(x),
                ) == x
                &&& pools.prev(x) != NodeRef(0) ==> pools.contains(pools.prev(x)) && pools.next(
                    pools.prev(x),
                ) == x
            } by {
                assert(old(pools).contains(x));
                assert(old(pools).contains(next));
                if old(pools).next(x) != NodeRef(0) {
                    assert(old(pools).contains(old(pools).next(x)));
                }
                if old(pools).prev(x) != NodeRef(0) {
                    assert(old(pools).contains(old(pools).prev(x)));
                }
            }
        }
    }

    /// Links `node_ref` between the node before this node and this node.
    pub fn insert_before_self(&self, pools: &mut ModulePools, node_ref: NodeRef)
        requires
            old(pools).wf(),
            old(pools).contains(*self),
            old(pools).contains(node_ref),
            !old(pools).linked(node_ref),
            old(pools).prev(*self) != NodeRef(0),
        ensures
            final(pools).node_pool@ == with_next(
                with_prev(
                    with_next(
                        with_prev(old(pools).node_pool@, *self, node_ref),
                        old(pools).prev(*self),
                        node_ref,
                    ),
                    node_ref,
                    old(pools).prev(*self),
                ),
                node_ref,
                *self,
            ),
            final(pools).same_payload(old(pools)),
            final(pools).wf(),
    {
        let prev = self.get(pools).prev;
        pools.node_pool.items[self.0 - 1].prev = node_ref;
        pools.node_pool.items[prev.0 - 1].next = node_ref;
        pools.node_pool.items[node_ref.0 - 1].prev = prev;
        pools.node_pool.items[node_ref.0 - 1].next = *self;
        proof {
            assert forall|x: NodeRef| #[trigger] pools.contains(x) implies {
                &&& pools.next(x) != NodeRef(0) ==> pools.contains(pools.next(x)) && pools.prev(
                    pools.next(x),
                ) == x
                &&& pools.prev(x) != NodeRef(0) ==> pools.contains(pools.prev(x)) && pools.next(
                    pools.prev(x),
                ) == x
            } by {
                assert(old(pools).contains(x));
                assert(old(pools).contains(prev));
                if old(pools).next(x) != NodeRef(0) {
                    assert(old(pools).contains(old(pools).next(x)));
                }
                if old(pools).prev(x) != NodeRef(0) {
                    assert(old(pools).contains(old(pools).prev(x)));
                }
            }
        }
    }
}

} // verus!
